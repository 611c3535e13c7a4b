//! The scene: an insertion-ordered collection of shapes and its closest-hit
//! query.

use vstd::prelude::*;

use crate::geometry::{geom_hit_spec, geom_wf, Geometry, Intersect};
use crate::ray::Ray;

verus! {

/// An insertion-ordered sequence of owned shapes; read-only while
/// rendering.
pub struct Scene {
    pub geometry: Vec<Geometry>,
}

/// Every shape holds its data invariant.
pub open spec fn scene_wf(geoms: Seq<Geometry>) -> bool {
    forall|i: int| 0 <= i < geoms.len() ==> geom_wf(#[trigger] geoms[i])
}

/// The closest hit over the shapes, scanned in insertion order against the
/// same window `[t_min, t_max]` for every candidate; a later hit replaces
/// the running closest only when its `t` is strictly smaller, so ties go
/// to the earliest shape.
pub open spec fn cast_ray_spec(geoms: Seq<Geometry>, ray: Ray, t_min: int, t_max: int) -> Option<
    Intersect,
>
    decreases geoms.len(),
{
    if geoms.len() == 0 {
        None::<Intersect>
    } else {
        let prev = cast_ray_spec(geoms.drop_last(), ray, t_min, t_max);
        let cur = geom_hit_spec(geoms.last(), ray, t_min, t_max);
        match prev {
            Option::None => cur,
            Option::Some(p) => match cur {
                Option::None => Some(p),
                Option::Some(c) => if c.t < p.t {
                    Some(c)
                } else {
                    Some(p)
                },
            },
        }
    }
}

impl Scene {
    /// An empty scene.
    pub fn new() -> (s: Scene)
        ensures
            s.geometry@.len() == 0,
    {
        Scene { geometry: Vec::new() }
    }

    /// Append a shape; the scan order is the insertion order.
    pub fn add(&mut self, g: Geometry)
        ensures
            final(self).geometry@ == old(self).geometry@.push(g),
    {
        self.geometry.push(g);
    }

    /// The closest hit in `[t_min, t_max]`, or none (see `cast_ray_spec`).
    pub fn cast_ray(&self, ray: &Ray, t_min: i64, t_max: i64) -> (res: Option<Intersect>)
        ensures
            res == cast_ray_spec(self.geometry@, *ray, t_min as int, t_max as int),
    {
        let mut closest: Option<Intersect> = None;
        let n: usize = self.geometry.len();
        let mut i: usize = 0;
        while i < n
            invariant
                i <= n,
                n == self.geometry@.len(),
                closest == cast_ray_spec(
                    self.geometry@.take(i as int),
                    *ray,
                    t_min as int,
                    t_max as int,
                ),
            decreases n - i,
        {
            let g = self.geometry[i];
            let hit = g.intersect_with(ray, t_min, t_max);
            proof {
                assert(self.geometry@.take(i as int + 1).drop_last() =~= self.geometry@.take(
                    i as int,
                ));
                assert(self.geometry@.take(i as int + 1).last() == self.geometry@[i as int]);
            }
            match hit {
                Option::Some(intersect) => {
                    match closest {
                        Option::Some(c) => {
                            if intersect.t < c.t {
                                closest = Some(intersect);
                            }
                        },
                        Option::None => {
                            closest = Some(intersect);
                        },
                    }
                },
                Option::None => {},
            }
            i = i + 1;
        }
        proof {
            assert(self.geometry@.take(n as int) =~= self.geometry@);
        }
        closest
    }
}

/// The query returns the nearest hit: whenever some shape's own test hits,
/// the query returns a hit whose parameter is no larger; over two
/// overlapping shapes along one ray it is the one with strictly smaller
/// `t` that survives.
pub proof fn lemma_cast_ray_closest(
    geoms: Seq<Geometry>,
    ray: Ray,
    t_min: int,
    t_max: int,
    i: int,
)
    requires
        0 <= i < geoms.len(),
        geom_hit_spec(geoms[i], ray, t_min, t_max).is_some(),
    ensures
        cast_ray_spec(geoms, ray, t_min, t_max).is_some(),
        cast_ray_spec(geoms, ray, t_min, t_max).unwrap().t <= geom_hit_spec(
            geoms[i],
            ray,
            t_min,
            t_max,
        ).unwrap().t,
    decreases geoms.len(),
{
    if i == geoms.len() - 1 {
        assert(geoms.last() == geoms[i]);
    } else {
        assert(geoms.drop_last()[i] == geoms[i]);
        lemma_cast_ray_closest(geoms.drop_last(), ray, t_min, t_max, i);
    }
}

/// Every hit the query returns is some shape's own hit (with that shape's
/// material in the record).
pub proof fn lemma_cast_ray_member(geoms: Seq<Geometry>, ray: Ray, t_min: int, t_max: int)
    requires
        cast_ray_spec(geoms, ray, t_min, t_max).is_some(),
    ensures
        exists|j: int|
            0 <= j < geoms.len() && cast_ray_spec(geoms, ray, t_min, t_max) == #[trigger] geom_hit_spec(
                geoms[j],
                ray,
                t_min,
                t_max,
            ),
    decreases geoms.len(),
{
    let res = cast_ray_spec(geoms, ray, t_min, t_max);
    let prev = cast_ray_spec(geoms.drop_last(), ray, t_min, t_max);
    let cur = geom_hit_spec(geoms.last(), ray, t_min, t_max);
    if res == cur {
        assert(geoms[geoms.len() - 1] == geoms.last());
    } else {
        lemma_cast_ray_member(geoms.drop_last(), ray, t_min, t_max);
        let j = choose|j: int|
            0 <= j < geoms.drop_last().len() && prev == #[trigger] geom_hit_spec(
                geoms.drop_last()[j],
                ray,
                t_min,
                t_max,
            );
        assert(geoms.drop_last()[j] == geoms[j]);
    }
}

} // verus!
