//! Rays: an origin and a unit direction.

use vstd::prelude::*;

use crate::vec3::{add_spec, len_sq_spec, normalized_spec, scale_spec, Vec3};

verus! {

/// A half-line through `origin` along `direction`; the constructor
/// normalizes the direction.
#[derive(Clone, Copy, Debug, PartialEq, Eq, Structural)]
pub struct Ray {
    pub origin: Vec3,
    pub direction: Vec3,
}

/// The point at parameter `t`: `origin + t·direction`.
pub open spec fn ray_at_spec(r: Ray, t: int) -> Vec3 {
    add_spec(r.origin, scale_spec(r.direction, t))
}

impl Ray {
    /// A ray with the direction normalized. Degenerate directions (squared
    /// length shorter than one tick) cannot be normalized and are excluded.
    pub fn new(origin: &Vec3, direction: &Vec3) -> (r: Ray)
        requires
            len_sq_spec(*direction) >= 1,
        ensures
            r.origin == *origin,
            r.direction == normalized_spec(*direction),
    {
        Ray { origin: *origin, direction: direction.normalized() }
    }

    /// The point at parameter `t`.
    pub fn at(&self, t: i64) -> (p: Vec3)
        ensures
            p == ray_at_spec(*self, t as int),
    {
        self.origin.add(&self.direction.scale(t))
    }
}

} // verus!
