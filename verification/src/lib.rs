//! A small Monte-Carlo path tracer over fixed-point arithmetic.
//!
//! Colors, points and directions are 3-vectors of fixed-point scalars
//! (`fx::SCALE` raw ticks per unit), so every arithmetic step has an exact,
//! machine-checked contract: saturating addition, truncating scaled
//! multiplication and division, and an integer square root. The modules build
//! on each other from the scalar up: vectors, rays, sphere intersection,
//! material scattering, the scene's closest-hit query, the camera's ray
//! generation, the recursive radiance integrator, and the scanline-band
//! render driver with its partition of the image rows.

pub mod camera;
pub mod render;
pub mod fx;
pub mod scene;
pub mod raytracer;
pub mod geometry;
pub mod material;
pub mod ray;
pub mod rng;
pub mod vec3;
