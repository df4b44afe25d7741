//! The decision logic of a Whitted-style ray tracer: ordering intersections
//! along a ray, choosing the hit, tracking the transparent media a ray is
//! inside, bounding the recursion of reflected and refracted rays, filling a
//! frame from a per-pixel shader, and rearranging the entries of transform
//! matrices.
pub mod distance;
pub mod frame;
pub mod grid;
pub mod intersection;
pub mod shading;
