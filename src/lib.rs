//! A grid ray caster in exact fixed-point arithmetic: a board of cells, a
//! camera, a tracer that walks a ray across grid lines, a field-of-view
//! sampler and the projection of hits onto screen columns.

pub mod geometry;
pub mod board;
pub mod raycast;
pub mod player;
pub mod fov;
pub mod projection;
pub mod transform;
