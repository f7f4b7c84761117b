//! A planar geometry kernel: the decisions behind point and segment
//! classification against an oriented line, half-plane clipping of a polygon
//! boundary, and the cleanup of short edges.
//!
//! Coordinates never enter this crate: every routine is generic over the point
//! type, and the numeric predicates (which side of a line a point lies on,
//! where a segment crosses it, how long an edge is) are handed in as plain
//! values. What is proved here is what the kernel does with those answers.
pub mod error;
pub mod intersect;
pub mod relation;
pub mod clip;
pub mod polygon;
