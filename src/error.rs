use vstd::prelude::*;

verus! {

/// The ways a geometric operation can fail.
#[derive(Clone, Copy, Debug, PartialEq, Eq, Structural)]
pub enum GeometryError {
    /// A polygon was given fewer than three points or segments.
    InvalidPolygon,
    /// A zero-length vector was asked for its direction.
    DegenerateVector,
    /// A branch that the classification rules exclude was reached.
    InvariantViolation,
}

} // verus!
