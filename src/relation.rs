use vstd::prelude::*;

use crate::error::GeometryError;

verus! {

/// Where a point lies with respect to an oriented line.
#[derive(Clone, Copy, Debug, PartialEq, Eq, Structural)]
pub enum PointLineRelation {
    Left,
    OnLine,
    Right,
}

/// Where a segment lies with respect to an oriented line. `Intersects` carries
/// the point at which the segment properly crosses it.
#[derive(Clone, Copy, Debug, PartialEq, Eq)]
pub enum SegmentLineRelation<P> {
    Left,
    /// One endpoint is on the line, the other strictly left.
    LeftTouch,
    /// Both endpoints are on the line.
    OnLine,
    Intersects(P),
    Right,
    /// One endpoint is on the line, the other strictly right.
    RightTouch,
}

/// The two endpoints lie strictly on opposite sides of the line.
pub open spec fn straddles(a: PointLineRelation, b: PointLineRelation) -> bool {
    (a == PointLineRelation::Left && b == PointLineRelation::Right) || (a
        == PointLineRelation::Right && b == PointLineRelation::Left)
}

/// The relation of a segment whose endpoints do not straddle the line.
pub open spec fn relation_of_ends<P>(a: PointLineRelation, b: PointLineRelation) -> SegmentLineRelation<
    P,
> {
    if a == b {
        match a {
            PointLineRelation::Left => SegmentLineRelation::Left,
            PointLineRelation::OnLine => SegmentLineRelation::OnLine,
            PointLineRelation::Right => SegmentLineRelation::Right,
        }
    } else if a == PointLineRelation::Left || b == PointLineRelation::Left {
        SegmentLineRelation::LeftTouch
    } else {
        SegmentLineRelation::RightTouch
    }
}

/// Whether a segment with these endpoint relations needs its crossing point
/// computed to be classified.
pub fn straddles_line(start: PointLineRelation, end: PointLineRelation) -> (r: bool)
    ensures
        r == straddles(start, end),
{
    match (start, end) {
        (PointLineRelation::Left, PointLineRelation::Right) => true,
        (PointLineRelation::Right, PointLineRelation::Left) => true,
        _ => false,
    }
}

/// Combines the relations of a segment's two endpoints into the relation of
/// the segment. `crossing` is the point where the segment meets the line, when
/// the intersection routine found a single one; it is only consulted when the
/// endpoints straddle the line, and then its absence is an invariant
/// violation.
pub fn segment_relation_of<P: Copy>(
    start: PointLineRelation,
    end: PointLineRelation,
    crossing: Option<P>,
) -> (r: Result<SegmentLineRelation<P>, GeometryError>)
    ensures
        !straddles(start, end) ==> r == Ok::<_, GeometryError>(relation_of_ends::<P>(start, end)),
        straddles(start, end) ==> match crossing {
            Some(q) => r == Ok::<_, GeometryError>(SegmentLineRelation::Intersects(q)),
            None => r == Err::<SegmentLineRelation<P>, _>(GeometryError::InvariantViolation),
        },
{
    match (start, end) {
        (PointLineRelation::Left, PointLineRelation::Left) => Ok(SegmentLineRelation::Left),
        (PointLineRelation::OnLine, PointLineRelation::OnLine) => Ok(SegmentLineRelation::OnLine),
        (PointLineRelation::Right, PointLineRelation::Right) => Ok(SegmentLineRelation::Right),
        (PointLineRelation::OnLine, PointLineRelation::Left)
        | (PointLineRelation::Left, PointLineRelation::OnLine) => Ok(SegmentLineRelation::LeftTouch),
        (PointLineRelation::OnLine, PointLineRelation::Right)
        | (PointLineRelation::Right, PointLineRelation::OnLine) => Ok(
            SegmentLineRelation::RightTouch,
        ),
        _ => match crossing {
            Some(q) => Ok(SegmentLineRelation::Intersects(q)),
            None => Err(GeometryError::InvariantViolation),
        },
    }
}

} // verus!
