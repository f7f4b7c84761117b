use geom2d::error::GeometryError;
use geom2d::relation::{segment_relation_of, straddles_line, PointLineRelation, SegmentLineRelation};

use PointLineRelation::{Left, OnLine, Right};

type Rel = SegmentLineRelation<(i64, i64)>;

#[test]
fn same_side_endpoints_give_that_side() {
    assert_eq!(segment_relation_of::<(i64, i64)>(Left, Left, None), Ok(Rel::Left));
    assert_eq!(segment_relation_of::<(i64, i64)>(Right, Right, None), Ok(Rel::Right));
    assert_eq!(segment_relation_of::<(i64, i64)>(OnLine, OnLine, None), Ok(Rel::OnLine));
}

#[test]
fn one_endpoint_on_line_is_a_touch() {
    assert_eq!(segment_relation_of::<(i64, i64)>(OnLine, Left, None), Ok(Rel::LeftTouch));
    assert_eq!(segment_relation_of::<(i64, i64)>(Left, OnLine, None), Ok(Rel::LeftTouch));
    assert_eq!(segment_relation_of::<(i64, i64)>(OnLine, Right, None), Ok(Rel::RightTouch));
    assert_eq!(segment_relation_of::<(i64, i64)>(Right, OnLine, None), Ok(Rel::RightTouch));
}

#[test]
fn crossing_point_ignored_unless_straddling() {
    assert_eq!(segment_relation_of(Left, Left, Some((3, 4))), Ok(Rel::Left));
    assert_eq!(segment_relation_of(OnLine, Right, Some((3, 4))), Ok(Rel::RightTouch));
}

#[test]
fn straddling_segment_carries_its_crossing() {
    assert_eq!(segment_relation_of(Left, Right, Some((3, 4))), Ok(Rel::Intersects((3, 4))));
    assert_eq!(segment_relation_of(Right, Left, Some((-1, 2))), Ok(Rel::Intersects((-1, 2))));
}

#[test]
fn straddling_segment_without_crossing_is_an_invariant_violation() {
    assert_eq!(
        segment_relation_of::<(i64, i64)>(Left, Right, None),
        Err(GeometryError::InvariantViolation)
    );
}

#[test]
fn straddling_needs_strictly_opposite_sides() {
    assert!(straddles_line(Left, Right));
    assert!(straddles_line(Right, Left));
    assert!(!straddles_line(Left, OnLine));
    assert!(!straddles_line(OnLine, Right));
    assert!(!straddles_line(Left, Left));
    assert!(!straddles_line(OnLine, OnLine));
}
