use geom2d::intersect::{collinear_overlap, hit_at, CollinearOverlap, Endpoint, SegmentHit, SpanPosition};

use CollinearOverlap::{Disjoint, Span, Touch};
use Endpoint::{OtherEnd, OtherStart, SelfEnd, SelfStart};
use SpanPosition::{AtEnd, AtStart, After, Before, Inside};

#[test]
fn parameter_near_an_end_snaps_to_that_endpoint() {
    assert_eq!(hit_at(AtStart), SegmentHit::Start);
    assert_eq!(hit_at(AtEnd), SegmentHit::End);
}

#[test]
fn parameter_outside_the_band_misses() {
    assert_eq!(hit_at(Before), SegmentHit::Miss);
    assert_eq!(hit_at(After), SegmentHit::Miss);
    assert_eq!(hit_at(Inside), SegmentHit::Interior);
}

#[test]
fn segment_against_itself_overlaps_wholly() {
    assert_eq!(collinear_overlap(AtStart, AtEnd), Span(SelfStart, SelfEnd));
}

#[test]
fn other_covering_this_one_gives_this_one() {
    assert_eq!(collinear_overlap(Before, After), Span(SelfStart, SelfEnd));
    assert_eq!(collinear_overlap(After, Before), Span(SelfStart, SelfEnd));
}

#[test]
fn other_inside_gives_the_other() {
    assert_eq!(collinear_overlap(Inside, Inside), Span(OtherStart, OtherEnd));
}

#[test]
fn overlap_starting_before_this_one() {
    assert_eq!(collinear_overlap(Before, Inside), Span(SelfStart, OtherEnd));
    assert_eq!(collinear_overlap(Inside, Before), Span(SelfStart, OtherStart));
    assert_eq!(collinear_overlap(AtStart, Inside), Span(SelfStart, OtherEnd));
}

#[test]
fn overlap_ending_after_this_one() {
    assert_eq!(collinear_overlap(Inside, After), Span(OtherStart, SelfEnd));
    assert_eq!(collinear_overlap(After, Inside), Span(OtherEnd, SelfEnd));
    assert_eq!(collinear_overlap(Inside, AtEnd), Span(OtherStart, SelfEnd));
}

#[test]
fn overlap_reduced_to_one_endpoint_is_a_touch() {
    assert_eq!(collinear_overlap(Before, AtStart), Touch(SelfStart));
    assert_eq!(collinear_overlap(AtStart, AtStart), Touch(SelfStart));
    assert_eq!(collinear_overlap(AtEnd, After), Touch(SelfEnd));
    assert_eq!(collinear_overlap(After, AtEnd), Touch(SelfEnd));
}

#[test]
fn collinear_segments_apart_are_disjoint() {
    assert_eq!(collinear_overlap(Before, Before), Disjoint);
    assert_eq!(collinear_overlap(After, After), Disjoint);
}
