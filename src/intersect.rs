use vstd::prelude::*;

verus! {

/// Where a scalar position falls relative to a span `[s, t]`, within the
/// shared tolerance: strictly before it, at its start, inside it, at its end,
/// or strictly after it.
#[derive(Clone, Copy, Debug, PartialEq, Eq, Structural)]
pub enum SpanPosition {
    Before,
    AtStart,
    Inside,
    AtEnd,
    After,
}

/// The order of the bands along the span.
pub open spec fn rank(p: SpanPosition) -> int {
    match p {
        SpanPosition::Before => 0,
        SpanPosition::AtStart => 1,
        SpanPosition::Inside => 2,
        SpanPosition::AtEnd => 3,
        SpanPosition::After => 4,
    }
}

fn rank_of(p: SpanPosition) -> (r: u8)
    ensures
        r as int == rank(p),
{
    match p {
        SpanPosition::Before => 0,
        SpanPosition::AtStart => 1,
        SpanPosition::Inside => 2,
        SpanPosition::AtEnd => 3,
        SpanPosition::After => 4,
    }
}

/// Where a segment is met, given where the meeting parameter falls on `[0, 1]`.
#[derive(Clone, Copy, Debug, PartialEq, Eq, Structural)]
pub enum SegmentHit {
    /// Not at all.
    Miss,
    /// At its start point, exactly.
    Start,
    /// At its end point, exactly.
    End,
    /// Strictly between its endpoints, at a point to be computed.
    Interior,
}

/// A meeting parameter within tolerance of either end of the segment snaps to
/// that endpoint, one outside the tolerance band misses, and only one strictly
/// inside asks for a computed point.
pub fn hit_at(pos: SpanPosition) -> (r: SegmentHit)
    ensures
        (r == SegmentHit::Miss) == (pos == SpanPosition::Before || pos == SpanPosition::After),
        (r == SegmentHit::Start) == (pos == SpanPosition::AtStart),
        (r == SegmentHit::End) == (pos == SpanPosition::AtEnd),
        (r == SegmentHit::Interior) == (pos == SpanPosition::Inside),
{
    match pos {
        SpanPosition::Before | SpanPosition::After => SegmentHit::Miss,
        SpanPosition::AtStart => SegmentHit::Start,
        SpanPosition::AtEnd => SegmentHit::End,
        SpanPosition::Inside => SegmentHit::Interior,
    }
}

/// An endpoint of one of two collinear segments.
#[derive(Clone, Copy, Debug, PartialEq, Eq, Structural)]
pub enum Endpoint {
    SelfStart,
    SelfEnd,
    OtherStart,
    OtherEnd,
}

/// The common part of two collinear segments.
#[derive(Clone, Copy, Debug, PartialEq, Eq, Structural)]
pub enum CollinearOverlap {
    /// They have no point in common.
    Disjoint,
    /// They meet in a single location, an endpoint of the first segment.
    Touch(Endpoint),
    /// They share the segment between these two endpoints.
    Span(Endpoint, Endpoint),
}

/// Where the common part begins: at the first segment's start when the
/// other segment reaches back to it, else at the other segment's earlier
/// endpoint (its start when both lie inside).
pub open spec fn overlap_start(p0: SpanPosition, p1: SpanPosition) -> Endpoint {
    if rank(p0) <= 1 || rank(p1) <= 1 {
        Endpoint::SelfStart
    } else if rank(p1) < rank(p0) {
        Endpoint::OtherEnd
    } else {
        Endpoint::OtherStart
    }
}

/// Where the common part ends: at the first segment's end when the other
/// segment reaches up to it, else at the other segment's later endpoint (its
/// end when both lie inside).
pub open spec fn overlap_end(p0: SpanPosition, p1: SpanPosition) -> Endpoint {
    if rank(p0) >= 3 || rank(p1) >= 3 {
        Endpoint::SelfEnd
    } else if rank(p1) < rank(p0) {
        Endpoint::OtherStart
    } else {
        Endpoint::OtherEnd
    }
}

/// The common part of a segment and a collinear one, given where the other
/// segment's start (`p0`) and end (`p1`) project onto the first segment's span.
pub open spec fn overlap_spec(p0: SpanPosition, p1: SpanPosition) -> CollinearOverlap {
    let lo = if rank(p0) <= rank(p1) {
        rank(p0)
    } else {
        rank(p1)
    };
    let hi = if rank(p0) >= rank(p1) {
        rank(p0)
    } else {
        rank(p1)
    };
    if hi == 0 || lo == 4 {
        CollinearOverlap::Disjoint
    } else if hi == 1 {
        CollinearOverlap::Touch(Endpoint::SelfStart)
    } else if lo == 3 {
        CollinearOverlap::Touch(Endpoint::SelfEnd)
    } else {
        CollinearOverlap::Span(overlap_start(p0, p1), overlap_end(p0, p1))
    }
}

/// Resolves the overlap of two collinear segments from where the second
/// one's endpoints project onto the first one's span: disjoint when both lie
/// strictly on the same side of it, a single touching endpoint when the other
/// segment only reaches one end within tolerance, and otherwise the span from
/// the later of the two starts to the earlier of the two ends.
pub fn collinear_overlap(p0: SpanPosition, p1: SpanPosition) -> (r: CollinearOverlap)
    ensures
        r == overlap_spec(p0, p1),
{
    let (r0, r1) = (rank_of(p0), rank_of(p1));
    let (lo, hi) = if r0 <= r1 {
        (r0, r1)
    } else {
        (r1, r0)
    };
    if hi == 0 || lo == 4 {
        CollinearOverlap::Disjoint
    } else if hi == 1 {
        CollinearOverlap::Touch(Endpoint::SelfStart)
    } else if lo == 3 {
        CollinearOverlap::Touch(Endpoint::SelfEnd)
    } else {
        let start = if lo <= 1 {
            Endpoint::SelfStart
        } else if r1 < r0 {
            Endpoint::OtherEnd
        } else {
            Endpoint::OtherStart
        };
        let end = if hi >= 3 {
            Endpoint::SelfEnd
        } else if r1 < r0 {
            Endpoint::OtherStart
        } else {
            Endpoint::OtherEnd
        };
        CollinearOverlap::Span(start, end)
    }
}

} // verus!
