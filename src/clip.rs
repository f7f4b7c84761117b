use vstd::prelude::*;

use crate::error::GeometryError;
use crate::relation::{
    relation_of_ends, segment_relation_of, straddles, PointLineRelation, SegmentLineRelation,
};

verus! {

/// What the clipper is told about one boundary edge: its endpoints, on which
/// side of the line each lies, and the point where it crosses the line, if the
/// intersection routine found exactly one.
#[derive(Clone, Copy, Debug)]
pub struct EdgeSides<P> {
    pub start: P,
    pub end: P,
    pub start_side: PointLineRelation,
    pub end_side: PointLineRelation,
    pub crossing: Option<P>,
}

/// One edge of a clipped boundary.
#[derive(Clone, Copy, Debug, PartialEq, Eq)]
pub enum ClipEdge<P> {
    /// The input edge with this index, unchanged.
    Kept(usize),
    /// A new edge from the first point to the second.
    Cut(P, P),
}

/// Which end of a new cap edge a freshly found cut point becomes.
#[derive(Clone, Copy, Debug, PartialEq, Eq, Structural)]
pub enum TouchOrder {
    /// The new point starts the cap edge; the pending one ends it.
    First,
    /// The pending point starts the cap edge; the new one ends it.
    Second,
}

/// An edge whose endpoints straddle the line comes with its crossing point.
pub open spec fn crossing_known<P>(e: EdgeSides<P>) -> bool {
    straddles(e.start_side, e.end_side) ==> e.crossing is Some
}

/// Every edge whose endpoints straddle the line comes with its crossing point.
pub open spec fn crossings_known<P>(edges: Seq<EdgeSides<P>>) -> bool {
    forall|i: int| 0 <= i < edges.len() ==> #[trigger] crossing_known(edges[i])
}

/// Pairs a cut point with the pending one: the first of a pair waits, the
/// second closes a cap edge oriented by `order`.
pub open spec fn pair_spec<P>(
    out: Seq<ClipEdge<P>>,
    pending: Option<P>,
    p: P,
    order: TouchOrder,
) -> (Seq<ClipEdge<P>>, Option<P>) {
    match pending {
        None => (out, Some(p)),
        Some(p0) => (
            out.push(
                match order {
                    TouchOrder::First => ClipEdge::Cut(p, p0),
                    TouchOrder::Second => ClipEdge::Cut(p0, p),
                },
            ),
            None,
        ),
    }
}

/// The effect of the edge with index `i` on the output and the pending point,
/// when the part of the plane left of the line is kept.
pub open spec fn step_spec<P>(
    st: (Seq<ClipEdge<P>>, Option<P>),
    i: usize,
    e: EdgeSides<P>,
) -> (Seq<ClipEdge<P>>, Option<P>) {
    let out = st.0;
    let pending = st.1;
    if straddles(e.start_side, e.end_side) {
        let q = e.crossing->0;
        if e.start_side == PointLineRelation::Left {
            pair_spec(out.push(ClipEdge::Cut(e.start, q)), pending, q, TouchOrder::First)
        } else {
            let paired = pair_spec(out, pending, q, TouchOrder::Second);
            (paired.0.push(ClipEdge::Cut(q, e.end)), paired.1)
        }
    } else {
        match relation_of_ends::<P>(e.start_side, e.end_side) {
            SegmentLineRelation::Left => (out.push(ClipEdge::Kept(i)), pending),
            SegmentLineRelation::LeftTouch => if e.start_side == PointLineRelation::OnLine {
                let paired = pair_spec(out, pending, e.start, TouchOrder::Second);
                (paired.0.push(ClipEdge::Kept(i)), paired.1)
            } else {
                pair_spec(out.push(ClipEdge::Kept(i)), pending, e.end, TouchOrder::First)
            },
            _ => st,
        }
    }
}

/// The output and the pending point after walking `edges` in order.
pub open spec fn walk_spec<P>(edges: Seq<EdgeSides<P>>) -> (Seq<ClipEdge<P>>, Option<P>)
    decreases edges.len(),
{
    if edges.len() == 0 {
        (Seq::empty(), None)
    } else {
        step_spec(
            walk_spec(edges.drop_last()),
            (edges.len() - 1) as usize,
            edges.last(),
        )
    }
}

/// The boundary that clipping `edges` to the left of the line produces.
pub open spec fn clipped_spec<P>(edges: Seq<EdgeSides<P>>) -> Seq<ClipEdge<P>> {
    walk_spec(edges).0
}

fn pair_cut<P: Copy>(out: &mut Vec<ClipEdge<P>>, pending: &mut Option<P>, p: P, order: TouchOrder)
    ensures
        (final(out)@, *final(pending)) == pair_spec(old(out)@, *old(pending), p, order),
{
    match *pending {
        None => {
            *pending = Some(p);
        },
        Some(p0) => {
            match order {
                TouchOrder::First => out.push(ClipEdge::Cut(p, p0)),
                TouchOrder::Second => out.push(ClipEdge::Cut(p0, p)),
            }
            *pending = None;
        },
    }
}

/// Rebuilds a closed boundary restricted to the left of a line. Edges wholly
/// left are kept, edges right of or on the line are dropped, crossing edges
/// are trimmed at the crossing, and each pair of cut points found along the
/// walk is joined by a new cap edge.
///
/// Returns `Ok(None)` when nothing is left, and an invariant violation when a
/// straddling edge comes without its crossing point or when one or two edges
/// are left, which no closed boundary produces.
pub fn clip_boundary<P: Copy>(edges: &Vec<EdgeSides<P>>) -> (r: Result<
    Option<Vec<ClipEdge<P>>>,
    GeometryError,
>)
    ensures
        !crossings_known(edges@) ==> r == Err::<Option<Vec<ClipEdge<P>>>, _>(
            GeometryError::InvariantViolation,
        ),
        crossings_known(edges@) ==> {
            let out = clipped_spec(edges@);
            &&& out.len() == 0 ==> r == Ok::<Option<Vec<ClipEdge<P>>>, GeometryError>(None)
            &&& 0 < out.len() < 3 ==> r == Err::<Option<Vec<ClipEdge<P>>>, _>(
                GeometryError::InvariantViolation,
            )
            &&& out.len() >= 3 ==> (r matches Ok(Some(v)) && v@ == out)
        },
{
    let mut out: Vec<ClipEdge<P>> = Vec::new();
    let mut pending: Option<P> = None;
    let n = edges.len();
    let mut i: usize = 0;
    while i < n
        invariant
            n == edges@.len(),
            i <= n,
            (out@, pending) == walk_spec(edges@.take(i as int)),
            crossings_known(edges@.take(i as int)),
        decreases n - i,
    {
        let e = edges[i];
        assert(edges@.take(i + 1).drop_last() == edges@.take(i as int));
        assert(edges@.take(i + 1).last() == e);
        let rel = segment_relation_of(e.start_side, e.end_side, e.crossing);
        match rel {
            Err(err) => {
                assert(!crossing_known(edges@[i as int]));
                return Err(err);
            },
            Ok(SegmentLineRelation::Left) => {
                out.push(ClipEdge::Kept(i));
            },
            Ok(SegmentLineRelation::LeftTouch) => {
                if e.start_side == PointLineRelation::OnLine {
                    pair_cut(&mut out, &mut pending, e.start, TouchOrder::Second);
                    out.push(ClipEdge::Kept(i));
                } else {
                    out.push(ClipEdge::Kept(i));
                    pair_cut(&mut out, &mut pending, e.end, TouchOrder::First);
                }
            },
            Ok(SegmentLineRelation::Intersects(q)) => {
                match e.start_side {
                    PointLineRelation::Left => {
                        out.push(ClipEdge::Cut(e.start, q));
                        pair_cut(&mut out, &mut pending, q, TouchOrder::First);
                    },
                    PointLineRelation::Right => {
                        pair_cut(&mut out, &mut pending, q, TouchOrder::Second);
                        out.push(ClipEdge::Cut(q, e.end));
                    },
                    PointLineRelation::OnLine => {
                        return Err(GeometryError::InvariantViolation);
                    },
                }
            },
            Ok(_) => {},
        }
        assert(crossings_known(edges@.take(i + 1))) by {
            assert forall|j: int| 0 <= j < i + 1 implies #[trigger] crossing_known(
                edges@.take(i + 1)[j],
            ) by {
                if j < i {
                    assert(edges@.take(i + 1)[j] == edges@.take(i as int)[j]);
                }
            }
        }
        i = i + 1;
    }
    assert(edges@.take(n as int) == edges@);
    if out.len() == 0 {
        Ok(None)
    } else if out.len() < 3 {
        Err(GeometryError::InvariantViolation)
    } else {
        Ok(Some(out))
    }
}

/// The boundary with every edge of `edges` kept, in order.
pub open spec fn all_kept<P>(n: nat) -> Seq<ClipEdge<P>> {
    Seq::new(n, |i: int| ClipEdge::Kept(i as usize))
}

/// No endpoint of any edge lies strictly left of the line.
pub open spec fn none_left<P>(edges: Seq<EdgeSides<P>>) -> bool {
    forall|i: int|
        0 <= i < edges.len() ==> #[trigger] edges[i].start_side != PointLineRelation::Left
            && edges[i].end_side != PointLineRelation::Left
}

/// Every endpoint of every edge lies strictly left of the line.
pub open spec fn all_left<P>(edges: Seq<EdgeSides<P>>) -> bool {
    forall|i: int|
        0 <= i < edges.len() ==> #[trigger] edges[i].start_side == PointLineRelation::Left
            && edges[i].end_side == PointLineRelation::Left
}

/// A boundary with no point strictly left of the line clips to nothing: in
/// particular a boundary already clipped to the other side of the same line,
/// whose points all lie right of it or on it.
pub proof fn lemma_clip_none_left_is_empty<P>(edges: Seq<EdgeSides<P>>)
    requires
        none_left(edges),
    ensures
        clipped_spec(edges).len() == 0,
        walk_spec(edges).1 is None,
    decreases edges.len(),
{
    if edges.len() > 0 {
        let init = edges.drop_last();
        assert(none_left(init)) by {
            assert forall|i: int| 0 <= i < init.len() implies #[trigger] init[i].start_side
                != PointLineRelation::Left && init[i].end_side != PointLineRelation::Left by {
                assert(init[i] == edges[i]);
            }
        }
        lemma_clip_none_left_is_empty(init);
        assert(edges.last() == edges[edges.len() - 1]);
    }
}

/// A boundary lying wholly left of the line is kept edge for edge, in order,
/// with no cap edge added and no cut point left pending.
pub proof fn lemma_clip_all_left_keeps_all<P>(edges: Seq<EdgeSides<P>>)
    requires
        all_left(edges),
    ensures
        clipped_spec(edges) == all_kept::<P>(edges.len()),
        walk_spec(edges).1 is None,
    decreases edges.len(),
{
    if edges.len() > 0 {
        let init = edges.drop_last();
        assert(all_left(init)) by {
            assert forall|i: int| 0 <= i < init.len() implies #[trigger] init[i].start_side
                == PointLineRelation::Left && init[i].end_side == PointLineRelation::Left by {
                assert(init[i] == edges[i]);
            }
        }
        lemma_clip_all_left_keeps_all(init);
        assert(edges.last() == edges[edges.len() - 1]);
        assert(clipped_spec(edges) =~= all_kept::<P>(edges.len()));
    }
}

/// The endpoints of an output edge, read from the input edges it refers to.
pub open spec fn edge_points<P>(edges: Seq<EdgeSides<P>>, c: ClipEdge<P>) -> (P, P) {
    match c {
        ClipEdge::Kept(i) => (edges[i as int].start, edges[i as int].end),
        ClipEdge::Cut(a, b) => (a, b),
    }
}

/// An output boundary as the endpoints of its edges.
pub open spec fn resolved<P>(edges: Seq<EdgeSides<P>>, out: Seq<ClipEdge<P>>) -> Seq<(P, P)> {
    out.map_values(|c: ClipEdge<P>| edge_points(edges, c))
}

/// The edges with these endpoints, each endpoint sided by `side`.
pub open spec fn sided<P>(side: spec_fn(P) -> PointLineRelation, pts: Seq<(P, P)>) -> Seq<
    EdgeSides<P>,
> {
    pts.map_values(
        |q: (P, P)|
            EdgeSides {
                start: q.0,
                end: q.1,
                start_side: side(q.0),
                end_side: side(q.1),
                crossing: None,
            },
    )
}

/// Every endpoint of `edges` is sided by `side`, and every straddling edge
/// comes with a crossing point that `side` puts on the line.
pub open spec fn sided_by<P>(side: spec_fn(P) -> PointLineRelation, edges: Seq<EdgeSides<P>>) -> bool {
    forall|i: int|
        0 <= i < edges.len() ==> {
            &&& #[trigger] edges[i].start_side == side(edges[i].start)
            &&& edges[i].end_side == side(edges[i].end)
            &&& straddles(edges[i].start_side, edges[i].end_side) ==> (edges[i].crossing is Some
                && side(edges[i].crossing->0) == PointLineRelation::OnLine)
        }
}

spec fn walk_on<P>(st: (Seq<ClipEdge<P>>, Option<P>), edges: Seq<EdgeSides<P>>, base: int) -> (
    Seq<ClipEdge<P>>,
    Option<P>,
)
    decreases edges.len(),
{
    if edges.len() == 0 {
        st
    } else {
        step_spec(
            walk_on(st, edges.drop_last(), base),
            (base + edges.len() - 1) as usize,
            edges.last(),
        )
    }
}

proof fn lemma_walk_concat<P>(a: Seq<EdgeSides<P>>, b: Seq<EdgeSides<P>>)
    ensures
        walk_spec(a + b) == walk_on(walk_spec(a), b, a.len() as int),
    decreases b.len(),
{
    if b.len() == 0 {
        assert(a + b =~= a);
    } else {
        lemma_walk_concat(a, b.drop_last());
        assert((a + b).drop_last() =~= a + b.drop_last());
        assert((a + b).last() == b.last());
    }
}

proof fn lemma_walk_on_short<P>(
    st: (Seq<ClipEdge<P>>, Option<P>),
    d: Seq<EdgeSides<P>>,
    base: int,
)
    requires
        d.len() <= 2,
    ensures
        d.len() == 0 ==> walk_on(st, d, base) == st,
        d.len() == 1 ==> walk_on(st, d, base) == step_spec(st, base as usize, d[0]),
        d.len() == 2 ==> walk_on(st, d, base) == step_spec(
            step_spec(st, base as usize, d[0]),
            (base + 1) as usize,
            d[1],
        ),
{
    if d.len() == 1 {
        assert(d.drop_last().len() == 0);
        assert(walk_on(st, d.drop_last(), base) == st);
        assert(d.last() == d[0]);
        assert(walk_on(st, d, base) == step_spec(st, (base + 1 - 1) as usize, d.last()));
    } else if d.len() == 2 {
        let dd = d.drop_last();
        assert(dd.len() == 1);
        assert(dd.drop_last().len() == 0);
        assert(walk_on(st, dd.drop_last(), base) == st);
        assert(dd.last() == d[0]);
        assert(d.last() == d[1]);
        assert(walk_on(st, dd, base) == step_spec(st, (base + 1 - 1) as usize, dd.last()));
        assert(walk_on(st, d, base) == step_spec(walk_on(st, dd, base), (base + 2 - 1) as usize, d.last()));
    }
}

#[verifier::rlimit(60)]
proof fn lemma_reclip<P>(side: spec_fn(P) -> PointLineRelation, edges: Seq<EdgeSides<P>>)
    requires
        sided_by(side, edges),
        edges.len() <= usize::MAX / 2,
    ensures
        ({
            let once = clipped_spec(edges);
            let r = resolved(edges, once);
            let again = sided(side, r);
            let w2 = walk_spec(again);
            &&& resolved(again, w2.0) == r
            &&& w2.1 == walk_spec(edges).1
            &&& (walk_spec(edges).1 matches Some(p) ==> side(p) == PointLineRelation::OnLine)
            &&& once.len() <= 2 * edges.len()
            &&& forall|k: int|
                0 <= k < once.len() ==> (#[trigger] once[k] is Kept ==> (once[k]->Kept_0 as int)
                    < edges.len())
            &&& forall|k: int|
                0 <= k < w2.0.len() ==> (#[trigger] w2.0[k] is Kept ==> (w2.0[k]->Kept_0 as int)
                    < again.len())
        }),
    decreases edges.len(),
{
    if edges.len() > 0 {
        let init = edges.drop_last();
        let e = edges.last();
        let i = (edges.len() - 1) as usize;
        assert(sided_by(side, init)) by {
            assert forall|j: int| 0 <= j < init.len() implies #[trigger] init[j].start_side == side(
                init[j].start,
            ) by {
                assert(init[j] == edges[j]);
            }
            assert forall|j: int| 0 <= j < init.len() implies init[j].end_side == side(
                init[j].end,
            ) && (straddles(init[j].start_side, init[j].end_side) ==> (init[j].crossing is Some
                && side(init[j].crossing->0) == PointLineRelation::OnLine)) by {
                assert(init[j] == edges[j]);
                assert(edges[j].start_side == side(edges[j].start));
            }
        }
        assert(e == edges[edges.len() - 1]);
        assert(e.start_side == side(e.start));
        lemma_reclip(side, init);
        let once_i = clipped_spec(init);
        let pend = walk_spec(init).1;
        let r_i = resolved(init, once_i);
        let again_i = sided(side, r_i);
        let w2_i = walk_spec(again_i);
        let once = clipped_spec(edges);
        let chunk = once.subrange(once_i.len() as int, once.len() as int);
        assert(once == once_i + chunk);
        assert(resolved(edges, once_i) =~= r_i);
        let rc = resolved(edges, chunk);
        let r = resolved(edges, once);
        assert(r =~= r_i + rc);
        let again = sided(side, r);
        let d = sided(side, rc);
        assert(again =~= again_i + d);
        lemma_walk_concat(again_i, d);
        assert(d.len() <= 2);
        lemma_walk_on_short(w2_i, d, again_i.len() as int);
        let w2 = walk_spec(again);
        let chunk2 = w2.0.subrange(w2_i.0.len() as int, w2.0.len() as int);
        let base = again_i.len() as int;
        let (s, t) = (e.start, e.end);
        let q = e.crossing->0;
        assert(again[base] == d[0] || d.len() == 0);
        assert(d.len() == 2 ==> again[base + 1] == d[1]);
        if straddles(e.start_side, e.end_side) {
            if e.start_side == PointLineRelation::Left {
                match pend {
                    None => {
                        assert(chunk =~= seq![ClipEdge::Cut(s, q)]);
                        assert(rc =~= seq![(s, q)]);
                        assert(chunk2 =~= seq![ClipEdge::<P>::Kept(base as usize)]);
                    },
                    Some(p0) => {
                        assert(chunk =~= seq![ClipEdge::Cut(s, q), ClipEdge::Cut(q, p0)]);
                        assert(rc =~= seq![(s, q), (q, p0)]);
                        assert(chunk2 =~= seq![ClipEdge::Kept(base as usize), ClipEdge::Cut(q, p0)]);
                    },
                }
            } else {
                match pend {
                    None => {
                        assert(chunk =~= seq![ClipEdge::Cut(q, t)]);
                        assert(rc =~= seq![(q, t)]);
                        assert(chunk2 =~= seq![ClipEdge::<P>::Kept(base as usize)]);
                    },
                    Some(p0) => {
                        assert(chunk =~= seq![ClipEdge::Cut(p0, q), ClipEdge::Cut(q, t)]);
                        assert(rc =~= seq![(p0, q), (q, t)]);
                        assert(chunk2 =~= seq![ClipEdge::Cut(p0, q), ClipEdge::Kept((base + 1) as usize)]);
                    },
                }
            }
        } else if e.start_side == PointLineRelation::Left && e.end_side == PointLineRelation::Left {
            assert(chunk =~= seq![ClipEdge::<P>::Kept(i)]);
            assert(rc =~= seq![(s, t)]);
            assert(chunk2 =~= seq![ClipEdge::<P>::Kept(base as usize)]);
        } else if e.start_side == PointLineRelation::OnLine && e.end_side == PointLineRelation::Left {
            match pend {
                None => {
                    assert(chunk =~= seq![ClipEdge::<P>::Kept(i)]);
                    assert(rc =~= seq![(s, t)]);
                    assert(chunk2 =~= seq![ClipEdge::<P>::Kept(base as usize)]);
                },
                Some(p0) => {
                    assert(chunk =~= seq![ClipEdge::Cut(p0, s), ClipEdge::Kept(i)]);
                    assert(rc =~= seq![(p0, s), (s, t)]);
                    assert(chunk2 =~= seq![ClipEdge::Cut(p0, s), ClipEdge::Kept((base + 1) as usize)]);
                },
            }
        } else if e.start_side == PointLineRelation::Left && e.end_side == PointLineRelation::OnLine {
            match pend {
                None => {
                    assert(chunk =~= seq![ClipEdge::<P>::Kept(i)]);
                    assert(rc =~= seq![(s, t)]);
                    assert(chunk2 =~= seq![ClipEdge::<P>::Kept(base as usize)]);
                },
                Some(p0) => {
                    assert(chunk =~= seq![ClipEdge::Kept(i), ClipEdge::Cut(t, p0)]);
                    assert(rc =~= seq![(s, t), (t, p0)]);
                    assert(chunk2 =~= seq![ClipEdge::Kept(base as usize), ClipEdge::Cut(t, p0)]);
                },
            }
        } else {
            assert(chunk =~= Seq::<ClipEdge<P>>::empty());
            assert(chunk2 =~= Seq::<ClipEdge<P>>::empty());
        }
        assert(w2.0 == w2_i.0 + chunk2);
        assert(resolved(again, w2_i.0) =~= resolved(again_i, w2_i.0));
        assert(resolved(again, chunk2) =~= rc);
        assert(resolved(again, w2.0) =~= resolved(again, w2_i.0) + resolved(again, chunk2));
    }
}

/// Clipping is idempotent. Side the boundary that a clip produced against the
/// same line again, each point on the side it had before and each crossing
/// point on the line, and clip it once more: the result has the same edges,
/// endpoint for endpoint, in the same order.
pub proof fn lemma_clip_twice_is_clip_once<P>(
    side: spec_fn(P) -> PointLineRelation,
    edges: Seq<EdgeSides<P>>,
)
    requires
        sided_by(side, edges),
        edges.len() <= usize::MAX / 2,
    ensures
        ({
            let once = resolved(edges, clipped_spec(edges));
            let again = sided(side, once);
            resolved(again, clipped_spec(again)) == once
        }),
{
    lemma_reclip(side, edges);
}

/// The side of a point relative to the same line with its orientation
/// reversed.
pub open spec fn opposite(a: PointLineRelation) -> PointLineRelation {
    match a {
        PointLineRelation::Left => PointLineRelation::Right,
        PointLineRelation::OnLine => PointLineRelation::OnLine,
        PointLineRelation::Right => PointLineRelation::Left,
    }
}

proof fn lemma_clipped_not_right<P>(side: spec_fn(P) -> PointLineRelation, edges: Seq<EdgeSides<P>>)
    requires
        sided_by(side, edges),
        edges.len() <= usize::MAX,
    ensures
        ({
            let r = resolved(edges, clipped_spec(edges));
            &&& forall|k: int|
                0 <= k < r.len() ==> side(#[trigger] r[k].0) != PointLineRelation::Right && side(
                    r[k].1,
                ) != PointLineRelation::Right
            &&& (walk_spec(edges).1 matches Some(p) ==> side(p) == PointLineRelation::OnLine)
            &&& forall|k: int|
                0 <= k < clipped_spec(edges).len() ==> (#[trigger] clipped_spec(edges)[k] is Kept
                    ==> (clipped_spec(edges)[k]->Kept_0 as int) < edges.len())
        }),
    decreases edges.len(),
{
    if edges.len() > 0 {
        let init = edges.drop_last();
        let e = edges.last();
        let i = (edges.len() - 1) as usize;
        assert(sided_by(side, init)) by {
            assert forall|j: int| 0 <= j < init.len() implies #[trigger] init[j].start_side == side(
                init[j].start,
            ) by {
                assert(init[j] == edges[j]);
            }
            assert forall|j: int| 0 <= j < init.len() implies init[j].end_side == side(
                init[j].end,
            ) && (straddles(init[j].start_side, init[j].end_side) ==> (init[j].crossing is Some
                && side(init[j].crossing->0) == PointLineRelation::OnLine)) by {
                assert(init[j] == edges[j]);
                assert(edges[j].start_side == side(edges[j].start));
            }
        }
        assert(e == edges[edges.len() - 1]);
        assert(e.start_side == side(e.start));
        lemma_clipped_not_right(side, init);
        let once_i = clipped_spec(init);
        let pend = walk_spec(init).1;
        let once = clipped_spec(edges);
        let chunk = once.subrange(once_i.len() as int, once.len() as int);
        assert(once == once_i + chunk);
        let r_i = resolved(init, once_i);
        assert(resolved(edges, once_i) =~= r_i);
        let rc = resolved(edges, chunk);
        assert(resolved(edges, once) =~= r_i + rc);
        let (s, t) = (e.start, e.end);
        let q = e.crossing->0;
        if straddles(e.start_side, e.end_side) {
            if e.start_side == PointLineRelation::Left {
                match pend {
                    None => {
                        assert(chunk =~= seq![ClipEdge::Cut(s, q)]);
                        assert(rc =~= seq![(s, q)]);
                    },
                    Some(p0) => {
                        assert(chunk =~= seq![ClipEdge::Cut(s, q), ClipEdge::Cut(q, p0)]);
                        assert(rc =~= seq![(s, q), (q, p0)]);
                    },
                }
            } else {
                match pend {
                    None => {
                        assert(chunk =~= seq![ClipEdge::Cut(q, t)]);
                        assert(rc =~= seq![(q, t)]);
                    },
                    Some(p0) => {
                        assert(chunk =~= seq![ClipEdge::Cut(p0, q), ClipEdge::Cut(q, t)]);
                        assert(rc =~= seq![(p0, q), (q, t)]);
                    },
                }
            }
        } else if e.start_side == PointLineRelation::OnLine && e.end_side == PointLineRelation::Left {
            match pend {
                None => {
                    assert(chunk =~= seq![ClipEdge::<P>::Kept(i)]);
                    assert(rc =~= seq![(s, t)]);
                },
                Some(p0) => {
                    assert(chunk =~= seq![ClipEdge::Cut(p0, s), ClipEdge::Kept(i)]);
                    assert(rc =~= seq![(p0, s), (s, t)]);
                },
            }
        } else if e.start_side == PointLineRelation::Left && e.end_side == PointLineRelation::OnLine {
            match pend {
                None => {
                    assert(chunk =~= seq![ClipEdge::<P>::Kept(i)]);
                    assert(rc =~= seq![(s, t)]);
                },
                Some(p0) => {
                    assert(chunk =~= seq![ClipEdge::Kept(i), ClipEdge::Cut(t, p0)]);
                    assert(rc =~= seq![(s, t), (t, p0)]);
                },
            }
        } else if e.start_side == PointLineRelation::Left && e.end_side == PointLineRelation::Left {
            assert(chunk =~= seq![ClipEdge::<P>::Kept(i)]);
            assert(rc =~= seq![(s, t)]);
        } else {
            assert(chunk =~= Seq::<ClipEdge<P>>::empty());
            assert(rc =~= Seq::<(P, P)>::empty());
        }
    }
}

/// No region lies strictly on both sides of a line. Clip a boundary to the
/// left of a line, side what is left against the same line with its
/// orientation reversed, and clip again: nothing is left.
pub proof fn lemma_clip_both_sides_is_empty<P>(
    side: spec_fn(P) -> PointLineRelation,
    edges: Seq<EdgeSides<P>>,
)
    requires
        sided_by(side, edges),
        edges.len() <= usize::MAX,
    ensures
        ({
            let once = resolved(edges, clipped_spec(edges));
            let other = sided(|p: P| opposite(side(p)), once);
            clipped_spec(other).len() == 0
        }),
{
    lemma_clipped_not_right(side, edges);
    let once = resolved(edges, clipped_spec(edges));
    let other = sided(|p: P| opposite(side(p)), once);
    assert(none_left(other)) by {
        assert forall|i: int| 0 <= i < other.len() implies #[trigger] other[i].start_side
            != PointLineRelation::Left && other[i].end_side != PointLineRelation::Left by {
            assert(side(once[i].0) != PointLineRelation::Right);
        }
    }
    lemma_clip_none_left_is_empty(other);
}

} // verus!
