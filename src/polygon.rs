use vstd::prelude::*;

use vstd::arithmetic::div_mod::{lemma_mod_self_0, lemma_small_mod};

use crate::error::GeometryError;

verus! {

/// A closed boundary made of at least three edges of type `S`.
#[derive(Debug)]
pub struct Polygon<S> {
    segments: Vec<S>,
}

impl<S> View for Polygon<S> {
    type V = Seq<S>;

    closed spec fn view(&self) -> Seq<S> {
        self.segments@
    }
}

impl<S> Polygon<S> {
    #[verifier::type_invariant]
    spec fn at_least_three(&self) -> bool {
        self.segments.len() >= 3
    }

    /// A polygon from its edges in boundary order; fewer than three are
    /// refused.
    pub fn new(segments: Vec<S>) -> (r: Result<Polygon<S>, GeometryError>)
        ensures
            segments@.len() >= 3 ==> (r matches Ok(p) && p@ == segments@),
            segments@.len() < 3 ==> (r matches Err(GeometryError::InvalidPolygon)),
    {
        if segments.len() >= 3 {
            Ok(Polygon { segments })
        } else {
            Err(GeometryError::InvalidPolygon)
        }
    }

    /// The number of edges.
    pub fn len(&self) -> (r: usize)
        ensures
            r == self@.len(),
            r >= 3,
    {
        proof {
            use_type_invariant(self);
        }
        self.segments.len()
    }

    /// The edges in boundary order.
    pub fn segments(&self) -> (r: &Vec<S>)
        ensures
            r@ == self@,
    {
        &self.segments
    }

    /// Takes over the edges of `clipped` when there is one, and reports
    /// whether it did; otherwise the polygon is left as it was.
    pub fn replace_with(&mut self, clipped: Option<Polygon<S>>) -> (r: bool)
        ensures
            r == clipped is Some,
            clipped matches Some(c) ==> final(self)@ == c@,
            clipped is None ==> final(self)@ == old(self)@,
    {
        match clipped {
            Some(c) => {
                *self = c;
                true
            },
            None => false,
        }
    }
}

/// The edge that leaves the point with index `i` of a closed ring of points.
pub open spec fn ring_edge<P>(points: Seq<P>, i: int) -> (P, P) {
    (points[i], points[(i + 1) % (points.len() as int)])
}

/// The edges of the closed boundary through `points`: one from each point to
/// the next, and one from the last back to the first. Fewer than three points
/// are refused.
pub fn closed_ring<P: Copy>(points: &Vec<P>) -> (r: Result<Vec<(P, P)>, GeometryError>)
    ensures
        points@.len() < 3 ==> r == Err::<Vec<(P, P)>, _>(GeometryError::InvalidPolygon),
        points@.len() >= 3 ==> (r matches Ok(v) && v@.len() == points@.len() && forall|i: int|
            0 <= i < points@.len() ==> #[trigger] v@[i] == ring_edge(points@, i)),
{
    let n = points.len();
    if n < 3 {
        return Err(GeometryError::InvalidPolygon);
    }
    let mut edges: Vec<(P, P)> = Vec::new();
    let mut i: usize = 0;
    while i < n
        invariant
            n == points@.len(),
            n >= 3,
            i <= n,
            edges@.len() == i,
            forall|j: int| 0 <= j < i ==> #[trigger] edges@[j] == ring_edge(points@, j),
        decreases n - i,
    {
        let next: usize = if i + 1 == n {
            0
        } else {
            i + 1
        };
        proof {
            if i + 1 == n {
                lemma_mod_self_0(n as int);
            } else {
                lemma_small_mod((i + 1) as nat, n as nat);
            }
        }
        edges.push((points[i], points[next]));
        i = i + 1;
    }
    Ok(edges)
}

/// The indices at which the edges kept by a short-edge merge begin: the
/// first edge always, and every later edge that is not short. A short edge
/// is folded into the kept edge before it, so kept edge `k` stands for the
/// input edges from its start up to the next start.
pub fn merge_starts(short: &Vec<bool>) -> (r: Vec<usize>)
    requires
        short@.len() >= 1,
    ensures
        r@.len() >= 1,
        r@[0] == 0,
        forall|j: int, k: int| 0 <= j < k < r@.len() ==> r@[j] < r@[k],
        forall|j: int| 0 <= j < r@.len() ==> #[trigger] r@[j] < short@.len(),
        forall|i: int| 1 <= i < short@.len() ==> (!#[trigger] short@[i] <==> r@.contains(i as usize)),
{
    let n = short.len();
    let mut starts: Vec<usize> = Vec::new();
    starts.push(0);
    let mut i: usize = 1;
    while i < n
        invariant
            n == short@.len(),
            1 <= i <= n,
            starts@.len() >= 1,
            starts@[0] == 0,
            forall|j: int, k: int| 0 <= j < k < starts@.len() ==> starts@[j] < starts@[k],
            forall|j: int| 0 <= j < starts@.len() ==> #[trigger] starts@[j] < i,
            forall|m: int| 1 <= m < i ==> (!#[trigger] short@[m] <==> starts@.contains(m as usize)),
        decreases n - i,
    {
        let ghost before = starts@;
        if !short[i] {
            starts.push(i);
            assert(starts@[starts@.len() - 1] == i);
        }
        assert forall|m: int| 1 <= m < i + 1 implies (!#[trigger] short@[m] <==> starts@.contains(
            m as usize,
        )) by {
            if m < i {
                if before.contains(m as usize) {
                    let w = choose|w: int| 0 <= w < before.len() && before[w] == m as usize;
                    assert(starts@[w] == m as usize);
                }
                if starts@.contains(m as usize) {
                    let w = choose|w: int| 0 <= w < starts@.len() && starts@[w] == m as usize;
                    if w == before.len() {
                        assert(starts@[w] == i);
                    } else {
                        assert(before[w] == m as usize);
                    }
                }
            } else {
                if !short@[m] {
                    assert(starts@[starts@.len() - 1] == m as usize);
                }
                if starts@.contains(m as usize) {
                    let w = choose|w: int| 0 <= w < starts@.len() && starts@[w] == m as usize;
                    if w < before.len() {
                        assert(before[w] < i);
                    }
                }
            }
        }
        i = i + 1;
    }
    starts
}

} // verus!
