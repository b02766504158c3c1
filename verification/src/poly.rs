use vstd::prelude::*;

use crate::point::Point;
use crate::ring::Ring;
use crate::ShapeError;

verus! {

/// A polygon: an exterior ring followed by the hole rings assigned to it, in
/// assignment order. A polygon always has at least its exterior ring; holes
/// are only ever appended, never removed.
#[derive(Debug)]
pub struct Poly {
    rings: Vec<Ring>,
}

impl View for Poly {
    type V = Seq<Seq<Point>>;

    closed spec fn view(&self) -> Seq<Seq<Point>> {
        self.rings@.map_values(|r: Ring| r@)
    }
}

impl Poly {
    /// A polygon is well formed when it has at least one ring and each of its
    /// rings is well formed.
    pub closed spec fn wf(self) -> bool {
        &&& self.rings@.len() >= 1
        &&& forall|i: int| 0 <= i < self.rings@.len() ==> self.rings@[i].wf()
    }

    /// Wraps a single ring as a polygon whose exterior it becomes. This is
    /// also the fallback for an orphan hole with no enclosing exterior: the
    /// hole is treated as if it were itself an exterior.
    pub fn from_ring(ring: Ring) -> (r: Poly)
        requires
            ring.wf(),
        ensures
            r.wf(),
            r@ =~= seq![ring@],
    {
        let p = Poly { rings: vec![ring] };
        proof {
            assert(p.rings@ =~= seq![ring]);
        }
        p
    }

    /// The exterior ring: the first ring of the polygon.
    pub fn first_ring(&self) -> (r: &Ring)
        requires
            self.wf(),
        ensures
            r.wf(),
            r@ == self@[0],
            self@.len() >= 1,
    {
        &self.rings[0]
    }

    /// Appends a hole ring to the polygon.
    pub fn push(&mut self, ring: Ring)
        requires
            old(self).wf(),
            ring.wf(),
        ensures
            final(self).wf(),
            final(self)@ =~= old(self)@.push(ring@),
    {
        self.rings.push(ring);
        proof {
            assert forall|i: int| 0 <= i < self.rings@.len() implies self.rings@[i].wf() by {
                if i < self.rings@.len() - 1 {
                    assert(self.rings@[i] == old(self).rings@[i]);
                }
            }
        }
    }

    /// Builds a polygon from an already-separated ring list, rejecting
    /// structurally invalid input: a polygon must have at least one ring,
    /// its exterior.
    pub fn decode(rings: Vec<Ring>) -> (r: Result<Poly, ShapeError>)
        requires
            forall|i: int| 0 <= i < rings@.len() ==> (#[trigger] rings@[i]).wf(),
        ensures
            match r {
                Ok(p) => {
                    &&& p.wf()
                    &&& p@ == rings@.map_values(|rg: Ring| rg@)
                    &&& rings@.len() >= 1
                },
                Err(e) => e == ShapeError::BadArg && rings@.len() == 0,
            },
    {
        if rings.is_empty() {
            return Err(ShapeError::BadArg);
        }
        Ok(Poly { rings })
    }

    /// The polygon's rings, exterior first, each as its point sequence;
    /// rings pass through nesting untouched, so this is exactly what the
    /// polygon was assembled from.
    pub fn encode(&self) -> (r: Vec<Vec<Point>>)
        requires
            self.wf(),
        ensures
            r@.map_values(|ps: Vec<Point>| ps@) == self@,
    {
        let mut out: Vec<Vec<Point>> = Vec::new();
        let mut i: usize = 0;
        while i < self.rings.len()
            invariant
                self.wf(),
                0 <= i <= self.rings@.len(),
                out@.len() == i,
                forall|q: int| 0 <= q < i ==> (#[trigger] out@[q])@ == self@[q],
            decreases self.rings@.len() - i,
        {
            let enc = self.rings[i].encode();
            out.push(enc);
            i = i + 1;
        }
        proof {
            assert(out@.map_values(|ps: Vec<Point>| ps@) =~= self@);
        }
        out
    }
}

} // verus!
