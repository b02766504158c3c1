use vstd::prelude::*;

use crate::point::Point;

verus! {

/// One edge of a ring: the segment from `a` to `b`.
///
/// Edges are derived from a ring's point list (including the closing edge back
/// to the first point) and are never stored independently of it.
#[derive(Clone, Copy, Debug, PartialEq, Eq, Structural)]
pub struct LineSeg {
    pub a: Point,
    pub b: Point,
}

} // verus!
