use vstd::prelude::*;

pub mod lineseg;
pub mod nest;
pub mod point;
pub mod poly;
pub mod ring;

verus! {

/// The single hard failure of the library: structurally invalid input,
/// namely a ring with no points or a polygon with no rings.
#[derive(Clone, Copy, Debug, PartialEq, Eq, Structural)]
pub enum ShapeError {
    BadArg,
}

} // verus!
