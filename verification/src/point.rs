use vstd::prelude::*;

verus! {

/// A 2D coordinate on a fixed-point integer grid.
///
/// The library does all of its geometry on integer coordinates so that the
/// crossing tests below are exact; a caller working in fractional units scales
/// its values onto this grid before building rings.
#[derive(Clone, Copy, Debug, PartialEq, Eq, Structural)]
pub struct Point {
    pub x: i32,
    pub y: i32,
}

} // verus!
