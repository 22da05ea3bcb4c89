use vstd::prelude::*;

verus! {

/// A plain generic value pair with no behaviour of its own; it has no
/// bearing on the codec.
#[derive(Debug, Clone, PartialEq)]
pub struct Point<T> {
    pub x: T,
    pub y: T,
}

impl<T> Point<T> {
    /// Packs the two values into a pair.
    pub fn new(x: T, y: T) -> (r: Self)
        ensures
            r.x == x,
            r.y == y,
    {
        Point { x, y }
    }
}

} // verus!
