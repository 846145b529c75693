use vstd::prelude::*;
use vstd::std_specs::ops::NegSpec;
use core::ops::Neg;

verus! {

/// A point in the plane, generic over its coordinate type.
#[derive(Debug, Copy, Clone, PartialEq)]
pub struct Point<T> {
    pub x: T,
    pub y: T,
}

impl<T: Copy + core::ops::Neg<Output = T>> Point<T> {
    /// Rotates the point a quarter turn clockwise about the origin:
    /// (x, y) goes to (y, -x).
    pub fn clockwise(self) -> (r: Point<T>)
        requires
            self.x.neg_req(),
        ensures
            r.x == self.y,
            T::obeys_neg_spec() ==> r.y == self.x.neg_spec(),
    {
        Point { x: self.y, y: self.x.neg() }
    }

    /// Rotates the point a quarter turn counterclockwise about the origin:
    /// (x, y) goes to (-y, x).
    pub fn counterclockwise(self) -> (r: Point<T>)
        requires
            self.y.neg_req(),
        ensures
            T::obeys_neg_spec() ==> r.x == self.y.neg_spec(),
            r.y == self.x,
    {
        Point { x: self.y.neg(), y: self.x }
    }
}

} // verus!
