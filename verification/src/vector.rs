use vstd::prelude::*;

verus! {

/// A point or a displacement in the plane, over the caller's scalar type.
#[derive(Clone, Copy, Debug)]
pub struct Vector2<T> {
    pub x: T,
    pub y: T,
}

impl<T: Copy> Vector2<T> {
    pub fn new(x: T, y: T) -> (v: Self)
        ensures
            v.x == x,
            v.y == y,
    {
        Vector2 { x, y }
    }
}

} // verus!
