use vstd::prelude::*;
use crate::vector::Vector2;

verus! {

/// One member of the flock.
#[derive(Clone, Copy, Debug)]
pub struct Boid<T> {
    pub pos: Vector2<T>,
    pub vel: Vector2<T>,
}

impl<T: Copy> Boid<T> {
    pub fn new(pos: Vector2<T>, vel: Vector2<T>) -> (b: Self)
        ensures
            b.pos == pos,
            b.vel == vel,
    {
        Boid { pos, vel }
    }
}

/// Where a coordinate stands after the wraparound rule, given the two
/// strict comparisons `coord < low` and `coord > high`.
pub open spec fn wrapped<T>(coord: T, low: T, high: T, below_low: bool, above_high: bool) -> T {
    if below_low {
        high
    } else if above_high {
        low
    } else {
        coord
    }
}

/// Toroidal wraparound on one axis. A coordinate below the low bound snaps
/// to the high bound, one above the high bound snaps to the low bound, and
/// one that is neither (a coordinate exactly on a bound too) stays. The
/// low side is looked at first.
pub fn wrap_axis<T: Copy>(coord: T, low: T, high: T, below_low: bool, above_high: bool) -> (r: T)
    ensures
        r == wrapped(coord, low, high, below_low, above_high),
        above_high && !below_low ==> r == low,
        below_low ==> r == high,
        !below_low && !above_high ==> r == coord,
{
    if below_low {
        high
    } else if above_high {
        low
    } else {
        coord
    }
}

} // verus!
