//! The directions in which the two wheels of the drive turn.

use vstd::prelude::*;

verus! {

/// Time between two edges of a step pulse, in microseconds.
pub const STEP_TIME: u64 = 500;

/// The direction in which a wheel turns.
#[derive(Clone, Copy, Debug, PartialEq, Eq)]
pub enum Direction {
    Forward,
    Backward,
}

/// The directions of the two wheels.
#[derive(Clone, Copy, Debug, PartialEq, Eq)]
pub struct WheelDirections {
    pub left: Direction,
    pub right: Direction,
}

impl Direction {
    /// The other direction.
    pub open spec fn opposite(self) -> Direction {
        match self {
            Direction::Forward => Direction::Backward,
            Direction::Backward => Direction::Forward,
        }
    }
}

impl core::ops::Neg for Direction {
    type Output = Direction;

    /// The other direction.
    fn neg(self) -> (r: Direction) {
        match self {
            Direction::Forward => Direction::Backward,
            Direction::Backward => Direction::Forward,
        }
    }
}

impl vstd::std_specs::ops::NegSpecImpl for Direction {
    open spec fn obeys_neg_spec() -> bool {
        true
    }

    open spec fn neg_req(self) -> bool {
        true
    }

    open spec fn neg_spec(self) -> Direction {
        self.opposite()
    }
}

impl WheelDirections {
    /// The directions for driving straight: both wheels turn in `dir`.
    pub fn straight(dir: Direction) -> (w: WheelDirections)
        ensures
            w.left == dir,
            w.right == dir,
    {
        WheelDirections { left: dir, right: dir }
    }

    /// The directions for turning on the spot. For a negative angle the
    /// left wheel turns backward and the right one forward; otherwise the
    /// left wheel turns forward and the right one backward.
    pub fn turning(negative_angle: bool) -> (w: WheelDirections)
        ensures
            w.left == if negative_angle {
                Direction::Backward
            } else {
                Direction::Forward
            },
            w.right == w.left.opposite(),
    {
        if negative_angle {
            WheelDirections { left: Direction::Backward, right: Direction::Forward }
        } else {
            WheelDirections { left: Direction::Forward, right: Direction::Backward }
        }
    }
}

/// Turning a direction round twice gives the direction back.
pub proof fn lemma_opposite_twice(dir: Direction)
    ensures
        dir.opposite().opposite() == dir,
        dir.opposite() != dir,
{
}

} // verus!
