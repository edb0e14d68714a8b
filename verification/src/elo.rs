//! Who won a match of the tournament.

use vstd::prelude::*;

verus! {

/// The winner of a match between A and B.
#[derive(Clone, Copy, Debug, PartialEq, Eq, Structural)]
pub enum Winner {
    A,
    B,
    Draw,
}

impl Winner {
    /// What A and B score, in halves of a point.
    pub fn half_points(self) -> (r: (u8, u8))
        ensures
            r.0 + r.1 == 2,
            self == Winner::A ==> r.0 == 2,
            self == Winner::B ==> r.0 == 0,
            self == Winner::Draw ==> r.0 == 1,
    {
        match self {
            Winner::A => (2, 0),
            Winner::B => (0, 2),
            Winner::Draw => (1, 1),
        }
    }
}

} // verus!
