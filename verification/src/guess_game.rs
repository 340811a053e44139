//! Number-guessing round: a submitted number is judged against the expected
//! one as too small, too big, or a win. Reading input and printing replies
//! stay with the caller; this module holds the decision alone.

use vstd::prelude::*;

verus! {

/// Which side of the expected number a miss fell on.
#[derive(Debug, PartialEq, Eq)]
pub enum Hint {
    TooSmall,
    TooBig,
}

/// Outcome of judging one guess.
#[derive(Debug, PartialEq, Eq)]
pub enum Status {
    Victory,
    Miss(Hint),
}

/// The outcome that `value` receives against `expected`.
pub open spec fn outcome(value: u32, expected: u32) -> Status {
    if value < expected {
        Status::Miss(Hint::TooSmall)
    } else if value > expected {
        Status::Miss(Hint::TooBig)
    } else {
        Status::Victory
    }
}

/// A submitted number.
#[derive(Debug, PartialEq, Eq, PartialOrd, Ord)]
pub struct Guess(pub u32);

impl Guess {
    /// Judge this guess against the expected number.
    pub fn against(&self, expected: &u32) -> (r: Status)
        ensures
            r == outcome(self.0, *expected),
    {
        if self.0 < *expected {
            Status::Miss(Hint::TooSmall)
        } else if self.0 > *expected {
            Status::Miss(Hint::TooBig)
        } else {
            Status::Victory
        }
    }
}

/// One round: the expected number, with every guess judged against it.
pub struct Game {
    expected: u32,
}

impl Game {
    /// The number guesses are judged against.
    pub closed spec fn target(self) -> u32 {
        self.expected
    }

    pub fn new(expected: u32) -> (g: Game)
        ensures
            g.target() == expected,
    {
        Game { expected }
    }

    /// Judge `value` against the expected number.
    pub fn guess(&self, value: &u32) -> (r: Status)
        ensures
            r == outcome(*value, self.target()),
    {
        if *value < self.expected {
            Status::Miss(Hint::TooSmall)
        } else if *value > self.expected {
            Status::Miss(Hint::TooBig)
        } else {
            Status::Victory
        }
    }
}

} // verus!
