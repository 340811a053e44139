//! Scoring engine and session state machine for a five-letter word-guessing
//! game, together with two smaller companions: a number-guessing round and a
//! circular buffer.
//!
//! The heart of the crate is the word matcher in [`word`]: it classifies
//! every letter of a guess against a secret word as exact, misplaced or
//! absent, consuming a frequency ledger so that duplicate letters are never
//! over-credited. The session in [`game`] appends scored records to an
//! append-only history and derives the win/loss outcome from it. This module
//! offers the same scoring through a plain classification value,
//! [`LetterLocation`], without the per-letter record type.

use vstd::prelude::*;

pub mod buffer;
pub mod game;
pub mod guess_game;
pub mod word;

pub use word::WordDistribution;

verus! {

/// How one position of a guess relates to the secret word.
#[derive(Debug, PartialEq, Eq, Copy, Clone)]
pub enum LetterLocation {
    Misplaced,
    Exact,
    Absent,
}

impl Default for LetterLocation {
    /// A position starts out classified as absent.
    fn default() -> (r: Self)
        ensures
            r == LetterLocation::Absent,
    {
        LetterLocation::Absent
    }
}

/// The classification of `st` as a plain location value.
pub open spec fn location_of(st: word::State) -> LetterLocation {
    match st {
        word::State::Exact => LetterLocation::Exact,
        word::State::Misplaced => LetterLocation::Misplaced,
        word::State::Absent => LetterLocation::Absent,
    }
}

fn to_location(st: word::State) -> (r: LetterLocation)
    ensures
        r == location_of(st),
{
    match st {
        word::State::Exact => LetterLocation::Exact,
        word::State::Misplaced => LetterLocation::Misplaced,
        word::State::Absent => LetterLocation::Absent,
    }
}

/// A secret word scored through plain location values.
pub struct Word(word::Word);

impl View for Word {
    type V = Seq<char>;

    closed spec fn view(&self) -> Seq<char> {
        self.0@
    }
}

impl Word {
    pub fn new(s: [char; 5]) -> (w: Word)
        ensures
            w@ == s@,
    {
        Word(word::Word::new(s))
    }

    /// Classify every letter of `guess` against this secret word, as plain
    /// location values in guess order.
    pub fn assess(&self, guess: &[char; 5]) -> (r: [LetterLocation; 5])
        ensures
            forall|i: int|
                0 <= i < 5 ==> r@[i] == location_of(word::letter_state(self@, guess@, i)),
    {
        let scored = self.0.assess(guess);
        let mut rst: [LetterLocation; 5] = [
            LetterLocation::Absent,
            LetterLocation::Absent,
            LetterLocation::Absent,
            LetterLocation::Absent,
            LetterLocation::Absent,
        ];
        let mut i: usize = 0;
        while i < 5
            invariant
                i <= 5,
                word::is_assessment(self.0@, guess@, scored@),
                forall|j: int|
                    0 <= j < i ==> rst@[j] == location_of(word::letter_state(self.0@, guess@, j)),
            decreases 5 - i,
        {
            let st = scored.state_at(i);
            rst[i] = to_location(st);
            i += 1;
        }
        rst
    }
}

} // verus!
