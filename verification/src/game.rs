//! Game session: owns the secret word and an append-only history of scored
//! guesses, and derives the session outcome from that history. Once a session
//! is won or lost it is frozen: further guesses are rejected unchanged.

use vstd::prelude::*;

use crate::word::is_assessment;
use crate::word::letters_of;
use crate::word::solved;
use crate::word::Guess;
use crate::word::Word;

verus! {

/// Outcome reported for a submitted guess.
#[derive(Debug, Eq, PartialEq)]
pub enum State {
    Lost,
    Missed,
    Win,
}

/// Why a submission was rejected.
#[derive(Debug, Eq, PartialEq)]
pub enum GameError {
    SessionFinished,
}

/// One session: the secret word and the chronological history of scored
/// guesses. The history is append-only and never reordered.
pub struct Game {
    pub word: Word,
    pub history: Vec<Guess>,
}

impl Game {
    /// The secret word this session scores guesses against.
    pub open spec fn secret(self) -> Seq<char> {
        self.word@
    }

    /// Record `j` of the history is the scoring of its own letters against
    /// the secret word.
    pub open spec fn record_ok(self, j: int) -> bool {
        is_assessment(self.secret(), letters_of(self.history@[j]@), self.history@[j]@)
    }

    /// Session invariant: at most six records, every record is a genuine
    /// scoring against the secret, and only the most recent record can be
    /// fully solved (a win freezes the session at once).
    pub open spec fn wf(self) -> bool {
        &&& self.history@.len() <= 6
        &&& forall|j: int| 0 <= j < self.history@.len() ==> self.record_ok(j)
        &&& forall|j: int| 0 <= j < self.history@.len() - 1 ==> !solved(self.history@[j]@)
    }

    /// The session has been won: the latest record is fully solved.
    pub open spec fn is_won(self) -> bool {
        self.history@.len() > 0 && solved(self.history@.last()@)
    }

    /// Terminal state: won, or all six attempts used without winning.
    pub open spec fn is_finished(self) -> bool {
        self.is_won() || self.history@.len() >= 6
    }

    /// A fresh session: empty history, not yet terminal.
    pub fn new(word: Word) -> (g: Game)
        ensures
            g.wf(),
            g.history@.len() == 0,
            g.secret() == word@,
    {
        Game { word, history: Vec::new() }
    }

    /// Submit a guess. On a live session the guess is scored, the record is
    /// appended, and the resulting state is returned: `Win` when the guess
    /// solved the word, `Lost` when the sixth attempt missed, `Missed`
    /// otherwise. On a finished session nothing changes and the submission is
    /// rejected.
    pub fn guess(&mut self, word: [char; 5]) -> (r: Result<State, GameError>)
        requires
            old(self).wf(),
        ensures
            final(self).wf(),
            final(self).secret() == old(self).secret(),
            old(self).is_finished() ==> r == Result::<State, GameError>::Err(
                GameError::SessionFinished,
            ) && *final(self) == *old(self),
            !old(self).is_finished() ==> {
                &&& final(self).history@.len() == old(self).history@.len() + 1
                &&& final(self).history@.subrange(0, old(self).history@.len() as int) == old(
                    self,
                ).history@
                &&& is_assessment(old(self).secret(), word@, final(self).history@.last()@)
                &&& r == Result::<State, GameError>::Ok(
                    if solved(final(self).history@.last()@) {
                        State::Win
                    } else if old(self).history@.len() + 1 >= 6 {
                        State::Lost
                    } else {
                        State::Missed
                    },
                )
            },
    {
        let n = self.history.len();
        if n >= 6 {
            return Err(GameError::SessionFinished);
        }
        if n > 0 && self.history[n - 1].is_guessed() {
            return Err(GameError::SessionFinished);
        }

        let scored = self.word.assess(&word);
        proof {
            crate::word::lemma_word_round_trip(self.word@, word@, scored@);
        }
        self.history.push(scored);

        proof {
            let stale = old(self).history@;
            let fresh = self.history@;
            assert(fresh == stale.push(scored));
            assert forall|j: int| 0 <= j < fresh.len() implies self.record_ok(j) by {
                if j < fresh.len() - 1 {
                    assert(fresh[j] == stale[j]);
                    assert(old(self).record_ok(j));
                } else {
                    assert(fresh[j] == scored);
                }
            }
            assert forall|j: int| 0 <= j < fresh.len() - 1 implies !solved(fresh[j]@) by {
                assert(fresh[j] == stale[j]);
                if j < stale.len() - 1 {
                    assert(!solved(stale[j]@));
                } else {
                    assert(stale[j] == stale.last());
                }
            }
        }

        if scored.is_guessed() {
            return Ok(State::Win);
        }
        if self.history.len() >= 6 {
            return Ok(State::Lost);
        }
        Ok(State::Missed)
    }

    /// Number of guesses submitted so far.
    pub fn tries(&self) -> (r: usize)
        ensures
            r == self.history@.len(),
    {
        self.history.len()
    }
}

} // verus!
