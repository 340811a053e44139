//! Word matcher: classifies every letter of a guess against a secret word as
//! exact, misplaced or absent, with duplicate letters accounted for by a
//! frequency ledger that is consumed as occurrences are claimed.

use vstd::prelude::*;

verus! {

/// How one guessed letter relates to the secret word.
#[derive(Debug, PartialEq, Eq, Copy, Clone, Structural)]
pub enum State {
    Misplaced,
    Exact,
    Absent,
}

/// Number of occurrences of `c` among the first `n` characters of `s`.
pub open spec fn count_upto(s: Seq<char>, c: char, n: int) -> int
    decreases n,
{
    if n <= 0 {
        0
    } else {
        count_upto(s, c, n - 1) + if s[n - 1] == c {
            1int
        } else {
            0int
        }
    }
}

/// Number of positions below `n` where guess and secret agree and both hold `c`.
/// These positions claim an occurrence of `c` during the exact pass.
pub open spec fn exact_upto(secret: Seq<char>, guess: Seq<char>, c: char, n: int) -> int
    decreases n,
{
    if n <= 0 {
        0
    } else {
        exact_upto(secret, guess, c, n - 1) + if guess[n - 1] == secret[n - 1] && guess[n - 1]
            == c {
            1int
        } else {
            0int
        }
    }
}

/// Number of positions below `n` that claim a misplaced occurrence of `c`:
/// positions holding `c` without an exact match there, reached left to right
/// while the ledger still has an unclaimed occurrence of `c` left over after
/// the exact pass and the claims of earlier such positions.
pub open spec fn claimed_upto(secret: Seq<char>, guess: Seq<char>, c: char, n: int) -> int
    decreases n,
{
    if n <= 0 {
        0
    } else {
        claimed_upto(secret, guess, c, n - 1) + if guess[n - 1] == c && guess[n - 1] != secret[n
            - 1] && exact_upto(secret, guess, c, guess.len() as int) + claimed_upto(
            secret,
            guess,
            c,
            n - 1,
        ) < count_upto(secret, c, secret.len() as int) {
            1int
        } else {
            0int
        }
    }
}

/// The classification that position `i` of the guess receives: exact on a
/// positional match; otherwise misplaced while unclaimed occurrences of the
/// letter remain in the secret; otherwise absent.
pub open spec fn letter_state(secret: Seq<char>, guess: Seq<char>, i: int) -> State {
    if guess[i] == secret[i] {
        State::Exact
    } else if exact_upto(secret, guess, guess[i], guess.len() as int) + claimed_upto(
        secret,
        guess,
        guess[i],
        i,
    ) < count_upto(secret, guess[i], secret.len() as int) {
        State::Misplaced
    } else {
        State::Absent
    }
}

/// One ledger entry: a character of the secret and how many of its
/// occurrences are still unclaimed.
struct FrequencyDistribution {
    pub value: char,
    pub counter: i32,
}

/// The frequency ledger: per-character unclaimed occurrence counts, looked up
/// by the first entry holding the character.
pub struct WordDistribution(Vec<FrequencyDistribution>);

/// Count recorded for `c`: the counter of the first entry holding `c`, or
/// zero when no entry does.
spec fn lookup(entries: Seq<FrequencyDistribution>, c: char) -> int
    decreases entries.len(),
{
    if entries.len() == 0 {
        0
    } else if entries[0].value == c {
        entries[0].counter as int
    } else {
        lookup(entries.drop_first(), c)
    }
}

proof fn lemma_lookup_first_match(entries: Seq<FrequencyDistribution>, c: char, k: int)
    requires
        0 <= k < entries.len(),
        entries[k].value == c,
        forall|j: int| 0 <= j < k ==> entries[j].value != c,
    ensures
        lookup(entries, c) == entries[k].counter as int,
    decreases k,
{
    if k > 0 {
        lemma_lookup_first_match(entries.drop_first(), c, k - 1);
    }
}

proof fn lemma_lookup_no_match(entries: Seq<FrequencyDistribution>, c: char)
    requires
        forall|j: int| 0 <= j < entries.len() ==> entries[j].value != c,
    ensures
        lookup(entries, c) == 0,
    decreases entries.len(),
{
    if entries.len() > 0 {
        lemma_lookup_no_match(entries.drop_first(), c);
    }
}

/// Replacing an entry by one holding the same character leaves the count of
/// every other character unchanged.
proof fn lemma_lookup_update_other(
    entries: Seq<FrequencyDistribution>,
    k: int,
    e: FrequencyDistribution,
    d: char,
)
    requires
        0 <= k < entries.len(),
        entries[k].value == e.value,
        d != e.value,
    ensures
        lookup(entries.update(k, e), d) == lookup(entries, d),
    decreases k,
{
    let updated = entries.update(k, e);
    if k == 0 {
        assert(updated.drop_first() =~= entries.drop_first());
    } else {
        assert(updated.drop_first() =~= entries.drop_first().update(k - 1, e));
        lemma_lookup_update_other(entries.drop_first(), k - 1, e, d);
    }
}

/// Appending an entry for a character with no existing entry leaves the count
/// of every other character unchanged.
proof fn lemma_lookup_push_other(
    entries: Seq<FrequencyDistribution>,
    x: FrequencyDistribution,
    d: char,
)
    requires
        d != x.value,
    ensures
        lookup(entries.push(x), d) == lookup(entries, d),
    decreases entries.len(),
{
    if entries.len() == 0 {
        assert(entries.push(x)[0] == x);
        assert(entries.push(x).drop_first() =~= Seq::<FrequencyDistribution>::empty());
        assert(lookup(entries.push(x), d) == lookup(entries.push(x).drop_first(), d));
    } else {
        assert(entries.push(x)[0] == entries[0]);
        assert(entries.push(x).drop_first() =~= entries.drop_first().push(x));
        lemma_lookup_push_other(entries.drop_first(), x, d);
        if entries[0].value != d {
            assert(lookup(entries.push(x), d) == lookup(entries.push(x).drop_first(), d));
        }
    }
}

impl WordDistribution {
    /// Unclaimed occurrences currently recorded for `c`.
    pub closed spec fn spec_count(self, c: char) -> int {
        lookup(self.0@, c)
    }

    /// A ledger with every count at zero.
    pub fn new() -> (d: WordDistribution)
        ensures
            forall|c: char| d.spec_count(c) == 0,
    {
        WordDistribution(Vec::new())
    }

    /// Index of the first entry holding `c`, if any.
    fn find(&self, c: char) -> (r: Option<usize>)
        ensures
            match r {
                Some(k) => k < self.0@.len() && self.0@[k as int].value == c && forall|j: int|
                    0 <= j < k ==> self.0@[j].value != c,
                None => forall|j: int| 0 <= j < self.0@.len() ==> self.0@[j].value != c,
            },
    {
        let n = self.0.len();
        let mut k: usize = 0;
        while k < n
            invariant
                k <= n,
                n == self.0@.len(),
                forall|j: int| 0 <= j < k ==> self.0@[j].value != c,
            decreases n - k,
        {
            if self.0[k].value == c {
                return Some(k);
            }
            k += 1;
        }
        None
    }

    /// Record one more occurrence of `c`.
    pub fn incr(&mut self, c: char)
        requires
            old(self).spec_count(c) < i32::MAX,
        ensures
            final(self).spec_count(c) == old(self).spec_count(c) + 1,
            forall|d: char| d != c ==> final(self).spec_count(d) == old(self).spec_count(d),
    {
        match self.find(c) {
            Some(k) => {
                proof {
                    lemma_lookup_first_match(self.0@, c, k as int);
                }
                let counter = self.0[k].counter;
                self.0[k] = FrequencyDistribution { value: c, counter: counter + 1 };
                proof {
                    lemma_lookup_first_match(self.0@, c, k as int);
                    assert forall|d: char| d != c implies lookup(self.0@, d) == lookup(
                        old(self).0@,
                        d,
                    ) by {
                        lemma_lookup_update_other(old(self).0@, k as int, self.0@[k as int], d);
                    }
                }
            },
            None => {
                proof {
                    lemma_lookup_no_match(self.0@, c);
                }
                self.0.push(FrequencyDistribution { value: c, counter: 1 });
                proof {
                    lemma_lookup_first_match(self.0@, c, self.0@.len() - 1);
                    assert forall|d: char| d != c implies lookup(self.0@, d) == lookup(
                        old(self).0@,
                        d,
                    ) by {
                        lemma_lookup_push_other(
                            old(self).0@,
                            FrequencyDistribution { value: c, counter: 1 },
                            d,
                        );
                    }
                }
            },
        }
    }

    /// Claim one occurrence of `c`: succeeds, and decrements the count, only
    /// while the count is positive; otherwise the ledger is left unchanged.
    pub fn decr(&mut self, c: char) -> (r: bool)
        ensures
            old(self).spec_count(c) > 0 ==> r && final(self).spec_count(c) == old(self).spec_count(
                c,
            ) - 1 && forall|d: char| d != c ==> final(self).spec_count(d) == old(self).spec_count(
                d,
            ),
            old(self).spec_count(c) <= 0 ==> !r && *final(self) == *old(self),
    {
        match self.find(c) {
            Some(k) => {
                proof {
                    lemma_lookup_first_match(self.0@, c, k as int);
                }
                let counter = self.0[k].counter;
                if counter <= 0 {
                    return false;
                }
                self.0[k] = FrequencyDistribution { value: c, counter: counter - 1 };
                proof {
                    lemma_lookup_first_match(self.0@, c, k as int);
                    assert forall|d: char| d != c implies lookup(self.0@, d) == lookup(
                        old(self).0@,
                        d,
                    ) by {
                        lemma_lookup_update_other(old(self).0@, k as int, self.0@[k as int], d);
                    }
                }
                true
            },
            None => {
                proof {
                    lemma_lookup_no_match(self.0@, c);
                }
                false
            },
        }
    }
}

proof fn lemma_count_upto_bounds(s: Seq<char>, c: char, n: int)
    requires
        n >= 0,
    ensures
        0 <= count_upto(s, c, n) <= n,
    decreases n,
{
    if n > 0 {
        lemma_count_upto_bounds(s, c, n - 1);
    }
}

proof fn lemma_count_mono(s: Seq<char>, c: char, m: int, n: int)
    requires
        m <= n,
    ensures
        count_upto(s, c, m) <= count_upto(s, c, n),
    decreases n - m,
{
    if m < n {
        lemma_count_mono(s, c, m, n - 1);
    }
}

/// Exact matches on `c` can never outnumber the occurrences of `c` in the
/// secret: every exact position holds an occurrence of its own.
proof fn lemma_exact_le_count(secret: Seq<char>, guess: Seq<char>, c: char, n: int)
    ensures
        0 <= exact_upto(secret, guess, c, n) <= count_upto(secret, c, n),
    decreases n,
{
    if n > 0 {
        lemma_exact_le_count(secret, guess, c, n - 1);
    }
}

/// One letter of a scored guess: the letter as submitted and how it relates
/// to the secret word.
#[derive(Copy, Clone)]
pub struct GuessLetter {
    pub state: State,
    pub letter: char,
}

/// A scored guess: the five submitted letters, each with its classification,
/// produced atomically by one call of `Word::assess`.
#[derive(Copy, Clone)]
pub struct Guess(pub [GuessLetter; 5]);

impl View for Guess {
    type V = Seq<GuessLetter>;

    open spec fn view(&self) -> Seq<GuessLetter> {
        self.0@
    }
}

/// Whether `rec` is exactly the record that scoring `guess` against `secret`
/// produces: the five submitted letters, each with its classification.
pub open spec fn is_assessment(secret: Seq<char>, guess: Seq<char>, rec: Seq<GuessLetter>) -> bool {
    &&& guess.len() == 5
    &&& rec.len() == 5
    &&& forall|i: int|
        0 <= i < 5 ==> rec[i] == (GuessLetter {
            letter: guess[i],
            state: letter_state(secret, guess, i),
        })
}

/// The plain letters of a scored record, in submission order.
pub open spec fn letters_of(rec: Seq<GuessLetter>) -> Seq<char> {
    Seq::new(rec.len(), |i: int| rec[i].letter)
}

/// A record is fully solved when every letter is classified exact.
pub open spec fn solved(rec: Seq<GuessLetter>) -> bool {
    forall|i: int| 0 <= i < rec.len() ==> rec[i].state == State::Exact
}

impl Guess {
    /// The plain submitted word, letters only.
    pub fn word(&self) -> (r: [char; 5])
        ensures
            r@ == letters_of(self@),
    {
        let r = [
            self.0[0].letter,
            self.0[1].letter,
            self.0[2].letter,
            self.0[3].letter,
            self.0[4].letter,
        ];
        proof {
            assert(r@ =~= letters_of(self@));
        }
        r
    }

    /// Classification of the letter at position `i`.
    pub fn state_at(&self, i: usize) -> (r: State)
        requires
            i < 5,
        ensures
            r == self@[i as int].state,
    {
        self.0[i].state
    }

    /// Whether the word was fully guessed: every letter exact.
    pub fn is_guessed(&self) -> (r: bool)
        ensures
            r == solved(self@),
    {
        let mut i: usize = 0;
        while i < 5
            invariant
                i <= 5,
                forall|j: int| 0 <= j < i ==> self.0@[j].state == State::Exact,
            decreases 5 - i,
        {
            if self.0[i].state != State::Exact {
                return false;
            }
            i += 1;
        }
        true
    }
}

/// The character at position `i` of a five-letter word.
fn letter_at(w: &[char; 5], i: usize) -> (c: char)
    requires
        i < 5,
    ensures
        c == w@[i as int],
{
    w[i]
}

/// Repackage five scored letters as one fixed-size record.
fn into_record(scored: &Vec<GuessLetter>) -> (r: Guess)
    requires
        scored@.len() == 5,
    ensures
        r@ == scored@,
{
    let s0 = scored[0];
    let s1 = scored[1];
    let s2 = scored[2];
    let s3 = scored[3];
    let s4 = scored[4];
    let letters: [GuessLetter; 5] = [s0, s1, s2, s3, s4];
    proof {
        assert(letters@ =~= scored@);
    }
    Guess(letters)
}

/// The secret word of one session: a fixed sequence of five characters.
pub struct Word([char; 5]);

impl View for Word {
    type V = Seq<char>;

    closed spec fn view(&self) -> Seq<char> {
        self.0@
    }
}

impl Word {
    pub fn new(s: [char; 5]) -> (w: Word)
        ensures
            w@ == s@,
    {
        Word(s)
    }

    /// Classify every letter of `guess` against this secret word.
    ///
    /// Two passes over a shared frequency ledger: the exact pass claims the
    /// occurrence of every positional match, then the misplaced pass walks
    /// the remaining positions left to right, claiming a leftover occurrence
    /// where one is still unclaimed.
    pub fn assess(&self, guess: &[char; 5]) -> (r: Guess)
        ensures
            is_assessment(self@, guess@, r@),
    {
        let ghost s = self.0@;
        let ghost g = guess@;

        let mut distribution = WordDistribution::new();
        let mut k: usize = 0;
        while k < 5
            invariant
                k <= 5,
                s == self.0@,
                s.len() == 5,
                forall|c: char| distribution.spec_count(c) == count_upto(s, c, k as int),
            decreases 5 - k,
        {
            proof {
                lemma_count_upto_bounds(s, s[k as int], k as int);
            }
            distribution.incr(self.0[k]);
            k += 1;
        }

        let mut mask: Vec<State> = Vec::new();
        mask.push(State::Absent);
        mask.push(State::Absent);
        mask.push(State::Absent);
        mask.push(State::Absent);
        mask.push(State::Absent);

        let mut i: usize = 0;
        while i < 5
            invariant
                i <= 5,
                s == self.0@,
                g == guess@,
                s.len() == 5,
                g.len() == 5,
                mask@.len() == 5,
                forall|c: char|
                    distribution.spec_count(c) == count_upto(s, c, 5) - exact_upto(
                        s,
                        g,
                        c,
                        i as int,
                    ),
                forall|j: int|
                    0 <= j < i ==> mask@[j] == (if g[j] == s[j] {
                        State::Exact
                    } else {
                        State::Absent
                    }),
                forall|j: int| i <= j < 5 ==> mask@[j] == State::Absent,
            decreases 5 - i,
        {
            if guess[i] == self.0[i] {
                mask[i] = State::Exact;
                proof {
                    lemma_exact_le_count(s, g, g[i as int], i as int);
                    lemma_count_mono(s, g[i as int], i as int + 1, 5);
                }
                distribution.decr(guess[i]);
            }
            i += 1;
        }

        let mut i: usize = 0;
        while i < 5
            invariant
                i <= 5,
                s == self.0@,
                g == guess@,
                s.len() == 5,
                g.len() == 5,
                mask@.len() == 5,
                forall|c: char|
                    distribution.spec_count(c) == count_upto(s, c, 5) - exact_upto(s, g, c, 5)
                        - claimed_upto(s, g, c, i as int),
                forall|j: int| 0 <= j < i ==> mask@[j] == letter_state(s, g, j),
                forall|j: int|
                    i <= j < 5 ==> mask@[j] == (if g[j] == s[j] {
                        State::Exact
                    } else {
                        State::Absent
                    }),
            decreases 5 - i,
        {
            if mask[i] == State::Absent {
                let claimed = distribution.decr(guess[i]);
                if claimed {
                    mask[i] = State::Misplaced;
                }
            }
            i += 1;
        }

        let mut scored: Vec<GuessLetter> = Vec::new();
        let mut p: usize = 0;
        while p < 5
            invariant
                p <= 5,
                s == self.0@,
                g == guess@,
                s.len() == 5,
                g.len() == 5,
                mask@.len() == 5,
                scored@.len() == p as int,
                forall|j: int| 0 <= j < 5 ==> mask@[j] == letter_state(s, g, j),
                forall|j: int|
                    0 <= j < p ==> scored@[j] == (GuessLetter {
                        letter: g[j],
                        state: letter_state(s, g, j),
                    }),
            decreases 5 - p,
        {
            let ch = letter_at(guess, p);
            let st = mask[p];
            scored.push(GuessLetter { state: st, letter: ch });
            p += 1;
        }
        into_record(&scored)
    }
}

/// Number of positions below `n` classified as `st`.
pub open spec fn state_count(secret: Seq<char>, guess: Seq<char>, st: State, n: int) -> int
    decreases n,
{
    if n <= 0 {
        0
    } else {
        state_count(secret, guess, st, n - 1) + if letter_state(secret, guess, n - 1) == st {
            1int
        } else {
            0int
        }
    }
}

/// Number of positions below `n` where guess and secret agree.
pub open spec fn agree_count(secret: Seq<char>, guess: Seq<char>, n: int) -> int
    decreases n,
{
    if n <= 0 {
        0
    } else {
        agree_count(secret, guess, n - 1) + if guess[n - 1] == secret[n - 1] {
            1int
        } else {
            0int
        }
    }
}

/// Number of positions below `n` that hold `c` and are classified as `st`.
pub open spec fn state_char_count(
    secret: Seq<char>,
    guess: Seq<char>,
    c: char,
    st: State,
    n: int,
) -> int
    decreases n,
{
    if n <= 0 {
        0
    } else {
        state_char_count(secret, guess, c, st, n - 1) + if guess[n - 1] == c && letter_state(
            secret,
            guess,
            n - 1,
        ) == st {
            1int
        } else {
            0int
        }
    }
}

/// A letter is classified exact exactly where guess and secret agree, so the
/// number of exact classifications equals the number of agreeing positions.
proof fn lemma_exact_matches_agreement(secret: Seq<char>, guess: Seq<char>, n: int)
    ensures
        state_count(secret, guess, State::Exact, n) == agree_count(secret, guess, n),
    decreases n,
{
    if n > 0 {
        lemma_exact_matches_agreement(secret, guess, n - 1);
    }
}

/// The exact classifications of `c` are the positions counted by `exact_upto`.
proof fn lemma_exact_char_count(secret: Seq<char>, guess: Seq<char>, c: char, n: int)
    ensures
        state_char_count(secret, guess, c, State::Exact, n) == exact_upto(secret, guess, c, n),
    decreases n,
{
    if n > 0 {
        lemma_exact_char_count(secret, guess, c, n - 1);
    }
}

/// The misplaced classifications of `c` are the claims counted by
/// `claimed_upto`.
proof fn lemma_misplaced_char_count(secret: Seq<char>, guess: Seq<char>, c: char, n: int)
    ensures
        state_char_count(secret, guess, c, State::Misplaced, n) == claimed_upto(
            secret,
            guess,
            c,
            n,
        ),
    decreases n,
{
    if n > 0 {
        lemma_misplaced_char_count(secret, guess, c, n - 1);
    }
}

/// Exact and misplaced claims of `c` together never exceed the occurrences of
/// `c` in the secret.
proof fn lemma_claims_bounded(secret: Seq<char>, guess: Seq<char>, c: char, n: int)
    ensures
        exact_upto(secret, guess, c, guess.len() as int) + claimed_upto(secret, guess, c, n)
            <= if count_upto(secret, c, secret.len() as int) >= exact_upto(
            secret,
            guess,
            c,
            guess.len() as int,
        ) {
            count_upto(secret, c, secret.len() as int)
        } else {
            exact_upto(secret, guess, c, guess.len() as int)
        },
    decreases n,
{
    if n > 0 {
        lemma_claims_bounded(secret, guess, c, n - 1);
    }
}

/// Duplicate accounting over classifications: for any character `c`, the
/// exact and misplaced classifications of `c` together never exceed the
/// number of occurrences of `c` in the secret word.
proof fn lemma_letter_duplicate_accounting(secret: Seq<char>, guess: Seq<char>, c: char)
    requires
        secret.len() == 5,
        guess.len() == 5,
    ensures
        state_char_count(secret, guess, c, State::Exact, 5) + state_char_count(
            secret,
            guess,
            c,
            State::Misplaced,
            5,
        ) <= count_upto(secret, c, 5),
{
    lemma_exact_char_count(secret, guess, c, 5);
    lemma_misplaced_char_count(secret, guess, c, 5);
    lemma_exact_le_count(secret, guess, c, 5);
    lemma_claims_bounded(secret, guess, c, 5);
}

/// Number of positions below `n` of `rec` classified as `st`.
pub open spec fn record_state_count(rec: Seq<GuessLetter>, st: State, n: int) -> int
    decreases n,
{
    if n <= 0 {
        0
    } else {
        record_state_count(rec, st, n - 1) + if rec[n - 1].state == st {
            1int
        } else {
            0int
        }
    }
}

/// Number of positions below `n` of `rec` that hold `c` and are classified
/// as `st`.
pub open spec fn record_char_state_count(
    rec: Seq<GuessLetter>,
    c: char,
    st: State,
    n: int,
) -> int
    decreases n,
{
    if n <= 0 {
        0
    } else {
        record_char_state_count(rec, c, st, n - 1) + if rec[n - 1].letter == c && rec[n - 1].state
            == st {
            1int
        } else {
            0int
        }
    }
}

proof fn lemma_record_state_count_bridge(
    secret: Seq<char>,
    guess: Seq<char>,
    rec: Seq<GuessLetter>,
    st: State,
    n: int,
)
    requires
        is_assessment(secret, guess, rec),
        n <= 5,
    ensures
        record_state_count(rec, st, n) == state_count(secret, guess, st, n),
    decreases n,
{
    if n > 0 {
        lemma_record_state_count_bridge(secret, guess, rec, st, n - 1);
    }
}

proof fn lemma_record_char_state_count_bridge(
    secret: Seq<char>,
    guess: Seq<char>,
    rec: Seq<GuessLetter>,
    c: char,
    st: State,
    n: int,
)
    requires
        is_assessment(secret, guess, rec),
        n <= 5,
    ensures
        record_char_state_count(rec, c, st, n) == state_char_count(secret, guess, c, st, n),
    decreases n,
{
    if n > 0 {
        lemma_record_char_state_count_bridge(secret, guess, rec, c, st, n - 1);
    }
}

/// In a scored record the number of letters classified exact equals the
/// number of positions where guess and secret agree.
pub proof fn lemma_exact_count_is_agreement(
    secret: Seq<char>,
    guess: Seq<char>,
    rec: Seq<GuessLetter>,
)
    requires
        is_assessment(secret, guess, rec),
    ensures
        record_state_count(rec, State::Exact, 5) == agree_count(secret, guess, 5),
{
    lemma_record_state_count_bridge(secret, guess, rec, State::Exact, 5);
    lemma_exact_matches_agreement(secret, guess, 5);
}

/// Duplicate accounting: in a scored record, the exact and misplaced
/// classifications of any character `c` together never exceed the number of
/// occurrences of `c` in the secret word.
pub proof fn lemma_duplicate_accounting(
    secret: Seq<char>,
    guess: Seq<char>,
    rec: Seq<GuessLetter>,
    c: char,
)
    requires
        is_assessment(secret, guess, rec),
        secret.len() == 5,
    ensures
        record_char_state_count(rec, c, State::Exact, 5) + record_char_state_count(
            rec,
            c,
            State::Misplaced,
            5,
        ) <= count_upto(secret, c, 5),
{
    lemma_record_char_state_count_bridge(secret, guess, rec, c, State::Exact, 5);
    lemma_record_char_state_count_bridge(secret, guess, rec, c, State::Misplaced, 5);
    lemma_letter_duplicate_accounting(secret, guess, c);
}

/// Scoring is a pure function of secret and guess: any two records that both
/// score `guess` against `secret` are identical.
pub proof fn lemma_assessment_deterministic(
    secret: Seq<char>,
    guess: Seq<char>,
    rec1: Seq<GuessLetter>,
    rec2: Seq<GuessLetter>,
)
    requires
        is_assessment(secret, guess, rec1),
        is_assessment(secret, guess, rec2),
    ensures
        rec1 == rec2,
{
    assert(rec1 =~= rec2);
}

/// Round trip: the letters of a scored record are the submitted guess,
/// unaffected by classification.
pub proof fn lemma_word_round_trip(secret: Seq<char>, guess: Seq<char>, rec: Seq<GuessLetter>)
    requires
        is_assessment(secret, guess, rec),
    ensures
        letters_of(rec) == guess,
{
    assert(letters_of(rec) =~= guess);
}

/// A record is fully solved exactly when the guess equals the secret,
/// elementwise.
pub proof fn lemma_solved_iff_equal(secret: Seq<char>, guess: Seq<char>, rec: Seq<GuessLetter>)
    requires
        is_assessment(secret, guess, rec),
        secret.len() == 5,
    ensures
        solved(rec) <==> guess == secret,
{
    if solved(rec) {
        assert forall|i: int| 0 <= i < 5 implies guess[i] == secret[i] by {
            assert(rec[i].state == State::Exact);
            assert(letter_state(secret, guess, i) == State::Exact);
        }
        assert(guess =~= secret);
    }
    if guess == secret {
        assert forall|i: int| 0 <= i < rec.len() implies rec[i].state == State::Exact by {
            assert(guess[i] == secret[i]);
        }
    }
}

} // verus!
