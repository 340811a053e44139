use wordle::word::Guess;
use wordle::word::GuessLetter;
use wordle::word::State;
use wordle::word::State::Absent;
use wordle::word::State::Exact;
use wordle::word::State::Misplaced;
use wordle::word::Word;

fn assert_guess(want: ([char; 5], [State; 5]), got: Guess) {
    let mut i = 0;
    let wanted_guess_letters = want.0.map(|letter| {
        let mask_value = want.1[i];
        i += 1;
        GuessLetter {
            letter: letter.to_owned(),
            state: mask_value,
        }
    });

    for (i, expected) in wanted_guess_letters.iter().enumerate() {
        assert_eq!(
            expected.state, got.0[i].state,
            "invalid letter value at index {} for letter {}",
            i, got.0[i].letter
        );
    }
}

#[test]
fn word_guess_match() {
    let guess = Word::new(['a', 'b', 'c', 'd', 'e']).assess(&['a', 'b', 'c', 'd', 'e']);

    assert_guess((['a', 'b', 'c', 'd', 'e'], [Exact; 5]), guess);
}

#[test]
fn word_guess_no_match() {
    let guess = Word::new(['a', 'b', 'c', 'd', 'e']).assess(&['f', 'g', 'h', 'i', 'j']);
    assert_guess((['f', 'g', 'h', 'i', 'j'], [Absent; 5]), guess);
}

#[test]
fn word_guess_misplaced() {
    let guess = Word::new(['a', 'b', 'c', 'd', 'e']).assess(&['b', 'c', 'd', 'e', 'a']);
    assert_guess((['b', 'c', 'd', 'e', 'a'], [Misplaced; 5]), guess);
}

#[test]
fn word_guess_a_bit_of_everything() {
    let guess = Word::new(['a', 'b', 'c', 'd', 'e']).assess(&['a', 'b', 'd', 'c', 'f']);
    assert_guess(
        (
            ['a', 'b', 'd', 'c', 'f'],
            [Exact, Exact, Misplaced, Misplaced, Absent],
        ),
        guess,
    );
}

#[test]
fn word_guess_same_letters_multiple_times() {
    let guess = Word::new(['a', 'b', 'a', 'd', 'e']).assess(&['a', 'a', 'b', 'c', 'a']);
    assert_guess(
        (
            ['a', 'a', 'b', 'c', 'a'],
            [Exact, Misplaced, Misplaced, Absent, Absent],
        ),
        guess,
    );
}

#[test]
fn word() {
    let guess = Guess([
        GuessLetter {
            state: State::Misplaced,
            letter: 'r',
        },
        GuessLetter {
            state: State::Exact,
            letter: 'i',
        },
        GuessLetter {
            state: State::Absent,
            letter: 'g',
        },
        GuessLetter {
            state: State::Exact,
            letter: 'h',
        },
        GuessLetter {
            state: State::Misplaced,
            letter: 't',
        },
    ]);

    assert_eq!(['r', 'i', 'g', 'h', 't'], guess.word())
}

#[test]
fn state_is_guessed_true() {
    let guess = Guess([
        GuessLetter {
            state: State::Exact,
            letter: 'r',
        },
        GuessLetter {
            state: State::Exact,
            letter: 'i',
        },
        GuessLetter {
            state: State::Exact,
            letter: 'g',
        },
        GuessLetter {
            state: State::Exact,
            letter: 'h',
        },
        GuessLetter {
            state: State::Exact,
            letter: 't',
        },
    ]);

    assert!(guess.is_guessed(), "word should be guessed")
}

#[test]
fn state_is_guessed_false() {
    let guess = Guess([
        GuessLetter {
            state: State::Exact,
            letter: 'r',
        },
        GuessLetter {
            state: State::Misplaced,
            letter: 'i',
        },
        GuessLetter {
            state: State::Exact,
            letter: 'g',
        },
        GuessLetter {
            state: State::Exact,
            letter: 'h',
        },
        GuessLetter {
            state: State::Exact,
            letter: 't',
        },
    ]);

    assert!(!guess.is_guessed(), "word should not be guessed")
}

#[test]
fn assess_is_deterministic() {
    let secret = Word::new(['a', 'b', 'a', 'd', 'e']);
    let first = secret.assess(&['a', 'a', 'b', 'c', 'a']);
    let second = secret.assess(&['a', 'a', 'b', 'c', 'a']);
    for i in 0..5 {
        assert_eq!(first.0[i].letter, second.0[i].letter);
        assert_eq!(first.0[i].state, second.0[i].state);
    }
}

#[test]
fn word_round_trip_after_assess() {
    let submitted = ['a', 'a', 'b', 'c', 'a'];
    let guess = Word::new(['a', 'b', 'a', 'd', 'e']).assess(&submitted);
    assert_eq!(submitted, guess.word());
}

#[test]
fn duplicate_letters_never_over_credited() {
    // The secret holds two occurrences of 'a'; of the three 'a's guessed, one
    // is exact and only one more may count as misplaced.
    let guess = Word::new(['a', 'b', 'a', 'd', 'e']).assess(&['a', 'a', 'x', 'a', 'e']);
    let credited = guess
        .0
        .iter()
        .filter(|l| l.letter == 'a' && l.state != Absent)
        .count();
    assert_eq!(2, credited);
    assert_eq!(Exact, guess.0[0].state);
    assert_eq!(Misplaced, guess.0[1].state);
    assert_eq!(Absent, guess.0[2].state);
    assert_eq!(Absent, guess.0[3].state);
    assert_eq!(Exact, guess.0[4].state);
}

#[test]
fn exact_count_matches_agreeing_positions() {
    let guess = Word::new(['a', 'b', 'c', 'd', 'e']).assess(&['a', 'x', 'c', 'y', 'e']);
    let exact = guess.0.iter().filter(|l| l.state == Exact).count();
    assert_eq!(3, exact);
}
