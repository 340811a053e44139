use wordle::LetterLocation;
use wordle::LetterLocation::Absent;
use wordle::LetterLocation::Exact;
use wordle::LetterLocation::Misplaced;
use wordle::Word;

fn assert_guess(want: [LetterLocation; 5], got: [LetterLocation; 5]) {
    for (i, expected) in want.iter().enumerate() {
        assert_eq!(expected, &got[i], "invalid letter value at index {}", i);
    }
}

#[test]
fn lib_guess_match() {
    let rst = Word::new(['a', 'b', 'c', 'd', 'e']).assess(&['a', 'b', 'c', 'd', 'e']);
    assert_guess([Exact; 5], rst);
}

#[test]
fn lib_guess_no_match() {
    let rst = Word::new(['a', 'b', 'c', 'd', 'e']).assess(&['f', 'g', 'h', 'i', 'j']);
    assert_guess([Absent; 5], rst);
}

#[test]
fn lib_guess_misplaced() {
    let rst = Word::new(['a', 'b', 'c', 'd', 'e']).assess(&['b', 'c', 'd', 'e', 'a']);
    assert_guess([Misplaced; 5], rst);
}

#[test]
fn lib_guess_a_bit_of_everything() {
    let rst = Word::new(['a', 'b', 'c', 'd', 'e']).assess(&['a', 'b', 'd', 'c', 'f']);
    assert_guess([Exact, Exact, Misplaced, Misplaced, Absent], rst);
}

#[test]
fn lib_guess_same_letters_multiple_times() {
    let rst = Word::new(['a', 'b', 'a', 'd', 'e']).assess(&['a', 'a', 'b', 'c', 'a']);
    assert_guess([Exact, Misplaced, Misplaced, Absent, Absent], rst);
}

#[test]
fn lib_letter_location_default_is_absent() {
    assert_eq!(LetterLocation::Absent, LetterLocation::default());
}
