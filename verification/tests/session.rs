use wordle::game::Game;
use wordle::game::GameError;
use wordle::game::State;
use wordle::word::Word;

#[test]
fn guess_fill_history() {
    let mut g = Game::new(Word::new(['r', 'i', 'g', 'h', 't']));

    assert_eq!(0, g.tries());

    g.guess(['w', 'r', 'o', 'n', 'g']).unwrap();
    assert_eq!(1, g.tries());
    g.guess(['f', 'a', 'l', 's', 'e']).unwrap();
    assert_eq!(2, g.tries());

    assert_eq!(['w', 'r', 'o', 'n', 'g'], g.history[0].word());
    assert_eq!(['f', 'a', 'l', 's', 'e'], g.history[1].word());
}

#[test]
fn guess_win_on_match() {
    let mut g = Game::new(Word::new(['r', 'i', 'g', 'h', 't']));

    assert_eq!(Ok(State::Win), g.guess(['r', 'i', 'g', 'h', 't']));
}

#[test]
fn guess_lose_after_6_tries() {
    let mut g = Game::new(Word::new(['r', 'i', 'g', 'h', 't']));

    assert_eq!(Ok(State::Missed), g.guess(['f', 'a', 'l', 's', 'e']));
    assert_eq!(Ok(State::Missed), g.guess(['f', 'a', 'l', 's', 'e']));
    assert_eq!(Ok(State::Missed), g.guess(['f', 'a', 'l', 's', 'e']));
    assert_eq!(Ok(State::Missed), g.guess(['f', 'a', 'l', 's', 'e']));
    assert_eq!(Ok(State::Missed), g.guess(['f', 'a', 'l', 's', 'e']));
    assert_eq!(Ok(State::Lost), g.guess(['f', 'a', 'l', 's', 'e']));
    assert_eq!(
        Err(GameError::SessionFinished),
        g.guess(['f', 'a', 'l', 's', 'e'])
    );
    assert_eq!(6, g.tries(), "a rejected guess must not grow the history");
}

#[test]
fn guess_rejected_after_win() {
    let mut g = Game::new(Word::new(['r', 'i', 'g', 'h', 't']));

    assert_eq!(Ok(State::Win), g.guess(['r', 'i', 'g', 'h', 't']));
    assert_eq!(1, g.tries());
    assert_eq!(
        Err(GameError::SessionFinished),
        g.guess(['w', 'r', 'o', 'n', 'g'])
    );
    assert_eq!(1, g.tries(), "a finished session stays frozen");
}

#[test]
fn win_on_sixth_attempt() {
    let mut g = Game::new(Word::new(['r', 'i', 'g', 'h', 't']));

    for _ in 0..5 {
        assert_eq!(Ok(State::Missed), g.guess(['w', 'r', 'o', 'n', 'g']));
    }
    assert_eq!(Ok(State::Win), g.guess(['r', 'i', 'g', 'h', 't']));
    assert_eq!(6, g.tries());
}
