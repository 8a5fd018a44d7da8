use hangman::driver::{after_guess, after_next_word, skip_word, wants_submit, GameStep, WordStep, RETRY_LIMIT};
use hangman::error::GameError;

#[test]
fn guess_steps() {
    assert_eq!(after_guess(3, false, &Ok(true)), (3, WordStep::NextLetter));
    assert_eq!(after_guess(3, true, &Ok(false)), (3, WordStep::NextLetter));
    assert_eq!(after_guess(3, false, &Err(GameError::GuessFailed)), (3, WordStep::WordDone));
    assert_eq!(after_guess(3, false, &Err(GameError::GuessComplete)), (3, WordStep::WordDone));
    assert_eq!(after_guess(0, false, &Err(GameError::GameFinished)), (0, WordStep::Quit));
    assert_eq!(after_guess(0, false, &Err(GameError::ServerError("x".to_string()))), (0, WordStep::Quit));
}

#[test]
fn guess_retries_on_http_errors() {
    let e = Err(GameError::HttpError("timeout".to_string()));
    assert_eq!(after_guess(0, true, &e), (1, WordStep::Resend));
    assert_eq!(after_guess(0, false, &e), (1, WordStep::NextLetter));
    assert_eq!(after_guess(RETRY_LIMIT - 1, true, &e), (RETRY_LIMIT, WordStep::Resend));
    assert_eq!(after_guess(RETRY_LIMIT, true, &e), (RETRY_LIMIT + 1, WordStep::Quit));
    assert_eq!(after_guess(RETRY_LIMIT, false, &e), (RETRY_LIMIT + 1, WordStep::Quit));
}

#[test]
fn eleven_failures_in_a_row_quit() {
    let e = Err(GameError::HttpError("down".to_string()));
    let mut retries = 0;
    let mut steps = 0;
    loop {
        let (n, step) = after_next_word(retries, &e);
        retries = n;
        steps += 1;
        if step == GameStep::Quit {
            break;
        }
        assert_eq!(step, GameStep::Retry);
    }
    assert_eq!(steps, 11);
}

#[test]
fn next_word_steps() {
    assert_eq!(after_next_word(2, &Ok(())), (2, GameStep::Play));
    assert_eq!(after_next_word(2, &Err(GameError::GameFinished)), (2, GameStep::Finish));
    assert_eq!(after_next_word(2, &Err(GameError::GameNotStarted)), (2, GameStep::Quit));
    assert_eq!(after_next_word(2, &Err(GameError::HttpError("x".to_string()))), (3, GameStep::Retry));
}

#[test]
fn words_shorter_than_the_jump_are_skipped() {
    assert!(skip_word("AB", 3));
    assert!(!skip_word("ABC", 3));
    assert!(!skip_word("ABCD", 3));
    assert!(!skip_word("", 0));
    // Lengths count bytes.
    assert!(!skip_word("\u{e9}A", 3));
}

#[test]
fn only_y_submits() {
    assert!(wants_submit(Some('y')));
    assert!(!wants_submit(Some('Y')));
    assert!(!wants_submit(Some('n')));
    assert!(!wants_submit(None));
}
