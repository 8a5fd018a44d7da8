use hangman::error::GameError;
use hangman::game::Game;
use hangman::protocol::{
    GuessWordResponse, GuessWordResponseData, NextWordResponse, NextWordResponseData,
    StartGameResponse, StartGameResponseData,
};
use hangman::action::GameAction;

fn game() -> Game {
    Game::new("http://example.invalid/game".to_string(), "player@example.invalid".to_string())
}

fn next_word(session: &str, word: &str, total: usize, wrong: usize) -> NextWordResponse {
    NextWordResponse {
        sessionId: session.to_string(),
        data: NextWordResponseData {
            word: word.to_string(),
            totalWordCount: total,
            wrongGuessCountOfCurrentWord: wrong,
        },
    }
}

fn guess_reply(session: &str, word: &str, wrong: usize) -> GuessWordResponse {
    GuessWordResponse {
        sessionId: session.to_string(),
        data: GuessWordResponseData {
            word: word.to_string(),
            totalWordCount: 1,
            wrongGuessCountOfCurrentWord: wrong,
        },
    }
}

#[test]
fn a_new_game_refuses_everything() {
    let mut g = game();
    assert!(matches!(g.next_word_request(), Err(GameError::GameNotStarted)));
    assert!(matches!(g.guess_request('a'), Err(GameError::GameNotStarted)));
    assert!(matches!(g.get_result_request(), Err(GameError::GameNotStarted)));
    assert!(!g.has_session());
}

#[test]
fn start_request_carries_the_player() {
    let g = game();
    let r = g.start_request();
    assert_eq!(r.playerId, "player@example.invalid");
    assert_eq!(r.action, GameAction::StartGame);
    assert_eq!(g.req_url(), "http://example.invalid/game");
}

#[test]
fn started_game_has_no_word_yet() {
    let mut g = game();
    g.apply_start(StartGameResponse {
        message: "ok".to_string(),
        sessionId: "s1".to_string(),
        data: StartGameResponseData { numberOfWordsToGuess: 80, numberOfGuessAllowedForEachWord: 10 },
    });
    assert!(g.has_session());
    assert!(matches!(g.guess_request('a'), Err(GameError::CurrentNoWord)));
    let r = g.next_word_request().unwrap();
    assert_eq!(r.sessionId, "s1");
    assert_eq!(r.action, GameAction::NextWord);
    let r = g.get_result_request().unwrap();
    assert_eq!(r.sessionId, "s1");
    assert_eq!(r.action, GameAction::GetResult);
    let r = g.submit_result_request();
    assert_eq!(r.sessionId, "s1");
    assert_eq!(r.action, GameAction::SubmitResult);
}

#[test]
fn guessing_sends_upper_case_and_completes() {
    let mut g = game();
    g.force_start("s1".to_string());
    g.current_word = Some("A*".to_string());
    let r = g.guess_request('b').unwrap();
    assert_eq!(r.guess, 'B');
    assert_eq!(r.sessionId, "s1");
    assert_eq!(r.action, GameAction::GuessWord);
    assert!(g.apply_guess(guess_reply("s2", "AB", 0)));
    assert_eq!(g.current_word, Some("AB".to_string()));
    assert!(matches!(g.guess_request('c'), Err(GameError::GuessComplete)));
    // The status is now Complete, which keeps refusing.
    g.current_word = Some("A*".to_string());
    assert!(matches!(g.guess_request('c'), Err(GameError::GuessComplete)));
}

#[test]
fn an_unchanged_word_means_a_wrong_guess() {
    let mut g = game();
    g.force_start("s1".to_string());
    g.current_word = Some("A*".to_string());
    assert!(g.guess_request('z').is_ok());
    assert!(!g.apply_guess(guess_reply("s1", "A*", 1)));
    assert_eq!(g.current_word, Some("A*".to_string()));
}

#[test]
fn ten_wrong_guesses_fail_the_word() {
    let mut g = game();
    g.force_start("s1".to_string());
    g.apply_next_word(next_word("s1", "***", 3, 10));
    assert!(matches!(g.guess_request('a'), Err(GameError::GuessFailed)));
    assert!(matches!(g.guess_request('a'), Err(GameError::GuessFailed)));
    // A next word is still available.
    assert!(g.next_word_request().is_ok());
}

#[test]
fn eighty_words_finish_the_game() {
    let mut g = game();
    g.force_start("s1".to_string());
    g.apply_next_word(next_word("s2", "**", 80, 0));
    assert!(matches!(g.next_word_request(), Err(GameError::GameFinished)));
    assert!(matches!(g.next_word_request(), Err(GameError::GameFinished)));
    assert!(matches!(g.guess_request('a'), Err(GameError::GameFinished)));
    let r = g.get_result_request().unwrap();
    assert_eq!(r.sessionId, "s2");
}

#[test]
fn next_word_resumes_guessing() {
    let mut g = game();
    g.force_start("s1".to_string());
    g.apply_next_word(next_word("s2", "**", 79, 0));
    let r = g.guess_request('x').unwrap();
    assert_eq!(r.sessionId, "s2");
    assert_eq!(r.guess, 'X');
}

#[test]
fn set_current_word_resumes_a_word() {
    let mut g = game();
    g.force_start("s9".to_string());
    g.set_current_word("**".to_string());
    assert_eq!(g.current_word, Some("**".to_string()));
    let r = g.guess_request('e').unwrap();
    assert_eq!(r.guess, 'E');
    assert_eq!(r.sessionId, "s9");
}
