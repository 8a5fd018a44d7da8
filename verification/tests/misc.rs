use hangman::action::GameAction;
use hangman::error::{settle_reply, GameError};
use hangman::preprocess::{format_dictionary, preprocess_dictionary};
use hangman::protocol::{GetResultJson, NextWordJson, ServerError, StartGameJson, SubmitResultJson};
use hangman::text::{byte_length, chars_of, contains_char, to_ascii_upper};

#[test]
fn action_names() {
    assert_eq!(GameAction::StartGame.name(), "startGame");
    assert_eq!(GameAction::NextWord.name(), "nextWord");
    assert_eq!(GameAction::GuessWord.name(), "guessWord");
    assert_eq!(GameAction::GetResult.name(), "getResult");
    assert_eq!(GameAction::SubmitResult.name(), "submitResult");
}

#[test]
fn request_constructors() {
    let r = StartGameJson::new("p".to_string());
    assert_eq!(r.playerId, "p");
    assert_eq!(r.action, GameAction::StartGame);
    let r = NextWordJson::new("s".to_string());
    assert_eq!((r.sessionId.as_str(), r.action), ("s", GameAction::NextWord));
    let r = GetResultJson::new("s".to_string());
    assert_eq!((r.sessionId.as_str(), r.action), ("s", GameAction::GetResult));
    let r = SubmitResultJson::new("s".to_string());
    assert_eq!((r.sessionId.as_str(), r.action), ("s", GameAction::SubmitResult));
}

#[test]
fn settle_reply_prefers_the_reply_then_the_refusal() {
    let r: Result<u32, GameError> = settle_reply(Ok(5), None);
    assert!(matches!(r, Ok(5)));
    let r: Result<u32, GameError> =
        settle_reply(Err("bad json".to_string()), Some(ServerError { message: "no session".to_string() }));
    assert!(matches!(r, Err(GameError::ServerError(m)) if m == "no session"));
    let r: Result<u32, GameError> = settle_reply(Err("bad json".to_string()), None);
    assert!(matches!(r, Err(GameError::ParseJsonError(m)) if m == "bad json"));
}

#[test]
fn server_error_converts() {
    let e: GameError = ServerError { message: "m".to_string() }.into();
    assert!(matches!(e, GameError::ServerError(m) if m == "m"));
}

#[test]
fn format_dictionary_keeps_ascii_lines_upper_cased() {
    assert_eq!(format_dictionary("abc\nd\u{e9}f\nxy"), "\nABC\nXY");
    assert_eq!(format_dictionary(""), "\n");
    assert_eq!(format_dictionary("a\n"), "\nA\n");
    assert_eq!(format_dictionary("\u{e9}"), "");
    assert_eq!(format_dictionary("Mixed-Case 1\nz"), "\nMIXED-CASE 1\nZ");
}

#[test]
fn preprocess_decodes_windows_1251() {
    // 0xC0 is Cyrillic capital A in Windows-1251: that line is left out.
    let raw = [b'a', b'\n', 0xC0, b'\n', b'b'];
    assert_eq!(preprocess_dictionary(&raw), "\nA\nB");
    // 0xE0 is Cyrillic small a, not a Latin letter: kept out too.
    let raw = [0xE0, b'x', b'\n', b'y'];
    assert_eq!(preprocess_dictionary(&raw), "\nY");
}

#[test]
fn text_helpers() {
    assert_eq!(to_ascii_upper('q'), 'Q');
    assert_eq!(to_ascii_upper('Q'), 'Q');
    assert_eq!(to_ascii_upper('\u{e9}'), '\u{e9}');
    assert_eq!(byte_length("a\u{e9}"), 3);
    assert_eq!(chars_of("a\u{e9}"), vec!['a', '\u{e9}']);
    assert!(contains_char(&vec!['a', '*'], '*'));
    assert!(!contains_char(&vec!['a'], '*'));
}

#[test]
fn formatting_again_adds_one_newline() {
    for t in ["abc\nd\u{e9}f\nxy", "", "\u{e9}", "a\n\nb\n"] {
        let once = format_dictionary(t);
        assert_eq!(format_dictionary(&once), format!("\n{}", once));
        assert_eq!(preprocess_dictionary(once.as_bytes()), format!("\n{}", once));
    }
}
