use vstd::prelude::*;

use crate::action::GameAction;

verus! {

/// The request that starts a game for a player.
#[allow(non_snake_case)]
pub struct StartGameJson {
    pub playerId: String,
    pub action: GameAction,
}

impl StartGameJson {
    pub fn new(player_id: String) -> (r: StartGameJson)
        ensures
            r.playerId@ == player_id@,
            r.action == GameAction::StartGame,
    {
        StartGameJson { playerId: player_id, action: GameAction::StartGame }
    }
}

/// The reply to `StartGameJson`.
#[allow(non_snake_case)]
pub struct StartGameResponse {
    pub message: String,
    pub sessionId: String,
    pub data: StartGameResponseData,
}

#[allow(non_snake_case)]
pub struct StartGameResponseData {
    pub numberOfWordsToGuess: isize,
    pub numberOfGuessAllowedForEachWord: isize,
}

/// The request for the next word of a game.
#[allow(non_snake_case)]
pub struct NextWordJson {
    pub sessionId: String,
    pub action: GameAction,
}

impl NextWordJson {
    pub fn new(session_id: String) -> (r: NextWordJson)
        ensures
            r.sessionId@ == session_id@,
            r.action == GameAction::NextWord,
    {
        NextWordJson { sessionId: session_id, action: GameAction::NextWord }
    }
}

/// The reply to `NextWordJson`.
#[allow(non_snake_case)]
pub struct NextWordResponse {
    pub sessionId: String,
    pub data: NextWordResponseData,
}

#[allow(non_snake_case)]
pub struct NextWordResponseData {
    pub word: String,
    pub totalWordCount: usize,
    pub wrongGuessCountOfCurrentWord: usize,
}

/// The request that guesses a letter of the current word.
#[allow(non_snake_case)]
pub struct GuessWordJson {
    pub sessionId: String,
    pub action: GameAction,
    pub guess: char,
}

/// The reply to `GuessWordJson`.
#[allow(non_snake_case)]
pub struct GuessWordResponse {
    pub sessionId: String,
    pub data: GuessWordResponseData,
}

#[allow(non_snake_case)]
pub struct GuessWordResponseData {
    pub word: String,
    pub totalWordCount: usize,
    pub wrongGuessCountOfCurrentWord: usize,
}

/// The request for the result of a game.
#[allow(non_snake_case)]
pub struct GetResultJson {
    pub sessionId: String,
    pub action: GameAction,
}

impl GetResultJson {
    pub fn new(session_id: String) -> (r: GetResultJson)
        ensures
            r.sessionId@ == session_id@,
            r.action == GameAction::GetResult,
    {
        GetResultJson { sessionId: session_id, action: GameAction::GetResult }
    }
}

/// The reply to `GetResultJson`.
#[allow(non_snake_case)]
pub struct GetResultResponse {
    pub sessionId: String,
    pub data: GetResultResponseData,
}

#[allow(non_snake_case)]
pub struct GetResultResponseData {
    pub totalWordCount: isize,
    pub correctWordCount: isize,
    pub totalWrongGuessCount: isize,
    pub score: isize,
}

/// The request that submits the result of a game.
#[allow(non_snake_case)]
pub struct SubmitResultJson {
    pub sessionId: String,
    pub action: GameAction,
}

impl SubmitResultJson {
    pub fn new(session_id: String) -> (r: SubmitResultJson)
        ensures
            r.sessionId@ == session_id@,
            r.action == GameAction::SubmitResult,
    {
        SubmitResultJson { sessionId: session_id, action: GameAction::SubmitResult }
    }
}

/// The reply to `SubmitResultJson`.
#[allow(non_snake_case)]
pub struct SubmitResultResponse {
    pub message: String,
    pub sessionId: String,
    pub data: SubmitResultResponseData,
}

#[allow(non_snake_case)]
pub struct SubmitResultResponseData {
    pub playerId: String,
    pub sessionId: String,
    pub totalWordCount: usize,
    pub correctWordCount: usize,
    pub totalWrongGuessCount: usize,
    pub score: usize,
    pub datetime: String,
}

/// What the server answers when it refuses a request.
pub struct ServerError {
    pub message: String,
}

} // verus!
