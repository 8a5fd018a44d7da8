use vstd::prelude::*;

use crate::protocol::ServerError;

verus! {

/// Why a game operation failed.
#[derive(Debug)]
pub enum GameError {
    GameFinished,
    GameNotStarted,
    GuessFailed,
    GuessComplete,
    CurrentNoWord,
    ServerError(String),
    HttpError(String),
    ParseJsonError(String),
    OtherError(String),
}

impl From<ServerError> for GameError {
    fn from(e: ServerError) -> (r: GameError) {
        GameError::ServerError(e.message)
    }
}

impl vstd::std_specs::convert::FromSpecImpl<ServerError> for GameError {
    open spec fn obeys_from_spec() -> bool {
        true
    }

    open spec fn from_spec(e: ServerError) -> GameError {
        GameError::ServerError(e.message)
    }
}

/// The outcome of a request whose reply was read: the reply itself, or else the server's
/// refusal when the reply reads as one, or else the failure to read the reply.
pub fn settle_reply<T>(reply: Result<T, String>, refusal: Option<ServerError>) -> (r: Result<
    T,
    GameError,
>)
    ensures
        match reply {
            Ok(t) => r == Ok::<T, GameError>(t),
            Err(msg) => match refusal {
                Some(e) => r == Err::<T, GameError>(GameError::ServerError(e.message)),
                None => r == Err::<T, GameError>(GameError::ParseJsonError(msg)),
            },
        },
{
    match reply {
        Ok(t) => Ok(t),
        Err(msg) => match refusal {
            Some(e) => Err(GameError::from(e)),
            None => Err(GameError::ParseJsonError(msg)),
        },
    }
}

} // verus!
