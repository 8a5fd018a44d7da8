use vstd::prelude::*;

use crate::error::GameError;
use crate::text::{byte_length, utf8_len};

verus! {

/// How many failed HTTP exchanges in a row are retried before giving up.
pub const RETRY_LIMIT: usize = 10;

/// What to do after an attempt to guess a letter of the current word.
#[derive(Debug, Clone, Copy, PartialEq, Eq, Structural)]
pub enum WordStep {
    /// Ask the guesser for the next letter.
    NextLetter,
    /// Send the same letter again.
    Resend,
    /// The word is over (found, or out of wrong guesses): go on with the next word.
    WordDone,
    /// Stop playing.
    Quit,
}

/// What to do after an attempt to get the next word.
#[derive(Debug, Clone, Copy, PartialEq, Eq, Structural)]
pub enum GameStep {
    /// Play the word just received.
    Play,
    /// Ask for the next word again.
    Retry,
    /// The game is over: show its result and offer to submit it.
    Finish,
    /// Stop playing.
    Quit,
}

/// The step after a guess, with the new count of failed exchanges. A guess that went
/// through asks for the next letter; a word found or failed is done; a failed exchange is
/// retried (by sending the same letter again when `resend` holds, by asking the guesser
/// again otherwise) until more than `RETRY_LIMIT` have failed; any other error quits.
pub open spec fn guess_step(retries: usize, resend: bool, outcome: Result<bool, GameError>) -> (
    usize,
    WordStep,
) {
    match outcome {
        Ok(_) => (retries, WordStep::NextLetter),
        Err(GameError::GuessFailed) => (retries, WordStep::WordDone),
        Err(GameError::GuessComplete) => (retries, WordStep::WordDone),
        Err(GameError::HttpError(_)) => if retries + 1 > RETRY_LIMIT {
            ((retries + 1) as usize, WordStep::Quit)
        } else if resend {
            ((retries + 1) as usize, WordStep::Resend)
        } else {
            ((retries + 1) as usize, WordStep::NextLetter)
        },
        Err(_) => (retries, WordStep::Quit),
    }
}

/// The step after asking for the next word, with the new count of failed exchanges: a word
/// received is played; a finished game is finished; a failed exchange is retried until more
/// than `RETRY_LIMIT` have failed; any other error quits.
pub open spec fn next_word_step(retries: usize, outcome: Result<(), GameError>) -> (
    usize,
    GameStep,
) {
    match outcome {
        Ok(_) => (retries, GameStep::Play),
        Err(GameError::GameFinished) => (retries, GameStep::Finish),
        Err(GameError::HttpError(_)) => if retries + 1 > RETRY_LIMIT {
            ((retries + 1) as usize, GameStep::Quit)
        } else {
            ((retries + 1) as usize, GameStep::Retry)
        },
        Err(_) => (retries, GameStep::Quit),
    }
}

/// Decides the step after a guess (see `guess_step`).
pub fn after_guess(retries: usize, resend: bool, outcome: &Result<bool, GameError>) -> (r: (
    usize,
    WordStep,
))
    requires
        retries <= RETRY_LIMIT,
    ensures
        r == guess_step(retries, resend, *outcome),
{
    match outcome {
        Ok(_) => (retries, WordStep::NextLetter),
        Err(GameError::GuessFailed) => (retries, WordStep::WordDone),
        Err(GameError::GuessComplete) => (retries, WordStep::WordDone),
        Err(GameError::HttpError(_)) => {
            let n = retries + 1;
            if n > RETRY_LIMIT {
                (n, WordStep::Quit)
            } else if resend {
                (n, WordStep::Resend)
            } else {
                (n, WordStep::NextLetter)
            }
        },
        Err(_) => (retries, WordStep::Quit),
    }
}

/// Decides the step after asking for the next word (see `next_word_step`).
pub fn after_next_word(retries: usize, outcome: &Result<(), GameError>) -> (r: (usize, GameStep))
    requires
        retries <= RETRY_LIMIT,
    ensures
        r == next_word_step(retries, *outcome),
{
    match outcome {
        Ok(_) => (retries, GameStep::Play),
        Err(GameError::GameFinished) => (retries, GameStep::Finish),
        Err(GameError::HttpError(_)) => {
            let n = retries + 1;
            if n > RETRY_LIMIT {
                (n, GameStep::Quit)
            } else {
                (n, GameStep::Retry)
            }
        },
        Err(_) => (retries, GameStep::Quit),
    }
}

/// A word shorter than `jump` bytes is skipped rather than played.
pub fn skip_word(word: &str, jump: usize) -> (b: bool)
    ensures
        b == (utf8_len(word@) < jump),
{
    byte_length(word) < jump
}

/// The result is submitted only when the first char of the answer is `y`.
pub fn wants_submit(answer: Option<char>) -> (b: bool)
    ensures
        b == (answer == Some('y')),
{
    match answer {
        Some(c) => c == 'y',
        None => false,
    }
}

/// Retrying stays bounded: a step that goes on playing leaves at most `RETRY_LIMIT` failed
/// exchanges counted, and the count only grows by one, on a failed exchange.
pub proof fn lemma_retries_bounded(retries: usize, resend: bool, g: Result<bool, GameError>, n: Result<(), GameError>)
    requires
        retries <= RETRY_LIMIT,
    ensures
        guess_step(retries, resend, g).1 != WordStep::Quit ==> guess_step(retries, resend, g).0 <= RETRY_LIMIT,
        next_word_step(retries, n).1 != GameStep::Quit ==> next_word_step(retries, n).0 <= RETRY_LIMIT,
        guess_step(retries, resend, g).0 == retries || (g matches Err(GameError::HttpError(_))
            && guess_step(retries, resend, g).0 == retries + 1),
        next_word_step(retries, n).0 == retries || (n matches Err(GameError::HttpError(_))
            && next_word_step(retries, n).0 == retries + 1),
{
}

/// Only a failed exchange is retried: every other error ends the word or the game.
pub proof fn lemma_only_http_errors_retry(retries: usize, resend: bool, g: Result<bool, GameError>, n: Result<(), GameError>)
    ensures
        guess_step(retries, resend, g).1 == WordStep::Resend ==> g matches Err(GameError::HttpError(_)),
        next_word_step(retries, n).1 == GameStep::Retry ==> n matches Err(GameError::HttpError(_)),
        g matches Err(e) && !(e matches GameError::HttpError(_)) ==> guess_step(retries, resend, g).1 == WordStep::WordDone || guess_step(retries, resend, g).1 == WordStep::Quit,
{
}

/// Every outcome of a guess, by case: a guess that went through, right or wrong, goes on
/// with the guesser's next letter and leaves the count alone; a word found or failed is
/// done; a failed exchange counts one more and is retried (by the same letter with
/// `resend`, by the next letter without) until more than `RETRY_LIMIT` have failed, then
/// quits; any other error quits.
pub proof fn lemma_guess_outcomes(retries: usize, resend: bool, b: bool, msg: String, e: GameError)
    requires
        retries <= RETRY_LIMIT,
    ensures
        guess_step(retries, resend, Ok(b)) == (retries, WordStep::NextLetter),
        guess_step(retries, resend, Err(GameError::GuessFailed)) == (retries, WordStep::WordDone),
        guess_step(retries, resend, Err(GameError::GuessComplete)) == (retries, WordStep::WordDone),
        retries + 1 <= RETRY_LIMIT && resend ==> guess_step(retries, resend, Err(GameError::HttpError(msg)))
            == ((retries + 1) as usize, WordStep::Resend),
        retries + 1 <= RETRY_LIMIT && !resend ==> guess_step(retries, resend, Err(GameError::HttpError(msg)))
            == ((retries + 1) as usize, WordStep::NextLetter),
        retries + 1 > RETRY_LIMIT ==> guess_step(retries, resend, Err(GameError::HttpError(msg)))
            == ((retries + 1) as usize, WordStep::Quit),
        !(e is GuessFailed) && !(e is GuessComplete) && !(e is HttpError) ==> guess_step(
            retries,
            resend,
            Err(e),
        ) == (retries, WordStep::Quit),
{
}

/// Every outcome of asking for the next word, by case: a word received is played, a
/// finished game is finished, both with the count left alone; a failed exchange counts one
/// more and is retried until more than `RETRY_LIMIT` have failed, then quits; any other
/// error quits.
pub proof fn lemma_next_word_outcomes(retries: usize, msg: String, e: GameError)
    requires
        retries <= RETRY_LIMIT,
    ensures
        next_word_step(retries, Ok(())) == (retries, GameStep::Play),
        next_word_step(retries, Err(GameError::GameFinished)) == (retries, GameStep::Finish),
        retries + 1 <= RETRY_LIMIT ==> next_word_step(retries, Err(GameError::HttpError(msg))) == (
            (retries + 1) as usize,
            GameStep::Retry,
        ),
        retries + 1 > RETRY_LIMIT ==> next_word_step(retries, Err(GameError::HttpError(msg))) == (
            (retries + 1) as usize,
            GameStep::Quit,
        ),
        !(e is GameFinished) && !(e is HttpError) ==> next_word_step(retries, Err(e)) == (
            retries,
            GameStep::Quit,
        ),
{
}

} // verus!
