use vstd::prelude::*;

use crate::action::GameAction;
use crate::error::GameError;
use crate::guesser::HIDDEN;
use crate::protocol::{
    GetResultJson, GuessWordJson, GuessWordResponse, NextWordJson, NextWordResponse,
    StartGameJson, StartGameResponse, SubmitResultJson,
};
use crate::text::{ascii_upper, chars_of, contains_char, to_ascii_upper};

verus! {

/// The words that a game has.
pub const WORDS_PER_GAME: usize = 80;

/// The wrong guesses that a word allows.
pub const WRONG_GUESSES_ALLOWED: usize = 10;

/// Where a game stands.
#[derive(Debug, Clone, Copy, PartialEq, Eq, Structural)]
pub enum Status {
    Created,
    Guessing,
    Started,
    Failed,
    Complete,
    Finished,
}

/// What a game knows of itself.
pub struct GameView {
    pub player: Seq<char>,
    pub url: Seq<char>,
    pub status: Status,
    pub session: Option<Seq<char>>,
    pub wrong_count: usize,
    pub words_guessed: usize,
    pub word: Option<Seq<char>>,
}

/// One hangman game played against the server: the decisions between requests. Sending
/// a request and reading its reply is left to the caller.
pub struct Game {
    player_id: String,
    req_url: String,
    status: Status,
    session_id: Option<String>,
    current_wrong_count: usize,
    total_word_guessed: usize,
    pub current_word: Option<String>,
}

/// The view of an optional string.
pub open spec fn opt_str(s: Option<String>) -> Option<Seq<char>> {
    match s {
        Some(s) => Some(s@),
        None => None,
    }
}

impl View for Game {
    type V = GameView;

    closed spec fn view(&self) -> GameView {
        GameView {
            player: self.player_id@,
            url: self.req_url@,
            status: self.status,
            session: opt_str(self.session_id),
            wrong_count: self.current_wrong_count,
            words_guessed: self.total_word_guessed,
            word: opt_str(self.current_word),
        }
    }
}

/// A game has a session exactly when it has been started.
pub open spec fn game_wf(g: GameView) -> bool {
    g.status == Status::Created <==> g.session is None
}

/// The same game with another status.
pub open spec fn with_status(g: GameView, s: Status) -> GameView {
    GameView { status: s, ..g }
}

/// The error that `Game::guess` answers in a status other than `Guessing`.
pub open spec fn guess_refusal(s: Status) -> GameError {
    match s {
        Status::Failed => GameError::GuessFailed,
        Status::Created => GameError::GameNotStarted,
        Status::Started => GameError::CurrentNoWord,
        Status::Finished => GameError::GameFinished,
        _ => GameError::GuessComplete,
    }
}

/// What asking for the next word does to a game: the new state, and the refusal if
/// there is one (with none, the request is sent).
pub open spec fn next_word_decision(g: GameView) -> (GameView, Option<GameError>) {
    if g.status == Status::Created {
        (g, Some(GameError::GameNotStarted))
    } else if g.status == Status::Finished {
        (g, Some(GameError::GameFinished))
    } else if g.words_guessed == WORDS_PER_GAME {
        (with_status(g, Status::Finished), Some(GameError::GameFinished))
    } else {
        (g, None)
    }
}

/// A game that may be asked to guess has a current word when it is guessing with wrong
/// guesses left.
pub open spec fn word_known(g: GameView) -> bool {
    g.status == Status::Guessing && g.wrong_count != WRONG_GUESSES_ALLOWED ==> g.word is Some
}

/// What asking for a guess does to a game: the new state, and the refusal if there is
/// one (with none, the guess is sent).
pub open spec fn guess_decision(g: GameView) -> (GameView, Option<GameError>) {
    if g.status != Status::Guessing {
        (g, Some(guess_refusal(g.status)))
    } else if g.wrong_count == WRONG_GUESSES_ALLOWED {
        (with_status(g, Status::Failed), Some(GameError::GuessFailed))
    } else if !g.word->0.contains(HIDDEN) {
        (with_status(g, Status::Complete), Some(GameError::GuessComplete))
    } else {
        (g, None)
    }
}

/// No decision breaks the link between being started and having a session.
pub proof fn lemma_decisions_keep_wf(g: GameView)
    requires
        game_wf(g),
    ensures
        game_wf(next_word_decision(g).0),
        game_wf(guess_decision(g).0),
{
}

/// A finished game stays finished: asking for a word or a guess changes nothing and is
/// refused with `GameFinished`.
pub proof fn lemma_finished_is_final(g: GameView)
    requires
        g.status == Status::Finished,
    ensures
        next_word_decision(g) == (g, Some(GameError::GameFinished)),
        guess_decision(g) == (g, Some(GameError::GameFinished)),
{
}

/// A guess goes out only while guessing a word that still has wrong guesses left and a
/// hidden letter, and sending it changes nothing.
pub proof fn lemma_guess_sent_only_in_play(g: GameView)
    requires
        guess_decision(g).1 is None,
    ensures
        g.status == Status::Guessing,
        g.wrong_count != WRONG_GUESSES_ALLOWED,
        g.word->0.contains(HIDDEN),
        guess_decision(g).0 == g,
{
}

/// A refusal changes at most the status of the game.
pub proof fn lemma_refusals_change_only_status(g: GameView)
    ensures
        next_word_decision(g).0 == with_status(g, next_word_decision(g).0.status),
        guess_decision(g).0 == with_status(g, guess_decision(g).0.status),
{
}

/// Asking for the next word, by case: before the start it is refused with
/// `GameNotStarted`; once finished with `GameFinished`; after all the words of the game
/// have been played it finishes the game and is refused with `GameFinished`; otherwise
/// (guessing, or with a word found or failed) it goes out and changes nothing.
pub proof fn lemma_next_word_cases(g: GameView)
    ensures
        g.status == Status::Created ==> next_word_decision(g) == (g, Some(GameError::GameNotStarted)),
        g.status == Status::Finished ==> next_word_decision(g) == (g, Some(GameError::GameFinished)),
        g.status != Status::Created && g.status != Status::Finished && g.words_guessed
            == WORDS_PER_GAME ==> next_word_decision(g) == (GameView { status: Status::Finished, ..g },
        Some(GameError::GameFinished)),
        g.status != Status::Created && g.status != Status::Finished && g.words_guessed
            != WORDS_PER_GAME ==> next_word_decision(g) == (g, None::<GameError>),
{
}

/// While guessing with wrong guesses left, a guess is refused as complete exactly when no
/// letter of the current word is hidden: with a `*` at any position the guess goes out and
/// changes nothing; with none the word is complete.
pub proof fn lemma_guess_complete_iff_nothing_hidden(g: GameView)
    requires
        g.status == Status::Guessing,
        g.wrong_count != WRONG_GUESSES_ALLOWED,
        g.word is Some,
    ensures
        (exists|i: int| 0 <= i < g.word->0.len() && g.word->0[i] == '*') ==> guess_decision(g) == (
            g,
            None::<GameError>,
        ),
        (forall|i: int| 0 <= i < g.word->0.len() ==> g.word->0[i] != '*') ==> guess_decision(g) == (
            GameView { status: Status::Complete, ..g },
            Some(GameError::GuessComplete),
        ),
{
    let w = g.word->0;
    if exists|i: int| 0 <= i < w.len() && w[i] == '*' {
        let i = choose|i: int| 0 <= i < w.len() && w[i] == '*';
        assert(w.contains(HIDDEN));
    }
}

/// A guess is refused, by status: `GuessFailed` once failed, `GameNotStarted` before the
/// start, `CurrentNoWord` when started without a word, `GameFinished` once finished and
/// `GuessComplete` once the word is found; a refusal outside `Guessing` changes nothing.
/// While guessing, a word out of wrong guesses fails.
pub proof fn lemma_guess_refusals(g: GameView)
    ensures
        g.status == Status::Failed ==> guess_decision(g) == (g, Some(GameError::GuessFailed)),
        g.status == Status::Created ==> guess_decision(g) == (g, Some(GameError::GameNotStarted)),
        g.status == Status::Started ==> guess_decision(g) == (g, Some(GameError::CurrentNoWord)),
        g.status == Status::Finished ==> guess_decision(g) == (g, Some(GameError::GameFinished)),
        g.status == Status::Complete ==> guess_decision(g) == (g, Some(GameError::GuessComplete)),
        g.status == Status::Guessing && g.wrong_count == WRONG_GUESSES_ALLOWED ==> guess_decision(g)
            == (GameView { status: Status::Failed, ..g }, Some(GameError::GuessFailed)),
{
}

impl Game {
    pub fn new(req_url: String, player_id: String) -> (g: Game)
        ensures
            g@ == (GameView {
                player: player_id@,
                url: req_url@,
                status: Status::Created,
                session: None,
                wrong_count: 0,
                words_guessed: 0,
                word: None,
            }),
            game_wf(g@),
    {
        Game {
            req_url,
            status: Status::Created,
            session_id: None,
            current_word: None,
            current_wrong_count: 0,
            total_word_guessed: 0,
            player_id,
        }
    }

    /// The address that the requests go to.
    pub fn req_url(&self) -> (u: &String)
        ensures
            u@ == self@.url,
    {
        &self.req_url
    }

    /// Where the game stands.
    pub fn status(&self) -> (s: Status)
        ensures
            s == self@.status,
    {
        self.status
    }

    /// The wrong guesses made on the current word.
    pub fn wrong_count(&self) -> (n: usize)
        ensures
            n == self@.wrong_count,
    {
        self.current_wrong_count
    }

    /// Whether the game has a session.
    pub fn has_session(&self) -> (b: bool)
        ensures
            b == (self@.session is Some),
    {
        self.session_id.is_some()
    }

    /// Resumes a game under a known session, in the middle of a word.
    pub fn force_start(&mut self, session_id: String)
        ensures
            final(self)@ == (GameView {
                status: Status::Guessing,
                session: Some(session_id@),
                ..old(self)@
            }),
            game_wf(final(self)@),
    {
        self.status = Status::Guessing;
        self.session_id = Some(session_id);
    }

    /// Sets the word being guessed, as when resuming a game in the middle of a word.
    pub fn set_current_word(&mut self, w: String)
        ensures
            final(self)@ == (GameView { word: Some(w@), ..old(self)@ }),
    {
        self.current_word = Some(w);
    }

    /// The request that starts the game.
    pub fn start_request(&self) -> (r: StartGameJson)
        ensures
            r.playerId@ == self@.player,
            r.action == GameAction::StartGame,
    {
        StartGameJson::new(self.player_id.clone())
    }

    /// Takes the server's reply to `start_request`: the game is started under the session
    /// given.
    pub fn apply_start(&mut self, resp: StartGameResponse)
        ensures
            final(self)@ == (GameView {
                status: Status::Started,
                session: Some(resp.sessionId@),
                ..old(self)@
            }),
            game_wf(final(self)@),
    {
        self.session_id = Some(resp.sessionId);
        self.status = Status::Started;
    }

    /// The request for the next word, or the refusal and new state that
    /// `next_word_decision` gives.
    pub fn next_word_request(&mut self) -> (r: Result<NextWordJson, GameError>)
        requires
            game_wf(old(self)@),
        ensures
            final(self)@ == next_word_decision(old(self)@).0,
            match r {
                Ok(req) => next_word_decision(old(self)@).1 is None && Some(req.sessionId@)
                    == old(self)@.session && req.action == GameAction::NextWord,
                Err(e) => next_word_decision(old(self)@).1 == Some(e),
            },
    {
        match self.status {
            Status::Created => return Err(GameError::GameNotStarted),
            Status::Finished => return Err(GameError::GameFinished),
            _ => {},
        }
        if self.total_word_guessed == WORDS_PER_GAME {
            self.status = Status::Finished;
            return Err(GameError::GameFinished);
        }
        match &self.session_id {
            Some(s) => Ok(NextWordJson::new(s.clone())),
            None => {
                proof {
                    assert(false);
                }
                Err(GameError::GameNotStarted)
            },
        }
    }

    /// Takes the server's reply to `next_word_request`: the word, the counts and the session
    /// that it gives become the game's, which is then guessing.
    pub fn apply_next_word(&mut self, resp: NextWordResponse)
        ensures
            final(self)@ == (GameView {
                status: Status::Guessing,
                session: Some(resp.sessionId@),
                word: Some(resp.data.word@),
                wrong_count: resp.data.wrongGuessCountOfCurrentWord,
                words_guessed: resp.data.totalWordCount,
                ..old(self)@
            }),
            game_wf(final(self)@),
    {
        self.session_id = Some(resp.sessionId);
        self.current_word = Some(resp.data.word);
        self.status = Status::Guessing;
        self.current_wrong_count = resp.data.wrongGuessCountOfCurrentWord;
        self.total_word_guessed = resp.data.totalWordCount;
    }

    /// The request that guesses `character`, upper-cased, or the refusal and new state
    /// that `guess_decision` gives.
    pub fn guess_request(&mut self, character: char) -> (r: Result<GuessWordJson, GameError>)
        requires
            game_wf(old(self)@),
            word_known(old(self)@),
        ensures
            final(self)@ == guess_decision(old(self)@).0,
            match r {
                Ok(req) => guess_decision(old(self)@).1 is None && Some(req.sessionId@)
                    == old(self)@.session && req.action == GameAction::GuessWord && req.guess
                    == ascii_upper(character),
                Err(e) => guess_decision(old(self)@).1 == Some(e),
            },
    {
        match self.status {
            Status::Failed => return Err(GameError::GuessFailed),
            Status::Created => return Err(GameError::GameNotStarted),
            Status::Started => return Err(GameError::CurrentNoWord),
            Status::Finished => return Err(GameError::GameFinished),
            Status::Complete => return Err(GameError::GuessComplete),
            Status::Guessing => {},
        }
        if self.current_wrong_count == WRONG_GUESSES_ALLOWED {
            self.status = Status::Failed;
            return Err(GameError::GuessFailed);
        }
        let hidden_left = match &self.current_word {
            Some(w) => {
                let cs = chars_of(w.as_str());
                contains_char(&cs, HIDDEN)
            },
            None => false,
        };
        if !hidden_left {
            self.status = Status::Complete;
            return Err(GameError::GuessComplete);
        }
        let character = to_ascii_upper(character);
        match &self.session_id {
            Some(s) => Ok(
                GuessWordJson { sessionId: s.clone(), action: GameAction::GuessWord, guess: character },
            ),
            None => {
                proof {
                    assert(false);
                }
                Err(GameError::GameNotStarted)
            },
        }
    }

    /// Takes the server's reply to `guess_request`: the session and the wrong guess count
    /// that it gives become the game's; returns whether the word it gives differs from the
    /// current word, which it then replaces.
    pub fn apply_guess(&mut self, resp: GuessWordResponse) -> (changed: bool)
        requires
            game_wf(old(self)@),
            old(self)@.session is Some,
        ensures
            changed == (old(self)@.word != Some(resp.data.word@)),
            final(self)@ == (GameView {
                session: Some(resp.sessionId@),
                wrong_count: resp.data.wrongGuessCountOfCurrentWord,
                word: Some(resp.data.word@),
                ..old(self)@
            }),
            game_wf(final(self)@),
    {
        self.session_id = Some(resp.sessionId);
        self.current_wrong_count = resp.data.wrongGuessCountOfCurrentWord;
        let same = match &self.current_word {
            Some(w) => *w == resp.data.word,
            None => false,
        };
        if same {
            false
        } else {
            self.current_word = Some(resp.data.word);
            true
        }
    }

    /// The request for the game's result; refused with `GameNotStarted` before the start.
    pub fn get_result_request(&self) -> (r: Result<GetResultJson, GameError>)
        requires
            game_wf(self@),
        ensures
            self@.status == Status::Created ==> r == Err::<GetResultJson, GameError>(
                GameError::GameNotStarted,
            ),
            self@.status != Status::Created ==> match r {
                Ok(req) => Some(req.sessionId@) == self@.session && req.action
                    == GameAction::GetResult,
                Err(_) => false,
            },
    {
        if self.status == Status::Created {
            return Err(GameError::GameNotStarted);
        }
        match &self.session_id {
            Some(s) => Ok(GetResultJson::new(s.clone())),
            None => Err(GameError::GameNotStarted),
        }
    }

    /// The request that submits the game's result.
    pub fn submit_result_request(&self) -> (r: SubmitResultJson)
        requires
            self@.session is Some,
        ensures
            Some(r.sessionId@) == self@.session,
            r.action == GameAction::SubmitResult,
    {
        match &self.session_id {
            Some(s) => SubmitResultJson::new(s.clone()),
            None => SubmitResultJson::new(String::new()),
        }
    }
}

} // verus!
