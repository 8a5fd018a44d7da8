use vstd::prelude::*;

verus! {

/// The requests that the game server understands.
#[derive(Debug, Clone, Copy, PartialEq, Eq, Structural)]
pub enum GameAction {
    StartGame,
    NextWord,
    GuessWord,
    GetResult,
    SubmitResult,
}

/// The name under which the server knows an action.
pub open spec fn action_name(a: GameAction) -> Seq<char> {
    match a {
        GameAction::StartGame => "startGame"@,
        GameAction::NextWord => "nextWord"@,
        GameAction::GuessWord => "guessWord"@,
        GameAction::GetResult => "getResult"@,
        GameAction::SubmitResult => "submitResult"@,
    }
}

impl GameAction {
    /// The name that the action is sent as.
    pub fn name(&self) -> (s: &'static str)
        ensures
            s@ == action_name(*self),
    {
        match self {
            GameAction::StartGame => "startGame",
            GameAction::NextWord => "nextWord",
            GameAction::GuessWord => "guessWord",
            GameAction::GetResult => "getResult",
            GameAction::SubmitResult => "submitResult",
        }
    }
}

/// Distinct actions are sent under distinct names, so the server can tell them apart.
pub proof fn lemma_action_names_distinct(a: GameAction, b: GameAction)
    requires
        a != b,
    ensures
        action_name(a) != action_name(b),
{
    reveal_strlit("startGame");
    reveal_strlit("nextWord");
    reveal_strlit("guessWord");
    reveal_strlit("getResult");
    reveal_strlit("submitResult");
    assert(action_name(a)[0] != action_name(b)[0] || action_name(a)[1] != action_name(b)[1]
        || action_name(a).len() != action_name(b).len());
}

} // verus!
