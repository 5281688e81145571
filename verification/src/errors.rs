//! The ways in which an operation on a game is turned down.
use vstd::prelude::*;

verus! {

/// Why an operation was turned down. A game is left as it was by an operation
/// that fails.
#[derive(Clone, Copy, Debug, PartialEq, Eq, Structural)]
pub enum GameError {
    /// No game has the given number.
    NotFound,
    /// The game has started and takes no more players.
    AlreadyStarted,
    /// The game has not started and no card can be drawn yet.
    NotStarted,
    /// It is another player's turn.
    OutOfTurn,
    /// The beacon's verifier did not confirm the signature for the round.
    VerificationFailed,
}

impl GameError {
    /// The words in which the error is reported.
    pub fn message(&self) -> (text: &'static str)
        ensures
            text@ == self.spec_message(),
    {
        match self {
            GameError::NotFound => "no such game",
            GameError::AlreadyStarted => "game started",
            GameError::NotStarted => "game not started",
            GameError::OutOfTurn => "out of turn",
            GameError::VerificationFailed => "drand verification failed",
        }
    }

    /// The words in which the error is reported.
    pub open spec fn spec_message(&self) -> Seq<char> {
        match self {
            GameError::NotFound => "no such game"@,
            GameError::AlreadyStarted => "game started"@,
            GameError::NotStarted => "game not started"@,
            GameError::OutOfTurn => "out of turn"@,
            GameError::VerificationFailed => "drand verification failed"@,
        }
    }
}

} // verus!
