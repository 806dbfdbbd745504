//! The error taxonomy shared by the codec, the integrity checks and the store.

use vstd::prelude::*;
use vstd::string::StringExecFns;

verus! {

/// Every way a submission or a raw input buffer can be turned away.
///
/// The codec reports `MalformedInput`; the single-shot integrity path reports
/// `ScoreOutOfRange`, `SessionIdZero` and `SessionTooOld`; host-side
/// submission checks report `EmptyPlayerId`, `ScoreZero`, `ScoreTooHigh` and
/// `InvalidDifficulty`; the store reports `CollisionError` for a duplicate
/// content hash.
#[derive(Clone, Copy, Debug, PartialEq, Eq, Structural)]
pub enum ScoreError {
    MalformedInput,
    ScoreOutOfRange,
    SessionIdZero,
    SessionTooOld,
    EmptyPlayerId,
    ScoreZero,
    ScoreTooHigh,
    InvalidDifficulty,
    CollisionError,
}

impl ScoreError {
    /// A human-readable account of the error, for callers that report it.
    pub fn message(&self) -> (r: String)
        ensures
            (match *self {
                ScoreError::MalformedInput => r@ == "Invalid input length"@,
                ScoreError::ScoreOutOfRange => r@ == "Invalid score: must be 1-1000"@,
                ScoreError::SessionIdZero => r@ == "Invalid game session ID"@,
                ScoreError::SessionTooOld => r@ == "Game session timestamp appears invalid"@,
                ScoreError::EmptyPlayerId => r@ == "Player ID cannot be empty"@,
                ScoreError::ScoreZero => r@ == "Score must be non-zero"@,
                ScoreError::ScoreTooHigh => r@ == "Score seems unreasonably high"@,
                ScoreError::InvalidDifficulty => r@ == "Invalid difficulty level"@,
                ScoreError::CollisionError => r@ == "Duplicate content hash"@,
            }),
    {
        match *self {
            ScoreError::MalformedInput => String::from_str("Invalid input length"),
            ScoreError::ScoreOutOfRange => String::from_str("Invalid score: must be 1-1000"),
            ScoreError::SessionIdZero => String::from_str("Invalid game session ID"),
            ScoreError::SessionTooOld => String::from_str(
                "Game session timestamp appears invalid",
            ),
            ScoreError::EmptyPlayerId => String::from_str("Player ID cannot be empty"),
            ScoreError::ScoreZero => String::from_str("Score must be non-zero"),
            ScoreError::ScoreTooHigh => String::from_str("Score seems unreasonably high"),
            ScoreError::InvalidDifficulty => String::from_str("Invalid difficulty level"),
            ScoreError::CollisionError => String::from_str("Duplicate content hash"),
        }
    }
}

} // verus!
