//! Tamper-evident game-score records with a ranked leaderboard.
//!
//! The crate binds a reported score to a play session in two ways: a cheap
//! avalanche-mixed binding value for the constrained single-shot execution
//! path, and a hash-chain proof object for the host path.  Accepted records
//! feed a per-difficulty leaderboard with ranking and per-player statistics.

pub mod binding;
pub mod codec;
pub mod errors;
pub mod hashing;
pub mod leaderboard;
pub mod manager;
pub mod proofs;
pub mod text;

pub use binding::BindingOutput;
pub use errors::ScoreError;
pub use leaderboard::LeaderboardEntry;
pub use manager::{DifficultyStats, PlayerStats, ScoreManager, ScoreResponse, ScoreSubmission};
pub use proofs::{GameScore, ScoreProof};
