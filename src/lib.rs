//! A single-secret commit-reveal guessing game.
//!
//! An organiser publishes a salted 16-byte digest of a secret byte, players
//! submit one named guess each, and revealing the secret together with its salt
//! names the first player whose guess opens the published commitment.
pub mod commitment;
pub mod game;

pub use commitment::{digests_equal, first_opening, hash_with_salt};
pub use game::{AccountId, GuessError, GuessSecret};
