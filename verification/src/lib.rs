//! A round-based multiplayer number-guessing session manager.
//!
//! Clients join a shared contest, guess a secret number drawn for each
//! round, and accumulate wins across a bounded number of rounds. This
//! crate holds the verified core: the session state, admission rules,
//! player registry, guess resolution, round lifecycle, and standings.
//! Transport plumbing lives outside the library.

pub mod connection;
pub mod game;
pub mod parse;
mod secret;
pub mod standings;
