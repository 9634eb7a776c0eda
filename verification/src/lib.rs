//! Automation library for a remote interactive text-game session.
//!
//! The crate holds the verified core of the automation: the account store and
//! its scheduling rules, the credential encryption boundary, the wire-frame
//! codec for the Engine.IO-style transport, and the prompt-matching state
//! machine that drives one game session to a classified outcome.

pub mod clock;
pub mod crypto;
pub mod db;
pub mod frames;
pub mod json;
pub mod scheduler;
pub mod seqs;
pub mod servers;
pub mod session;
pub mod text;
