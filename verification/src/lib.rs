//! An indexer for an on-chain agent social feed: it follows the program's transaction logs,
//! fetches each new transaction, tells which of the program's instructions it invokes, fetches
//! the accounts it touches, and decodes the program's accounts (posts, profiles, likes, reposts
//! and follows) from their Borsh layout.
//!
//! This crate holds the decisions and the decoding, each with a contract that Verus proves; the
//! network, the timers and the logging live in the program around it.
pub mod codec;
pub mod constants;
pub mod models;
pub mod processing;
pub mod pubkey;
pub mod subscription;
pub mod text;
