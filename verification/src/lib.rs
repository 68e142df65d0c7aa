//! An in-memory ledger engine: accounts with exact balance arithmetic, an
//! append-only operations log with per-account lookup, multiple independent
//! ledgers behind a repository with a current-bank selector, a verified
//! command-line parser, and a command interpreter meant to run behind a
//! single serializing actor. The network transport and the rendering of
//! replies stay outside; they hand the engine typed commands and receive
//! typed replies.
//!
//! A few independent utility modules (slices, lists, matrices, pets, small
//! numeric helpers) live alongside the ledger.

pub mod account;
pub mod actor;
pub mod basics;
pub mod cat;
pub mod command;
pub mod ledger;
pub mod list;
pub mod log;
pub mod matrix;
pub mod repository;
pub mod slices;
pub mod text;
