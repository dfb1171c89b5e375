//! Compiles the commands typed at a shell prompt into a reusable script.
//!
//! A build session records the target script and the prompts the user
//! answered; the history parser turns the shell history together with those
//! prompts into the lines of the finished script.

pub mod error;
pub mod text;
pub mod config;
pub mod script;
pub mod history_parser;
