//! The installer's logic: glob explanations, config generation, profile
//! discovery parsing, the install plan, the command line, diffs, and the
//! wizard's state machine.

pub mod glob_help;
pub mod config;
pub mod discover;
pub mod plan;
pub mod cli;
pub mod diff;
pub mod wizard;
