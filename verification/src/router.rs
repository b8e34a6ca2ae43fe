//! The link router: glob matching, routing decisions, and what one
//! invocation launches and logs.

pub mod glob;
pub mod config;
pub mod launch;
