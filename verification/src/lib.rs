//! Link routing for Firefox profiles: glob matching, routing decisions, the
//! debug log, and the installer's planning logic and wizard.

pub mod text;
pub mod strmap;
pub mod paths;
pub mod router;
pub mod installer;
