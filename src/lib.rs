//! Finds local and remote git branches that were merged into a base branch
//! (including squash merges) and prepares their deletion.
//!
//! Talking to git is left to the caller: the library takes the text git
//! printed and returns the decisions and the commands to run.
pub mod branches;
pub mod classify;
pub mod commands;
pub mod error;
pub mod listing;
pub mod options;
pub mod pattern;
pub mod text;

pub use branches::Branches;
pub use error::Error;
pub use options::{DeleteMode, Options};
