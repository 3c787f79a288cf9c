//! The committing-code workflow: the model proposes file changes, they are
//! checked against the protection rules and applied, and the build decides
//! whether another round is needed.
pub mod response_parser;
pub mod file_updater;
pub mod prompts;
pub mod workflow;
pub mod git_status;
