pub mod levels;
pub mod types;
pub mod file_updater;
pub mod executor;
pub mod graph;
pub mod discovery;
pub mod prompt_builder;
