//! Building the model's context: which files it asked for, which of them
//! may be read, and the summary of the project it chooses from.
pub mod path_filter;
pub mod response_parser;
pub mod summary_builder;
pub mod context;
