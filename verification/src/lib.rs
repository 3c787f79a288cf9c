pub mod text;
pub mod prompts;
pub mod error;
pub mod cli;
pub mod config;
pub mod build_report;
pub mod init;
pub mod consistency;
pub mod codebase_assembler;
pub mod paths;
pub mod sorting;
pub mod gitignore;
pub mod committing_code;
pub mod context_builder;
pub mod auto_workflow;
