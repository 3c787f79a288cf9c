//! The library's error values and the text each one displays as.
use vstd::prelude::*;
use crate::text::concat;

verus! {

/// What can go wrong in the workflows.
#[derive(Debug, Clone, PartialEq, Eq)]
pub enum AppError {
    Config(String),
    /// An I/O failure, carried as its message.
    Io(String),
    Network(String),
    /// A JSON (de)serialization failure, carried as its message.
    Json(String),
    ResponseParsing(String),
    FileUpdate(String),
    MaxAttemptsReached,
}

/// The build script exited with failure; `output` is what it printed.
#[derive(Debug, Clone, PartialEq, Eq)]
pub struct BuildFailure {
    pub output: String,
}

/// The text an `AppError` displays as.
pub open spec fn app_error_text(e: AppError) -> Seq<char> {
    match e {
        AppError::Config(m) => "Configuration Error: "@ + m@,
        AppError::Io(m) => "I/O Error: "@ + m@,
        AppError::Network(m) => "HTTP Request Error: "@ + m@,
        AppError::Json(m) => "JSON Serialization/Deserialization Error: "@ + m@,
        AppError::ResponseParsing(m) => "LLM Response Parsing Error: "@ + m@,
        AppError::FileUpdate(m) => "File Update Error: "@ + m@,
        AppError::MaxAttemptsReached => "The build did not pass after the maximum number of attempts."@,
    }
}

impl AppError {
    /// The message this error displays as.
    pub fn message(&self) -> (r: String)
        ensures
            r@ == app_error_text(*self),
    {
        match self {
            AppError::Config(m) => concat("Configuration Error: ", m.as_str()),
            AppError::Io(m) => concat("I/O Error: ", m.as_str()),
            AppError::Network(m) => concat("HTTP Request Error: ", m.as_str()),
            AppError::Json(m) => concat("JSON Serialization/Deserialization Error: ", m.as_str()),
            AppError::ResponseParsing(m) => concat("LLM Response Parsing Error: ", m.as_str()),
            AppError::FileUpdate(m) => concat("File Update Error: ", m.as_str()),
            AppError::MaxAttemptsReached => {
                "The build did not pass after the maximum number of attempts.".to_owned()
            },
        }
    }
}

impl BuildFailure {
    /// The message this failure displays as.
    pub fn message(&self) -> (r: String)
        ensures
            r@ == "Build script failed with output:\n"@ + self.output@,
    {
        concat("Build script failed with output:\n", self.output.as_str())
    }
}

} // verus!
