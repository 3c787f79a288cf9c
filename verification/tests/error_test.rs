use code_commit::error::{AppError, BuildFailure};

#[test]
fn test_build_failure_display() {
    let err = BuildFailure { output: "compilation failed".to_string() };
    assert_eq!(err.message(), "Build script failed with output:\ncompilation failed");
}

#[test]
fn app_error_messages() {
    assert_eq!(AppError::Config("missing file".to_string()).message(), "Configuration Error: missing file");
    assert_eq!(AppError::Io("disk".to_string()).message(), "I/O Error: disk");
    assert_eq!(AppError::Network("down".to_string()).message(), "HTTP Request Error: down");
    assert_eq!(
        AppError::Json("bad".to_string()).message(),
        "JSON Serialization/Deserialization Error: bad"
    );
    assert_eq!(
        AppError::ResponseParsing("no block".to_string()).message(),
        "LLM Response Parsing Error: no block"
    );
    assert_eq!(AppError::FileUpdate("denied".to_string()).message(), "File Update Error: denied");
    assert_eq!(
        AppError::MaxAttemptsReached.message(),
        "The build did not pass after the maximum number of attempts."
    );
}
