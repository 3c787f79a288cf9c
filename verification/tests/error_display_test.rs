use code_commit::committing_code::response_parser::parse_llm_response;
use code_commit::context_builder::response_parser::parse_context_llm_response;
use code_commit::error::AppError;

#[test]
fn test_config_error_display() {
    let err = AppError::Config("missing file".to_string());
    assert_eq!(err.message(), "Configuration Error: missing file");
}

#[test]
fn test_io_error_display() {
    let err = AppError::Io("file not found".to_string());
    let msg = err.message();
    assert!(msg.starts_with("I/O Error: "));
    assert!(msg.contains("file not found"));
}

#[test]
fn test_network_error_display() {
    let err = AppError::Network("timeout".to_string());
    assert_eq!(err.message(), "HTTP Request Error: timeout");
}

#[test]
fn test_json_error_display() {
    let err_result: Result<serde_json::Value, _> = serde_json::from_str("{invalid");
    let json_err = err_result.unwrap_err();
    let err = AppError::Json(json_err.to_string());
    assert!(err.message().starts_with("JSON Serialization/Deserialization Error: "));
}

#[test]
fn test_response_parsing_error_display() {
    let err = AppError::ResponseParsing("bad format".to_string());
    assert_eq!(err.message(), "LLM Response Parsing Error: bad format");
}

#[test]
fn test_file_update_error_display() {
    let err = AppError::FileUpdate("access denied".to_string());
    assert_eq!(err.message(), "File Update Error: access denied");
}

#[test]
fn test_max_attempts_error_display() {
    let err = AppError::MaxAttemptsReached;
    assert_eq!(err.message(), "The build did not pass after the maximum number of attempts.");
}

#[test]
fn errors_when_no_markers_present() {
    let err = parse_context_llm_response("no markers in here").unwrap_err();
    match err {
        AppError::ResponseParsing(msg) => {
            assert!(msg.contains("Could not find '%%%files'...'%%%end' block"), "unexpected msg: {msg}");
        }
        other => panic!("expected ResponseParsing, got {}", other.message()),
    }
}

#[test]
fn errors_when_end_without_files() {
    let err = parse_context_llm_response("%%%end").unwrap_err();
    match err {
        AppError::ResponseParsing(msg) => {
            assert!(msg.contains("Found '%%%end' without a preceding '%%%files'"), "unexpected msg: {msg}");
        }
        other => panic!("expected ResponseParsing, got {}", other.message()),
    }
}

#[test]
fn errors_when_files_without_end() {
    let input = "\
%%%files
src/main.rs
";
    let err = parse_context_llm_response(input).unwrap_err();
    match err {
        AppError::ResponseParsing(msg) => {
            assert!(msg.contains("Found '%%%files' but no matching '%%%end'"), "unexpected msg: {msg}");
        }
        other => panic!("expected ResponseParsing, got {}", other.message()),
    }
}

#[test]
fn errors_when_filename_is_missing() {
    let input = "\
^^^
some content
^^^end
";
    let err = parse_llm_response(input).unwrap_err();
    match err {
        AppError::ResponseParsing(msg) => {
            assert!(msg.contains("Found '^^^' without a filename"), "unexpected message: {msg}");
        }
        other => panic!("expected ResponseParsing, got {}", other.message()),
    }
}
