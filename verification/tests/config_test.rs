use code_commit::cli::{CliArgs, Model, Workflow};
use code_commit::committing_code::git_status::verify_gitignore_protection;
use code_commit::config::{Config, FileRead};
use code_commit::error::AppError;
use code_commit::prompts::COMMITTING_CODE_INITIAL_QUERY;

fn gitignore(content: &str) -> FileRead {
    FileRead::Content(content.to_string())
}

fn key(content: &str) -> Result<String, String> {
    Ok(content.to_string())
}

fn args(model: Model, workflow: Workflow) -> CliArgs {
    CliArgs { model, workflow, force: false, light_roll: false }
}

#[test]
fn test_config_implements_debug() {
    let cfg = Config {
        model: Model::Gemini3Pro,
        api_key: "k".to_string(),
        query: "q".to_string(),
        system_prompts: "s".to_string(),
    };
    let debug_str = format!("{:?}", cfg);
    assert!(debug_str.contains("api_key"));
}

#[test]
fn test_load_config_commit_code_workflow() {
    let a = args(Model::Gemini3Pro, Workflow::CommitCode);
    let config = Config::load_from_dir(&a, &gitignore("/agent-config"), &key("gemini-key-123"), "test query".to_string()).unwrap();
    assert_eq!(config.api_key, "gemini-key-123");
    assert_eq!(config.query, "test query");
    assert!(!config.system_prompts.contains("refactor"));
}

#[test]
fn test_load_config_gemini2_5_pro_workflow() {
    let a = args(Model::Gemini2_5Pro, Workflow::CommitCode);
    let config = Config::load_from_dir(&a, &gitignore("/agent-config"), &key("gemini-key-123"), "test query for gemini 2.5".to_string()).unwrap();
    assert_eq!(config.api_key, "gemini-key-123");
    assert_eq!(config.query, "test query for gemini 2.5");
}

#[test]
fn test_load_config_consistency_check_with_query() {
    let a = args(Model::default(), Workflow::ConsistencyCheck);
    let config = Config::load_from_dir(&a, &gitignore("/agent-config"), &key("gemini-key-123"), "check consistency".to_string()).unwrap();
    assert_eq!(config.query, "check consistency");
}

#[test]
fn test_load_config_consistency_check_without_query() {
    let a = args(Model::default(), Workflow::ConsistencyCheck);
    let config = Config::load_from_dir(&a, &gitignore("/agent-config"), &key("gemini-key-123"), "".to_string()).unwrap();
    assert_eq!(config.query, "");
}

#[test]
fn test_load_config_gitignore_missing_agent_config() {
    let a = args(Model::default(), Workflow::default());
    let result = Config::load_from_dir(&a, &gitignore("target/"), &key("gemini-key-123"), "q".to_string());
    let error_msg = result.unwrap_err().message();
    assert!(error_msg.contains("Your .gitignore file must contain the line '/agent-config'"));
}

#[test]
fn test_gitignore_with_trailing_slash() {
    let a = args(Model::Gemini2_5Pro, Workflow::CommitCode);
    let config_result = Config::load_from_dir(&a, &gitignore("agent-config/"), &key("gemini-key-123"), "q".to_string());
    assert!(config_result.is_ok());
}

#[test]
fn test_load_config_missing_gitignore() {
    let a = args(Model::default(), Workflow::default());
    let result = Config::load_from_dir(&a, &FileRead::NotFound, &key("gemini-key-123"), "q".to_string());
    assert!(result.unwrap_err().message().contains("'.gitignore' file not found"));
}

#[test]
fn test_load_config_missing_api_key_file() {
    let a = args(Model::Gemini2_5Pro, Workflow::default());
    let result = Config::load_from_dir(&a, &gitignore("/agent-config"), &Err("No such file or directory (os error 2)".to_string()), "q".to_string());
    assert!(result.unwrap_err().message().contains("Failed to read file 'agent-config/gemini-key.txt'"));
}

#[test]
fn test_load_from_dir_commit_code_success() {
    let a = args(Model::Gemini3Pro, Workflow::CommitCode);
    let config = Config::load_from_dir(&a, &gitignore("/agent-config\n"), &key("secret-key"), "my query".to_string()).unwrap();
    assert_eq!(config.api_key, "secret-key");
    assert_eq!(config.query, "my query");
    assert_eq!(config.system_prompts.as_str(), COMMITTING_CODE_INITIAL_QUERY);
}

#[test]
fn test_load_from_dir_gemini_2_5_pro_success() {
    let a = args(Model::Gemini2_5Pro, Workflow::CommitCode);
    let config = Config::load_from_dir(&a, &gitignore("/agent-config\n"), &key("secret-2.5"), "query".to_string()).unwrap();
    assert_eq!(config.api_key, "secret-2.5");
    assert_eq!(config.query, "query");
}

#[test]
fn test_load_from_dir_consistency_check_success() {
    let a = args(Model::Gemini3Pro, Workflow::ConsistencyCheck);
    let config = Config::load_from_dir(&a, &gitignore("/agent-config\n"), &key("secret-key"), "query".to_string()).unwrap();
    assert_eq!(config.api_key, "secret-key");
    assert!(!config.system_prompts.is_empty());
}

#[test]
fn test_load_from_dir_auto_workflow_success() {
    let a = args(Model::Gemini3Pro, Workflow::Auto);
    let config = Config::load_from_dir(&a, &gitignore("/agent-config\n"), &key("gemini-secret-auto"), "".to_string()).unwrap();
    assert_eq!(config.api_key, "gemini-secret-auto");
    assert_eq!(config.query, "");
    assert!(config.system_prompts.is_empty());
}

#[test]
fn test_load_from_dir_gpt5_success() {
    let a = args(Model::Gpt5, Workflow::CommitCode);
    let config = Config::load_from_dir(&a, &gitignore("/agent-config\n"), &key("openai-secret"), "q".to_string()).unwrap();
    assert_eq!(config.api_key, "openai-secret");
    assert_eq!(code_commit::config::api_key_path(Model::Gpt5), "agent-config/openai-key.txt");
}

#[test]
fn test_load_from_dir_rollup_returns_error() {
    let a = args(Model::Gemini3Pro, Workflow::Rollup);
    let result = Config::load_from_dir(&a, &gitignore("/agent-config\n"), &key("key"), "".to_string());
    assert!(matches!(result, Err(AppError::Config(_))));
}

#[test]
fn test_load_from_dir_missing_gitignore() {
    let a = args(Model::Gemini3Pro, Workflow::CommitCode);
    let result = Config::load_from_dir(&a, &FileRead::NotFound, &key("key"), "query".to_string());
    assert!(matches!(result, Err(AppError::Config(_))));
}

#[test]
fn test_load_from_dir_insecure_gitignore() {
    let a = args(Model::Gemini3Pro, Workflow::CommitCode);
    let result = Config::load_from_dir(&a, &gitignore("target/\n"), &key("key"), "query".to_string());
    assert!(matches!(result, Err(AppError::Config(_))));
}

#[test]
fn key_is_trimmed_and_load_picks_the_query() {
    let a = args(Model::Gemini3Pro, Workflow::Auto);
    let config = Config::load(&a, Some("ignored".to_string()), &gitignore("x\n /agent-config \n"), &key("  k \n")).unwrap();
    assert_eq!(config.api_key, "k");
    assert_eq!(config.query, "");
    let a = args(Model::Gemini3Pro, Workflow::CommitCode);
    let config = Config::load(&a, Some("do it".to_string()), &gitignore("/agent-config"), &key("k")).unwrap();
    assert_eq!(config.query, "do it");
}

#[test]
fn test_gitignore_protection_valid() {
    assert!(verify_gitignore_protection(&gitignore("target/\n/agent-config")).is_ok());
}

#[test]
fn test_gitignore_protection_valid_trailing_slash() {
    assert!(verify_gitignore_protection(&gitignore("target/\nagent-config/")).is_ok());
}

#[test]
fn test_gitignore_protection_invalid_missing() {
    match verify_gitignore_protection(&gitignore("target/")) {
        Err(AppError::Config(msg)) => assert!(msg.contains("missing a line for '/agent-config'")),
        _ => panic!("Expected Config error"),
    }
}

#[test]
fn test_gitignore_protection_file_missing() {
    match verify_gitignore_protection(&FileRead::NotFound) {
        Err(AppError::Config(msg)) => assert!(msg.contains(".gitignore file is missing")),
        _ => panic!("Expected Config error"),
    }
}
