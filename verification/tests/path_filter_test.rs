use code_commit::context_builder::path_filter::PathFilter;
use code_commit::error::AppError;

fn setup_test_env(gitignore_content: &str) -> PathFilter {
    PathFilter::new_for_base_dir("/tmp/project-under-test", Some(gitignore_content)).unwrap()
}

#[test]
fn path_filter_test_test_allows_llminstructions_not_ignored() {
    let filter = setup_test_env("/agent-config\n/target/\n");
    assert!(filter.validate("LLMInstructions.md").is_ok());
}

#[test]
fn path_filter_test_test_gitignore_simple_filename() {
    let filter = setup_test_env("secrets.txt");
    assert!(matches!(filter.validate("secrets.txt"), Err(AppError::FileUpdate(_))));
    assert!(filter.validate("src/main.rs").is_ok());
}

#[test]
fn path_filter_test_test_gitignore_wildcard_extension() {
    let filter = setup_test_env("*.log");
    assert!(matches!(filter.validate("debug.log"), Err(AppError::FileUpdate(_))));
    assert!(matches!(filter.validate("data/error.log"), Err(AppError::FileUpdate(_))));
    assert!(filter.validate("notes.txt").is_ok());
}

#[test]
fn path_filter_test_test_gitignore_ignored_directory() {
    let filter = setup_test_env("/target/");
    assert!(matches!(filter.validate("target/debug/app"), Err(AppError::FileUpdate(_))));
    assert!(filter.validate("src/target/mod.rs").is_ok());
}

#[test]
fn path_filter_test_test_gitignore_negation_rule() {
    let filter = setup_test_env("# Ignore logs\n*.log\n# except this one\n!important.log");
    assert!(matches!(filter.validate("debug.log"), Err(AppError::FileUpdate(_))));
    assert!(filter.validate("important.log").is_ok());
}

#[test]
fn path_filter_test_test_gitignore_root_specific_rule() {
    let filter = setup_test_env("/config.yaml");
    assert!(matches!(filter.validate("config.yaml"), Err(AppError::FileUpdate(_))));
    assert!(filter.validate("src/config.yaml").is_ok());
}

#[test]
fn path_filter_test_test_gitignore_recursive_wildcard_directory() {
    let filter = setup_test_env("**/temp/");
    assert!(matches!(filter.validate("temp/file.txt"), Err(AppError::FileUpdate(_))));
    assert!(matches!(filter.validate("src/temp/another.txt"), Err(AppError::FileUpdate(_))));
    assert!(matches!(filter.validate("src/other/temp/final.txt"), Err(AppError::FileUpdate(_))));
    assert!(filter.validate("src/temporary/file.txt").is_ok());
}

#[test]
fn path_filter_test_test_no_gitignore_file_present() {
    let filter = PathFilter::new_for_base_dir("/tmp/project-under-test", None).unwrap();
    assert!(filter.validate("any/file.txt").is_ok());
    assert!(filter.validate("another.log").is_ok());
}

#[test]
fn path_filter_test_test_absolute_and_traversal_blocked() {
    let filter = setup_test_env("");
    let abs = filter.validate("/etc/passwd");
    assert!(matches!(abs, Err(AppError::FileUpdate(_))));
    assert!(abs.unwrap_err().message().contains("Absolute paths"));
    let traversal = filter.validate("../secrets.txt");
    assert!(matches!(traversal, Err(AppError::FileUpdate(_))));
    assert!(traversal.unwrap_err().message().contains("Path traversal ('..')"));
}

#[test]
fn test_agent_config_is_blocked() {
    let filter = setup_test_env("");
    let res = filter.validate("agent-config/query.txt");
    assert!(matches!(res, Err(AppError::FileUpdate(_))));
    assert!(res.unwrap_err().message().contains("protected directory"));
}

#[test]
fn test_app_data_is_blocked_from_context() {
    let filter = setup_test_env("");
    let res = filter.validate("app-data/secret.json");
    assert!(matches!(res, Err(AppError::FileUpdate(_))));
    assert!(res.unwrap_err().message().contains("protected directory"));
}

#[test]
fn test_agent_state_is_blocked_from_context() {
    let filter = setup_test_env("");
    let res = filter.validate("agent-state/session.json");
    assert!(matches!(res, Err(AppError::FileUpdate(_))));
    assert!(res.unwrap_err().message().contains("protected directory"));
}

#[test]
fn context_filter_messages_use_the_cleaned_path() {
    let filter = setup_test_env("*.log");
    assert_eq!(
        filter.validate("./logs/./a.log"),
        Err(AppError::FileUpdate(
            "File 'logs/a.log' matches a rule in .gitignore and cannot be loaded into context.".to_string()
        ))
    );
    assert_eq!(
        filter.validate("./agent-state/x"),
        Err(AppError::FileUpdate(
            "File 'agent-state/x' is in a protected directory and cannot be loaded into context.".to_string()
        ))
    );
}
