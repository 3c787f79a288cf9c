use code_commit::committing_code::file_updater::{plan_updates, PathProtection};
use code_commit::committing_code::response_parser::FileUpdate;
use code_commit::error::AppError;

fn setup_test_env(gitignore_content: &str) -> PathProtection {
    PathProtection::new_for_base_dir("/tmp/project-under-test", Some(gitignore_content)).unwrap()
}

#[test]
fn file_updater_test_test_validate_path_valid() {
    let protection = PathProtection::new(None).unwrap();
    assert!(protection.validate("src/main.rs").is_ok());
    assert!(protection.validate("a/b/c.txt").is_ok());
}

#[test]
fn file_updater_test_test_validate_path_absolute() {
    let protection = PathProtection::new(None).unwrap();
    let result = protection.validate("/etc/passwd");
    assert!(matches!(result, Err(AppError::FileUpdate(_))));
    assert!(result.unwrap_err().message().contains("Absolute paths are not allowed."));
}

#[test]
fn file_updater_test_test_validate_path_traversal() {
    let protection = PathProtection::new(None).unwrap();
    let result = protection.validate("../secrets.txt");
    assert!(matches!(result, Err(AppError::FileUpdate(_))));
    assert!(result.unwrap_err().message().contains("Path traversal ('..') is not allowed."));
}

#[test]
fn test_validate_path_traversal_in_middle() {
    let protection = PathProtection::new(None).unwrap();
    let result = protection.validate("src/app/../../main.rs");
    assert!(matches!(result, Err(AppError::FileUpdate(_))));
    assert!(result.unwrap_err().message().contains("Path traversal ('..') is not allowed."));
}

#[test]
fn test_validate_path_traversal_after_clean() {
    let protection = PathProtection::new(None).unwrap();
    let result = protection.validate("src/app/../../main.rs");
    assert!(matches!(result, Err(AppError::FileUpdate(_))));
    assert!(result.unwrap_err().message().contains("Path traversal ('..') is not allowed."));
}

#[test]
fn test_validate_path_forbidden_dir() {
    let protection = PathProtection::new(None).unwrap();
    let result_git = protection.validate(".git/config");
    assert!(matches!(result_git, Err(AppError::FileUpdate(_))));
    assert!(result_git.unwrap_err().message().contains("Modification of directory '.git/' is not allowed."));
    assert!(protection.validate("logs/2023-01-01/query.txt").is_ok());
}

#[test]
fn test_validate_path_forbidden_file() {
    let protection = PathProtection::new(None).unwrap();
    let result = protection.validate("build.sh");
    assert!(matches!(result, Err(AppError::FileUpdate(_))));
    assert!(result.unwrap_err().message().contains("Modification of critical file 'build.sh' is not allowed."));
    assert!(protection.validate("query.txt").is_ok());
}

#[test]
fn test_validate_path_with_gitignore() {
    let protection = setup_test_env("# Ignore secrets\nsecrets.txt\n\n# Ignore temp files\n*.tmp\n");
    let result1 = protection.validate("secrets.txt");
    assert!(matches!(result1, Err(AppError::FileUpdate(_))));
    assert!(result1.unwrap_err().message().contains("secrets.txt"));
    let result2 = protection.validate("data/user.tmp");
    assert!(matches!(result2, Err(AppError::FileUpdate(_))));
    assert!(result2.unwrap_err().message().contains(".tmp"));
    assert!(protection.validate("src/main.rs").is_ok());
}

#[test]
fn test_forbid_modifying_gitignore_and_agent_config_dir() {
    let protection = PathProtection::new(None).unwrap();
    let result_gitignore = protection.validate(".gitignore");
    assert!(matches!(result_gitignore, Err(AppError::FileUpdate(_))));
    assert!(result_gitignore
        .unwrap_err()
        .message()
        .contains("Modification of critical file '.gitignore' is not allowed."));
    assert!(protection.validate("config/settings.yaml").is_ok());
    let result_agent_config_dir = protection.validate("agent-config/settings.yaml");
    assert!(matches!(result_agent_config_dir, Err(AppError::FileUpdate(_))));
    assert!(result_agent_config_dir
        .unwrap_err()
        .message()
        .contains("Modification of directory 'agent-config/' is not allowed."));
    assert!(protection.validate("src/config.rs").is_ok());
}

#[test]
fn test_validate_user_specification_md_is_forbidden_anywhere() {
    let protection = PathProtection::new(None).unwrap();
    let result_root = protection.validate("UserSpecification.md");
    assert!(matches!(result_root, Err(AppError::FileUpdate(_))));
    assert_eq!(
        result_root.unwrap_err().message(),
        "File Update Error: Modification of critical file 'UserSpecification.md' is not allowed."
    );
    let result_nested = protection.validate("src/some_module/UserSpecification.md");
    assert!(matches!(result_nested, Err(AppError::FileUpdate(_))));
    assert_eq!(
        result_nested.unwrap_err().message(),
        "File Update Error: Modification of critical file 'src/some_module/UserSpecification.md' is not allowed."
    );
    assert!(protection.validate("MyUserSpecification.md.bak").is_ok());
}

#[test]
fn test_apply_updates_aborts_on_invalid_path_without_applying_changes() {
    let protection = PathProtection::new(None).unwrap();
    let updates = vec![
        FileUpdate { path: "valid1.txt".to_string(), content: Some("content1".to_string()) },
        FileUpdate { path: "build.sh".to_string(), content: Some("hacked".to_string()) },
        FileUpdate { path: "valid2.txt".to_string(), content: Some("content2".to_string()) },
    ];
    let result = plan_updates(&protection, &updates);
    assert!(matches!(result, Err(AppError::FileUpdate(_))));
}

#[test]
fn plan_cleans_paths_of_accepted_updates() {
    let protection = PathProtection::new(None).unwrap();
    let updates = vec![
        FileUpdate { path: "./src//main.rs".to_string(), content: Some("fn main() {}".to_string()) },
        FileUpdate { path: "src/old.rs".to_string(), content: None },
    ];
    let planned = plan_updates(&protection, &updates).unwrap();
    assert_eq!(planned[0].path, "src/main.rs");
    assert_eq!(planned[0].content.as_deref(), Some("fn main() {}"));
    assert_eq!(planned[1].path, "src/old.rs");
    assert_eq!(planned[1].content, None);
}

#[test]
fn plan_removes_dot_components_and_repeated_separators() {
    let protection = PathProtection::new(None).unwrap();
    let updates = vec![FileUpdate { path: "a//b/./c.txt".to_string(), content: Some("x".to_string()) }];
    let planned = plan_updates(&protection, &updates).unwrap();
    assert_eq!(planned[0].path, "a/b/c.txt");
}

#[test]
fn cleaned_path_is_checked_for_critical_files() {
    let protection = PathProtection::new(None).unwrap();
    let r = protection.validate("./src/../Cargo.lock");
    assert_eq!(r, Err(AppError::FileUpdate("Path traversal ('..') is not allowed.".to_string())));
    let r = protection.validate("./Cargo.lock");
    assert_eq!(
        r,
        Err(AppError::FileUpdate("Modification of critical file 'Cargo.lock' is not allowed.".to_string()))
    );
    let r = protection.validate("target/x");
    assert_eq!(r, Err(AppError::FileUpdate("Modification of directory 'target/' is not allowed.".to_string())));
}

#[test]
fn file_updater_gitignore_tests_test_gitignore_simple_filename() {
    let protection = setup_test_env("secrets.txt");
    let result = protection.validate("secrets.txt");
    assert!(matches!(result, Err(AppError::FileUpdate(_))));
    assert!(result.unwrap_err().message().contains("matches a rule in .gitignore"));
    assert!(protection.validate("src/main.rs").is_ok());
}

#[test]
fn file_updater_gitignore_tests_test_gitignore_wildcard_extension() {
    let protection = setup_test_env("*.log");
    assert!(matches!(protection.validate("debug.log"), Err(AppError::FileUpdate(_))));
    assert!(matches!(protection.validate("data/error.log"), Err(AppError::FileUpdate(_))));
    assert!(protection.validate("log.txt").is_ok());
}

#[test]
fn file_updater_gitignore_tests_test_gitignore_ignored_directory() {
    let protection = setup_test_env("/target/");
    assert!(matches!(protection.validate("target/debug/app.exe"), Err(AppError::FileUpdate(_))));
    assert!(protection.validate("src/target/mod.rs").is_ok());
}

#[test]
fn file_updater_gitignore_tests_test_gitignore_negation_rule() {
    let protection = setup_test_env("# Ignore all log files\n*.log\n# Except this one\n!important.log");
    assert!(matches!(protection.validate("debug.log"), Err(AppError::FileUpdate(_))));
    assert!(protection.validate("important.log").is_ok());
}

#[test]
fn file_updater_gitignore_tests_test_gitignore_root_specific_rule() {
    let protection = setup_test_env("/config.yaml");
    assert!(matches!(protection.validate("config.yaml"), Err(AppError::FileUpdate(_))));
    assert!(protection.validate("src/config.yaml").is_ok());
}

#[test]
fn test_gitignore_comments_and_empty_lines_are_ignored() {
    let protection = setup_test_env("# This is a comment\n\n  \n*.tmp");
    assert!(matches!(protection.validate("file.tmp"), Err(AppError::FileUpdate(_))));
    assert!(protection.validate("file.txt").is_ok());
}

#[test]
fn file_updater_gitignore_tests_test_gitignore_recursive_wildcard_directory() {
    let protection = setup_test_env("**/temp/");
    assert!(matches!(protection.validate("temp/file.txt"), Err(AppError::FileUpdate(_))));
    assert!(matches!(protection.validate("src/temp/another.txt"), Err(AppError::FileUpdate(_))));
    assert!(matches!(protection.validate("src/other/temp/final.txt"), Err(AppError::FileUpdate(_))));
    assert!(protection.validate("src/temporary/file.txt").is_ok());
}

#[test]
fn test_gitignore_no_gitignore_file_present() {
    let protection = PathProtection::new_for_base_dir("/tmp/project-under-test", None).unwrap();
    assert!(protection.validate("any/file.txt").is_ok());
    assert!(protection.validate("another.log").is_ok());
}

#[test]
fn gitignore_byte_order_mark_is_skipped() {
    let protection = setup_test_env("\u{feff}secret.txt\n");
    assert!(protection.validate("secret.txt").is_err());
}

#[test]
fn test_apply_updates_create_nested_directory() {
    let protection = PathProtection::new(None).unwrap();
    let updates = vec![FileUpdate { path: "src/a/b/c/deep.rs".to_string(), content: Some("// deep".to_string()) }];
    let planned = plan_updates(&protection, &updates).unwrap();
    assert_eq!(planned, vec![FileUpdate { path: "src/a/b/c/deep.rs".to_string(), content: Some("// deep".to_string()) }]);
}
