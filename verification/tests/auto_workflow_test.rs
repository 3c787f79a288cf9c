use code_commit::auto_workflow::executor::{
    after_task, assess_response, extract_comment, log_name, runs_commit_workflow,
    validate_response_format, ExecutionResult, NextStep,
};
use code_commit::auto_workflow::file_updater::{apply_file_updates, has_pending_updates};
use code_commit::auto_workflow::types::{stage_record_file, Stage};
use code_commit::error::AppError;

#[test]
fn test_validate_response_format_success() {
    let response = "Some text\n@@@@task-success@@@@\nMore text";
    assert!(validate_response_format(response).is_ok());
}

#[test]
fn test_validate_response_format_failure_no_tag() {
    let response = "Some text\nNo tag here";
    assert!(validate_response_format(response).is_err());
}

#[test]
fn test_validate_response_format_failure_multiple_tags() {
    let response = "@@@@task-success@@@@\n@@@@changes-requested@@@@";
    assert!(validate_response_format(response).is_err());
}

#[test]
fn test_validate_response_format_comments_valid() {
    let response = "@@@@task-success@@@@\n%%%%comment%%%%\nHello\n%%%%end%%%%";
    assert!(validate_response_format(response).is_ok());
}

#[test]
fn test_validate_response_format_comments_invalid_multiple() {
    let response =
        "@@@@task-success@@@@\n%%%%comment%%%%\nA\n%%%%end%%%%\n%%%%comment%%%%\nB\n%%%%end%%%%";
    assert!(validate_response_format(response).is_err());
}

#[test]
fn test_validate_response_format_comments_invalid_mismatch() {
    let response = "@@@@task-success@@@@\n%%%%comment%%%%\nA";
    assert!(validate_response_format(response).is_err());
}

#[test]
fn test_extract_comment() {
    let response = "Prefix\n%%%%comment%%%%\n  This is a comment.  \n%%%%end%%%%\nSuffix";
    let comment = extract_comment(response);
    assert!(comment.is_some());
    assert_eq!(comment.unwrap().trim(), "This is a comment.");

    let response_no_comment = "Just text";
    assert!(extract_comment(response_no_comment).is_none());
}

#[test]
fn test_has_pending_updates_detection() {
    let content_no_updates = "This response has no updates.";
    assert!(!has_pending_updates(content_no_updates));

    let content_with_updates = "Here is an update:\n^^^src/main.rs\nfn main() {}\n^^^end";
    assert!(has_pending_updates(content_with_updates));

    let content_broken_update = "Here is a broken update:\n^^^src/main.rs\nfn main() {}";
    assert!(!has_pending_updates(content_broken_update));
}

#[test]
fn format_error_messages() {
    assert_eq!(
        validate_response_format("nothing"),
        Err(AppError::FileUpdate("Auto Workflow Error: No status tag found in response.".to_string()))
    );
    assert_eq!(
        validate_response_format("@@@@task-success@@@@ @@@@changes-attempted@@@@"),
        Err(AppError::FileUpdate("Auto Workflow Error: Multiple status tags found in response.".to_string()))
    );
    assert_eq!(
        validate_response_format("@@@@task-success@@@@ %%%%end%%%%"),
        Err(AppError::FileUpdate("Auto Workflow Error: Mismatched comment tags.".to_string()))
    );
}

#[test]
fn blocks_are_read_in_order_with_deletions() {
    let payload = "^^^a.txt\nHello World\n^^^end\n^^^ b.txt \n^^^delete\n^^^end";
    let us = apply_file_updates(payload);
    assert_eq!(us.len(), 2);
    assert_eq!(us[0].path, "a.txt");
    assert_eq!(us[0].content.as_deref(), Some("Hello World\n"));
    assert_eq!(us[1].path, "b.txt");
    assert_eq!(us[1].content, None);
}

#[test]
fn assess_success_with_comment() {
    let a = assess_response("done\n@@@@task-success@@@@\n%%%%comment%%%%\nok\n%%%%end%%%%").unwrap();
    assert_eq!(a.result, ExecutionResult::Success);
    assert_eq!(a.comment.as_deref(), Some("\nok\n"));
    assert!(a.updates.is_empty());
}

#[test]
fn assess_changes_without_status_is_refused() {
    let r = assess_response("^^^src/a.rs\nx\n^^^end\n@@@@task-success@@@@");
    assert_eq!(
        r.err(),
        Some(AppError::FileUpdate(
            "Auto Workflow Error: Code modifications provided without 'changes-attempted' status.".to_string()
        ))
    );
}

#[test]
fn assess_changes_attempted_carries_updates() {
    let a = assess_response("^^^src/a.rs\nx\n^^^end\n@@@@changes-attempted@@@@").unwrap();
    assert_eq!(a.result, ExecutionResult::ChangesAttempted);
    assert_eq!(a.updates.len(), 1);
    assert_eq!(a.updates[0].path, "src/a.rs");
}

#[test]
fn next_step_after_results() {
    assert_eq!(after_task(ExecutionResult::Success, false), NextStep::NextTask);
    assert_eq!(after_task(ExecutionResult::ChangesAttempted, false), NextStep::Retry);
    assert_eq!(after_task(ExecutionResult::ChangesRequested, false), NextStep::Stop);
    assert_eq!(
        after_task(ExecutionResult::Failure, false),
        NextStep::Fail(AppError::FileUpdate("Auto Workflow task failed.".to_string()))
    );
    assert_eq!(after_task(ExecutionResult::Success, true), NextStep::NextTask);
    assert_eq!(after_task(ExecutionResult::ChangesAttempted, true), NextStep::Stop);
    assert_eq!(after_task(ExecutionResult::Failure, true), NextStep::Stop);
    assert!(!runs_commit_workflow(Stage::SelfConsistent));
    assert!(runs_commit_workflow(Stage::Documented));
}

#[test]
fn stage_names_and_log_names() {
    assert_eq!(Stage::SelfConsistent.as_str(), "self-consistent");
    assert_eq!(Stage::Implemented.as_str(), "implemented");
    assert_eq!(Stage::Documented.as_str(), "documented");
    assert_eq!(Stage::HappyPathTested.as_str(), "happy-path-tested");
    assert_eq!(
        log_name("src/a/UserSpecification.md", Stage::Implemented),
        "auto-workflow-src+a+UserSpecification.md-implemented"
    );
}

#[test]
fn stage_record_locations() {
    assert_eq!(
        stage_record_file("/tmp/p", "/tmp/p/src/mod/UserSpecification.md", Stage::Implemented),
        "/tmp/p/agent-state/specifications/src/mod/implemented"
    );
    assert_eq!(
        stage_record_file(".", "./src/m/UserSpecification.md", Stage::SelfConsistent),
        "./agent-state/specifications/src/m/self-consistent"
    );
}
