//! Judging an auto-workflow reply: exactly one status tag, at most one
//! comment section, and file changes only with the `changes-attempted`
//! status.
use vstd::prelude::*;
use crate::auto_workflow::file_updater::{blocks_from, apply_file_updates};
use crate::auto_workflow::types::{stage_name, Stage};
use crate::committing_code::response_parser::{opt_string_view, updates_view, FileUpdate};
use crate::error::AppError;
use crate::text::{
    chars_of, concat, contains_seq, count_matches, count_matches_exec, find, find_from_exec,
    lemma_find_from_facts, string_from_range, contains_str, string_from_chars,
};

verus! {

pub open spec fn success_tag() -> Seq<char> {
    "@@@@task-success@@@@"@
}

pub open spec fn requested_tag() -> Seq<char> {
    "@@@@changes-requested@@@@"@
}

pub open spec fn attempted_tag() -> Seq<char> {
    "@@@@changes-attempted@@@@"@
}

pub open spec fn comment_open() -> Seq<char> {
    seq!['%', '%', '%', '%', 'c', 'o', 'm', 'm', 'e', 'n', 't', '%', '%', '%', '%']
}

pub open spec fn comment_close() -> Seq<char> {
    seq!['%', '%', '%', '%', 'e', 'n', 'd', '%', '%', '%', '%']
}

pub open spec fn flag(b: bool) -> int {
    if b {
        1
    } else {
        0
    }
}

/// How many of the status tags a reply holds.
pub open spec fn status_count(s: Seq<char>) -> int {
    flag(contains_seq(s, success_tag())) + flag(contains_seq(s, requested_tag())) + flag(
        contains_seq(s, attempted_tag()),
    )
}

/// What is wrong with the shape of a reply, or `None`.
pub open spec fn format_error(s: Seq<char>) -> Option<Seq<char>> {
    let n = status_count(s);
    let cs = count_matches(s, comment_open());
    let ce = count_matches(s, comment_close());
    if n == 0 {
        Some("Auto Workflow Error: No status tag found in response."@)
    } else if n > 1 {
        Some("Auto Workflow Error: Multiple status tags found in response."@)
    } else if cs > 1 || ce > 1 {
        Some("Auto Workflow Error: Multiple comment sections found in response."@)
    } else if cs != ce {
        Some("Auto Workflow Error: Mismatched comment tags."@)
    } else {
        None
    }
}

/// Checks that a reply holds exactly one status tag and at most one
/// complete comment section.
pub fn validate_response_format(response: &str) -> (r: Result<(), AppError>)
    ensures
        match format_error(response@) {
            None => r is Ok,
            Some(m) => r matches Err(AppError::FileUpdate(x)) && x@ == m,
        },
{
    let success = contains_str(response, "@@@@task-success@@@@");
    let requested = contains_str(response, "@@@@changes-requested@@@@");
    let attempted = contains_str(response, "@@@@changes-attempted@@@@");
    let count: u8 = (if success { 1u8 } else { 0u8 }) + (if requested { 1u8 } else { 0u8 }) + (if attempted {
        1u8
    } else {
        0u8
    });
    if count == 0 {
        return Err(
            AppError::FileUpdate("Auto Workflow Error: No status tag found in response.".to_owned()),
        );
    }
    if count > 1 {
        return Err(
            AppError::FileUpdate(
                "Auto Workflow Error: Multiple status tags found in response.".to_owned(),
            ),
        );
    }
    let s = chars_of(response);
    let open = chars_of("%%%%comment%%%%");
    let close = chars_of("%%%%end%%%%");
    proof {
        reveal_strlit("%%%%comment%%%%");
        reveal_strlit("%%%%end%%%%");
        assert(open@ =~= comment_open());
        assert(close@ =~= comment_close());
    }
    let start_count = count_matches_exec(&s, &open);
    let end_count = count_matches_exec(&s, &close);
    if start_count > 1 || end_count > 1 {
        return Err(
            AppError::FileUpdate(
                "Auto Workflow Error: Multiple comment sections found in response.".to_owned(),
            ),
        );
    }
    if start_count != end_count {
        return Err(AppError::FileUpdate("Auto Workflow Error: Mismatched comment tags.".to_owned()));
    }
    Ok(())
}

/// The text of the comment section: from after the first
/// `%%%%comment%%%%` to the first `%%%%end%%%%`, when both occur in that
/// order.
pub open spec fn comment_of(s: Seq<char>) -> Option<Seq<char>> {
    match (find(s, comment_open()), find(s, comment_close())) {
        (Some(a), Some(e)) => if a + comment_open().len() <= e {
            Some(s.subrange(a + comment_open().len(), e))
        } else {
            None
        },
        _ => None,
    }
}

/// The comment section of a reply, if it has one.
pub fn extract_comment(response: &str) -> (r: Option<String>)
    ensures
        opt_string_view(r) == comment_of(response@),
{
    let s = chars_of(response);
    let open = chars_of("%%%%comment%%%%");
    let close = chars_of("%%%%end%%%%");
    proof {
        reveal_strlit("%%%%comment%%%%");
        reveal_strlit("%%%%end%%%%");
        assert(open@ =~= comment_open());
        assert(close@ =~= comment_close());
    }
    match find_from_exec(&s, &open, 0) {
        Some(a) => {
            proof {
                lemma_find_from_facts(s@, comment_open(), 0);
            }
            match find_from_exec(&s, &close, 0) {
                Some(e) => {
                    if e >= 15 && a <= e - 15 {
                        proof {
                            lemma_find_from_facts(s@, comment_close(), 0);
                        }
                        Some(string_from_range(&s, a + 15, e))
                    } else {
                        None
                    }
                },
                None => None,
            }
        },
        None => None,
    }
}

/// What became of a task.
#[derive(Debug, Clone, Copy, PartialEq, Eq, Structural)]
pub enum ExecutionResult {
    Success,
    ChangesRequested,
    ChangesAttempted,
    Failure,
}

/// What a well-formed reply says: its status, its comment, and the file
/// changes to carry out (only with `changes-attempted`).
pub struct Assessment {
    pub result: ExecutionResult,
    pub comment: Option<String>,
    pub updates: Vec<FileUpdate>,
}

pub open spec fn unannounced_changes_msg() -> Seq<char> {
    "Auto Workflow Error: Code modifications provided without 'changes-attempted' status."@
}

/// The status a well-formed reply carries.
pub open spec fn status_of(s: Seq<char>) -> ExecutionResult {
    if contains_seq(s, success_tag()) {
        ExecutionResult::Success
    } else if contains_seq(s, requested_tag()) {
        ExecutionResult::ChangesRequested
    } else if contains_seq(s, attempted_tag()) {
        ExecutionResult::ChangesAttempted
    } else {
        ExecutionResult::Failure
    }
}

/// Judges a reply: file blocks without the `changes-attempted` status are
/// refused, then its shape is checked, then its status read.
pub fn assess_response(response: &str) -> (r: Result<Assessment, AppError>)
    ensures
        blocks_from(response@, 0).len() > 0 && !contains_seq(response@, attempted_tag()) ==> (r matches Err(
            AppError::FileUpdate(x),
        ) && x@ == unannounced_changes_msg()),
        !(blocks_from(response@, 0).len() > 0 && !contains_seq(response@, attempted_tag())) ==> match format_error(response@) {
            Some(m) => r matches Err(AppError::FileUpdate(x)) && x@ == m,
            None => r matches Ok(a) && a.result == status_of(response@) && a.result
                != ExecutionResult::Failure && opt_string_view(a.comment) == comment_of(response@)
                && (a.result == ExecutionResult::ChangesAttempted ==> updates_view(a.updates@)
                == blocks_from(response@, 0)) && (a.result != ExecutionResult::ChangesAttempted
                ==> a.updates.len() == 0),
        },
{
    let updates = apply_file_updates(response);
    let attempted = contains_str(response, "@@@@changes-attempted@@@@");
    if updates.len() > 0 && !attempted {
        return Err(
            AppError::FileUpdate(
                "Auto Workflow Error: Code modifications provided without 'changes-attempted' status.".to_owned(),
            ),
        );
    }
    validate_response_format(response)?;
    let comment = extract_comment(response);
    if contains_str(response, "@@@@task-success@@@@") {
        Ok(Assessment { result: ExecutionResult::Success, comment, updates: Vec::new() })
    } else if contains_str(response, "@@@@changes-requested@@@@") {
        Ok(Assessment { result: ExecutionResult::ChangesRequested, comment, updates: Vec::new() })
    } else {
        Ok(Assessment { result: ExecutionResult::ChangesAttempted, comment, updates })
    }
}

/// What the workflow does after a task's result.
#[derive(Debug, Clone, PartialEq, Eq)]
pub enum NextStep {
    /// Go on with the next task.
    NextTask,
    /// Run the same task once more.
    Retry,
    /// Stop without error.
    Stop,
    /// Stop with this error.
    Fail(AppError),
}

/// What follows a task's result: success moves on; changes attempted are
/// retried once, and a retry that does not succeed stops the workflow;
/// changes requested stop it; a failure (not on a retry) is an error.
pub fn after_task(result: ExecutionResult, is_retry: bool) -> (r: NextStep)
    ensures
        result == ExecutionResult::Success ==> r == NextStep::NextTask,
        result != ExecutionResult::Success && is_retry ==> r == NextStep::Stop,
        !is_retry && result == ExecutionResult::ChangesAttempted ==> r == NextStep::Retry,
        !is_retry && result == ExecutionResult::ChangesRequested ==> r == NextStep::Stop,
        !is_retry && result == ExecutionResult::Failure ==> (r matches NextStep::Fail(AppError::FileUpdate(m))
            && m@ == "Auto Workflow task failed."@),
{
    match result {
        ExecutionResult::Success => NextStep::NextTask,
        _ => if is_retry {
            NextStep::Stop
        } else {
            match result {
                ExecutionResult::ChangesAttempted => NextStep::Retry,
                ExecutionResult::ChangesRequested => NextStep::Stop,
                _ => NextStep::Fail(AppError::FileUpdate("Auto Workflow task failed.".to_owned())),
            }
        },
    }
}

/// Whether a stage's request goes through the committing-code workflow
/// (all but the self-consistency stage, which only asks the model).
pub fn runs_commit_workflow(stage: Stage) -> (b: bool)
    ensures
        b == (stage != Stage::SelfConsistent),
{
    match stage {
        Stage::SelfConsistent => false,
        _ => true,
    }
}

/// The name the model's reply to a task is logged under:
/// `auto-workflow-<spec path, '/' written '+'>-<stage>`.
pub open spec fn task_log_name(spec_path: Seq<char>, stage: Stage) -> Seq<char> {
    "auto-workflow-"@ + spec_path.map_values(|c: char| if c == '/' { '+' } else { c }) + "-"@
        + stage_name(stage)
}

/// The name the model's reply to a task is logged under.
pub fn log_name(spec_path: &str, stage: Stage) -> (r: String)
    ensures
        r@ == task_log_name(spec_path@, stage),
{
    let cs = chars_of(spec_path);
    let mut out: Vec<char> = Vec::new();
    let mut i: usize = 0;
    while i < cs.len()
        invariant
            i <= cs.len(),
            out@ == cs@.take(i as int).map_values(|c: char| if c == '/' { '+' } else { c }),
        decreases cs.len() - i,
    {
        let c = cs[i];
        out.push(if c == '/' { '+' } else { c });
        assert(cs@.take(i + 1) =~= cs@.take(i as int).push(c));
        assert(out@ =~= cs@.take(i + 1).map_values(|c: char| if c == '/' { '+' } else { c }));
        i += 1;
    }
    assert(cs@.take(i as int) =~= cs@);
    let replaced = string_from_chars(&out);
    let a = concat("auto-workflow-", replaced.as_str());
    let b = concat(a.as_str(), "-");
    concat(b.as_str(), stage.as_str())
}

} // verus!
