//! The configuration of a run: the model, its API key, the supervisor's
//! query and the workflow's standing instructions, after the check that
//! the `.gitignore` keeps the key out of version control.
use vstd::prelude::*;
use crate::cli::{CliArgs, Model, Workflow};
use crate::error::AppError;
use crate::prompts::{COMMITTING_CODE_INITIAL_QUERY, CONSISTENCY_CHECK, PROJECT_STRUCTURE};
use crate::text::{concat, lemma_lines_of_append, lemma_lines_of_first, lines_of, split_lines, str_eq, trim, trim_str};

verus! {

/// A run's configuration.
#[derive(Debug)]
pub struct Config {
    pub model: Model,
    pub api_key: String,
    pub query: String,
    pub system_prompts: String,
}

/// What reading a file gave.
pub enum FileRead {
    Content(String),
    NotFound,
    /// Any other failure, with its message.
    Failed(String),
}

/// A `.gitignore` line that keeps `agent-config` out of version control.
pub open spec fn protects_agent_config(l: Seq<char>) -> bool {
    trim(l) == "/agent-config"@ || trim(l) == "agent-config/"@
}

/// Whether some line of the text protects `agent-config`.
pub open spec fn gitignore_protects(text: Seq<char>) -> bool {
    exists|i: int| 0 <= i < lines_of(text).len() && protects_agent_config(#[trigger] lines_of(text)[i])
}

fn protects_exec(text: &str) -> (b: bool)
    ensures
        b == gitignore_protects(text@),
{
    let ls = split_lines(text);
    let ghost all = ls.deep_view();
    let mut i: usize = 0;
    while i < ls.len()
        invariant
            all == ls.deep_view(),
            all == lines_of(text@),
            i <= ls.len(),
            forall|j: int| 0 <= j < i ==> !protects_agent_config(#[trigger] all[j]),
        decreases ls.len() - i,
    {
        assert(all[i as int] == ls[i as int]@);
        let t = trim_str(ls[i].as_str());
        if str_eq(t.as_str(), "/agent-config") || str_eq(t.as_str(), "agent-config/") {
            assert(protects_agent_config(all[i as int]));
            return true;
        }
        i += 1;
    }
    false
}

pub open spec fn gitignore_not_found_msg() -> Seq<char> {
    "'.gitignore' file not found. It must exist and contain '/agent-config' to protect secrets."@
}

pub open spec fn insecure_gitignore_msg() -> Seq<char> {
    "Security check failed: Your .gitignore file must contain the line '/agent-config' to prevent accidental exposure of your API keys and logs."@
}

/// What is wrong with the project's `.gitignore` (as read), if anything:
/// it is missing, it cannot be read, or no line of it keeps
/// `agent-config` out of version control.
pub open spec fn gitignore_problem(gitignore: FileRead) -> Option<Seq<char>> {
    match gitignore {
        FileRead::NotFound => Some(gitignore_not_found_msg()),
        FileRead::Failed(e) => Some("Failed to read file '.gitignore': "@ + e@),
        FileRead::Content(c) => if gitignore_protects(c@) {
            None
        } else {
            Some(insecure_gitignore_msg())
        },
    }
}

/// A `.gitignore` passes the check as soon as any one of its lines, at
/// any position and whatever comes before or after it, reads
/// `/agent-config` or `agent-config/` once trimmed.
pub proof fn lemma_any_line_protects(c: String, before: Seq<char>, line: Seq<char>, after: Seq<char>)
    requires
        before.len() == 0 || before.last() == '\n',
        forall|j: int| 0 <= j < line.len() ==> line[j] != '\n',
        line.len() == 0 || line.last() != '\r',
        trim(line) == "/agent-config"@ || trim(line) == "agent-config/"@,
        c@ == before + line + seq!['\n'] + after,
    ensures
        gitignore_problem(FileRead::Content(c)) is None,
{
    let rest = line + seq!['\n'] + after;
    assert(c@ =~= before + rest);
    lemma_lines_of_append(before, rest);
    lemma_lines_of_first(line, after);
    let i = lines_of(before).len() as int;
    assert(lines_of(c@)[i] == line);
    assert(protects_agent_config(lines_of(c@)[i]));
}

/// The check that the project's `.gitignore` (as read) keeps
/// `agent-config` out of version control.
pub fn check_gitignore(gitignore: &FileRead) -> (r: Result<(), AppError>)
    ensures
        match gitignore_problem(*gitignore) {
            None => r is Ok,
            Some(m) => r matches Err(AppError::Config(x)) && x@ == m,
        },
{
    match gitignore {
        FileRead::NotFound => Err(
            AppError::Config(
                "'.gitignore' file not found. It must exist and contain '/agent-config' to protect secrets.".to_owned(),
            ),
        ),
        FileRead::Failed(e) => Err(AppError::Config(concat("Failed to read file '.gitignore': ", e.as_str()))),
        FileRead::Content(c) => {
            if protects_exec(c.as_str()) {
                Ok(())
            } else {
                Err(
                    AppError::Config(
                        "Security check failed: Your .gitignore file must contain the line '/agent-config' to prevent accidental exposure of your API keys and logs.".to_owned(),
                    ),
                )
            }
        },
    }
}

/// The file that holds the API key of a model, relative to the project.
pub open spec fn api_key_file(m: Model) -> Seq<char> {
    match m {
        Model::Gpt5 => "agent-config/openai-key.txt"@,
        _ => "agent-config/gemini-key.txt"@,
    }
}

/// The file that holds the API key of a model, relative to the project.
pub fn api_key_path(m: Model) -> (r: &'static str)
    ensures
        r@ == api_key_file(m),
{
    match m {
        Model::Gpt5 => "agent-config/openai-key.txt",
        _ => "agent-config/gemini-key.txt",
    }
}

/// Whether a workflow asks the supervisor for a query.
pub open spec fn asks_query(w: Workflow) -> bool {
    w == Workflow::CommitCode || w == Workflow::ConsistencyCheck
}

/// Whether a workflow asks the supervisor for a query.
pub fn needs_query(w: Workflow) -> (b: bool)
    ensures
        b == asks_query(w),
{
    match w {
        Workflow::CommitCode | Workflow::ConsistencyCheck => true,
        _ => false,
    }
}

/// The standing instructions of a workflow that has a configuration.
pub open spec fn workflow_prompts(w: Workflow) -> Seq<char> {
    match w {
        Workflow::CommitCode => COMMITTING_CODE_INITIAL_QUERY@,
        Workflow::ConsistencyCheck => PROJECT_STRUCTURE@ + "\n"@ + CONSISTENCY_CHECK@,
        _ => Seq::empty(),
    }
}

pub open spec fn rollup_msg() -> Seq<char> {
    "The rollup workflow does not require configuration."@
}

/// What loading the configuration for `args` gives, in a project whose
/// `.gitignore` and API key file read as given, with `query` as the
/// supervisor's query: the `.gitignore` check comes first, then the rollup
/// workflow, which has no configuration, then the key (trimmed).
pub open spec fn config_loaded(
    args: CliArgs,
    gitignore: FileRead,
    api_key: Result<String, String>,
    query: Seq<char>,
    r: Result<Config, AppError>,
) -> bool {
    match gitignore_problem(gitignore) {
        None => if args.workflow == Workflow::Rollup {
            r matches Err(AppError::Config(m)) && m@ == rollup_msg()
        } else {
            match api_key {
                Ok(k) => r matches Ok(cfg) && cfg.model == args.model && cfg.api_key@ == trim(k@)
                    && cfg.query@ == query && cfg.system_prompts@ == workflow_prompts(args.workflow),
                Err(e) => r matches Err(AppError::Config(m)) && m@ == "Failed to read file '"@
                    + api_key_file(args.model) + "': "@ + e@,
            }
        },
        Some(m) => r matches Err(AppError::Config(x)) && x@ == m,
    }
}

/// The query a workflow runs with: the supervisor's for the workflows
/// that ask for one, else none.
pub open spec fn chosen_query(w: Workflow, editor_query: Option<String>) -> Seq<char> {
    if asks_query(w) {
        editor_query->Some_0@
    } else {
        Seq::empty()
    }
}

impl Config {
    /// The configuration for `args` in a project whose `.gitignore` and
    /// API key file read as given: the `.gitignore` check comes first,
    /// then the rollup workflow, which has no configuration, then the key
    /// (trimmed).
    pub fn load_from_dir(args: &CliArgs, gitignore: &FileRead, api_key: &Result<String, String>, query: String) -> (r: Result<Config, AppError>)
        ensures
            config_loaded(*args, *gitignore, *api_key, query@, r),
    {
        check_gitignore(gitignore)?;
        if args.workflow == Workflow::Rollup {
            return Err(AppError::Config("The rollup workflow does not require configuration.".to_owned()));
        }
        let key = match api_key {
            Ok(k) => trim_str(k.as_str()),
            Err(e) => {
                let a = concat("Failed to read file '", api_key_path(args.model));
                let b = concat(a.as_str(), "': ");
                return Err(AppError::Config(concat(b.as_str(), e.as_str())));
            },
        };
        let system_prompts = match args.workflow {
            Workflow::CommitCode => COMMITTING_CODE_INITIAL_QUERY.to_owned(),
            Workflow::ConsistencyCheck => {
                let mut s = PROJECT_STRUCTURE.to_owned();
                s.append("\n");
                s.append(CONSISTENCY_CHECK);
                s
            },
            _ => String::new(),
        };
        Ok(Config { model: args.model, api_key: key, query, system_prompts })
    }

    /// The configuration for `args` in the current directory: the query is
    /// the one the supervisor wrote (`editor_query`) for the workflows that
    /// ask for one, and empty for the others.
    pub fn load(args: &CliArgs, editor_query: Option<String>, gitignore: &FileRead, api_key: &Result<String, String>) -> (r: Result<Config, AppError>)
        requires
            asks_query(args.workflow) ==> editor_query is Some,
        ensures
            config_loaded(*args, *gitignore, *api_key, chosen_query(args.workflow, editor_query), r),
    {
        let query = if needs_query(args.workflow) {
            match editor_query {
                Some(q) => q,
                None => String::new(),
            }
        } else {
            String::new()
        };
        Self::load_from_dir(args, gitignore, api_key, query)
    }
}

} // verus!
