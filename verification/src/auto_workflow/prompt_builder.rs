//! The request for each stage of the auto workflow, and the codebase it
//! shows.
use vstd::prelude::*;
use crate::auto_workflow::graph::{dep_lines, parse_dependencies};
use crate::auto_workflow::types::Stage;
use crate::context_builder::summary_builder::shown_file;
use crate::error::AppError;
use crate::paths::{join, path_eq, path_join, paths_equal};
use crate::prompts::{
    DOCUMENTED, HAPPY_PATH_TESTED_NO_CACHE, HAPPY_PATH_TESTED_WITH_CACHE, IMPLEMENTED_NO_CACHE,
    IMPLEMENTED_WITH_CACHE, RESPONSE_FORMAT_INSTRUCTIONS, SELF_CONSISTENT,
};
use crate::text::lines_of;

verus! {

/// Whether a specification is the project's top-level one.
pub open spec fn top_level_spec(p: Seq<char>) -> bool {
    path_eq(p, "UserSpecification.md"@) || path_eq(p, "./UserSpecification.md"@)
}

/// Whether a specification is the project's top-level one.
pub fn is_top_level_spec(spec_path: &str) -> (b: bool)
    ensures
        b == top_level_spec(spec_path@),
{
    paths_equal(spec_path, "UserSpecification.md") || paths_equal(spec_path, "./UserSpecification.md")
}

/// The section that shows the target specification.
pub open spec fn target_section(spec_content: Seq<char>) -> Seq<char> {
    "[target user specification]\n"@ + spec_content + "\n"@
}

pub open spec fn self_consistent_prompt(spec_path: Seq<char>, spec_content: Seq<char>, top_spec: Seq<char>) -> Seq<char> {
    "1. self-consistent"@ + "\n[response format instructions]\n"@ + RESPONSE_FORMAT_INSTRUCTIONS@
        + "\n[self consistent prompt]\n"@ + SELF_CONSISTENT@ + "\n[top level UserSpecification.md]\n"@
        + top_spec + "\n"@ + if top_level_spec(spec_path) {
        Seq::empty()
    } else {
        target_section(spec_content)
    }
}

pub open spec fn implemented_prompt(spec_content: Seq<char>, cached: Option<Seq<char>>, codebase: Seq<char>) -> Seq<char> {
    match cached {
        Some(c) => "2. implemented - cached UserSpecification"@ + "\n[response format instructions]\n"@
            + RESPONSE_FORMAT_INSTRUCTIONS@ + "\n[implementation-with-cache prompt]\n"@
            + IMPLEMENTED_WITH_CACHE@ + "\n[cached target user specification]\n"@ + c + "\n"@
            + target_section(spec_content)
            + "[codebase, including dependency files and top level UserSpecification]\n"@ + codebase,
        None => "2. implemented - no cached UserSpecification"@ + "\n[response format instructions]\n"@
            + RESPONSE_FORMAT_INSTRUCTIONS@ + "\n[implementation-no-cache prompt]\n"@
            + IMPLEMENTED_NO_CACHE@ + "\n"@ + target_section(spec_content)
            + "[codebase, including dependency files and top level UserSpecification]\n"@ + codebase,
    }
}

pub open spec fn documented_prompt(spec_content: Seq<char>, module_context: Seq<char>) -> Seq<char> {
    "3. documented"@ + "\n[response format instructions]\n"@ + RESPONSE_FORMAT_INSTRUCTIONS@
        + "\n[documented prompt]\n"@ + DOCUMENTED@ + "\n[target user specification]\n"@ + spec_content
        + "\n[codebase]\n"@ + module_context
}

pub open spec fn happy_path_tested_prompt(spec_content: Seq<char>, cached: Option<Seq<char>>, codebase: Seq<char>) -> Seq<char> {
    match cached {
        Some(c) => "4. happy-path-tested - cached UserSpecification"@ + "\n[response format instructions]\n"@
            + RESPONSE_FORMAT_INSTRUCTIONS@ + "\n[happy-path-tested prompt]\n"@
            + HAPPY_PATH_TESTED_WITH_CACHE@ + "\n[cached target user specification]\n"@ + c
            + "\n[target user specification]\n"@ + spec_content
            + "\n[codebase, including dependency files and top level UserSpecification]\n"@ + codebase,
        None => "4. happy-path-tested - no cached UserSpecification"@ + "\n[response format instructions]\n"@
            + RESPONSE_FORMAT_INSTRUCTIONS@ + "\n[happy-path-tested prompt]\n"@
            + HAPPY_PATH_TESTED_NO_CACHE@ + "\n[target user specification]\n"@ + spec_content
            + "\n[codebase, including dependency files and top level UserSpecification]\n"@ + codebase,
    }
}

/// What a stage's request shows besides the specification: the top-level
/// specification (empty when there is none), the specification recorded
/// when the stage was last passed, and the codebase (for the documented
/// stage, the module's own files).
pub struct PromptInputs {
    pub top_spec: String,
    pub cached: Option<String>,
    pub codebase: String,
}

pub open spec fn opt_view(o: Option<String>) -> Option<Seq<char>> {
    match o {
        Some(s) => Some(s@),
        None => None,
    }
}

/// The request for a stage.
pub open spec fn stage_prompt(stage: Stage, spec_path: Seq<char>, spec_content: Seq<char>, inputs: PromptInputs) -> Seq<char> {
    match stage {
        Stage::SelfConsistent => self_consistent_prompt(spec_path, spec_content, inputs.top_spec@),
        Stage::Implemented => implemented_prompt(spec_content, opt_view(inputs.cached), inputs.codebase@),
        Stage::Documented => documented_prompt(spec_content, inputs.codebase@),
        Stage::HappyPathTested => happy_path_tested_prompt(spec_content, opt_view(inputs.cached), inputs.codebase@),
    }
}

/// The request for the self-consistency stage.
pub fn build_self_consistent_prompt(spec_path: &str, spec_content: &str, top_spec: &str) -> (r: String)
    ensures
        r@ == self_consistent_prompt(spec_path@, spec_content@, top_spec@),
{
    let mut r = "1. self-consistent".to_owned();
    r.append("\n[response format instructions]\n");
    r.append(RESPONSE_FORMAT_INSTRUCTIONS);
    r.append("\n[self consistent prompt]\n");
    r.append(SELF_CONSISTENT);
    r.append("\n[top level UserSpecification.md]\n");
    r.append(top_spec);
    r.append("\n");
    if !is_top_level_spec(spec_path) {
        r.append("[target user specification]\n");
        r.append(spec_content);
        r.append("\n");
    }
    r
}

/// The request for the implemented stage.
pub fn build_implemented_prompt(spec_content: &str, cached: &Option<String>, codebase: &str) -> (r: String)
    ensures
        r@ == implemented_prompt(spec_content@, opt_view(*cached), codebase@),
{
    match cached {
        Some(c) => {
            let mut r = "2. implemented - cached UserSpecification".to_owned();
            r.append("\n[response format instructions]\n");
            r.append(RESPONSE_FORMAT_INSTRUCTIONS);
            r.append("\n[implementation-with-cache prompt]\n");
            r.append(IMPLEMENTED_WITH_CACHE);
            r.append("\n[cached target user specification]\n");
            r.append(c.as_str());
            r.append("\n");
            r.append("[target user specification]\n");
            r.append(spec_content);
            r.append("\n");
            r.append("[codebase, including dependency files and top level UserSpecification]\n");
            r.append(codebase);
            r
        },
        None => {
            let mut r = "2. implemented - no cached UserSpecification".to_owned();
            r.append("\n[response format instructions]\n");
            r.append(RESPONSE_FORMAT_INSTRUCTIONS);
            r.append("\n[implementation-no-cache prompt]\n");
            r.append(IMPLEMENTED_NO_CACHE);
            r.append("\n");
            r.append("[target user specification]\n");
            r.append(spec_content);
            r.append("\n");
            r.append("[codebase, including dependency files and top level UserSpecification]\n");
            r.append(codebase);
            r
        },
    }
}

/// The request for the documented stage.
pub fn build_documented_prompt(spec_content: &str, module_context: &str) -> (r: String)
    ensures
        r@ == documented_prompt(spec_content@, module_context@),
{
    let mut r = "3. documented".to_owned();
    r.append("\n[response format instructions]\n");
    r.append(RESPONSE_FORMAT_INSTRUCTIONS);
    r.append("\n[documented prompt]\n");
    r.append(DOCUMENTED);
    r.append("\n[target user specification]\n");
    r.append(spec_content);
    r.append("\n[codebase]\n");
    r.append(module_context);
    r
}

/// The request for the happy-path-tested stage.
pub fn build_happy_path_tested_prompt(spec_content: &str, cached: &Option<String>, codebase: &str) -> (r: String)
    ensures
        r@ == happy_path_tested_prompt(spec_content@, opt_view(*cached), codebase@),
{
    match cached {
        Some(c) => {
            let mut r = "4. happy-path-tested - cached UserSpecification".to_owned();
            r.append("\n[response format instructions]\n");
            r.append(RESPONSE_FORMAT_INSTRUCTIONS);
            r.append("\n[happy-path-tested prompt]\n");
            r.append(HAPPY_PATH_TESTED_WITH_CACHE);
            r.append("\n[cached target user specification]\n");
            r.append(c.as_str());
            r.append("\n[target user specification]\n");
            r.append(spec_content);
            r.append("\n[codebase, including dependency files and top level UserSpecification]\n");
            r.append(codebase);
            r
        },
        None => {
            let mut r = "4. happy-path-tested - no cached UserSpecification".to_owned();
            r.append("\n[response format instructions]\n");
            r.append(RESPONSE_FORMAT_INSTRUCTIONS);
            r.append("\n[happy-path-tested prompt]\n");
            r.append(HAPPY_PATH_TESTED_NO_CACHE);
            r.append("\n[target user specification]\n");
            r.append(spec_content);
            r.append("\n[codebase, including dependency files and top level UserSpecification]\n");
            r.append(codebase);
            r
        },
    }
}

/// The request for a stage of the module whose specification is at
/// `spec_path`.
pub fn build_prompt(stage: Stage, spec_path: &str, spec_content: &str, inputs: &PromptInputs) -> (r: String)
    ensures
        r@ == stage_prompt(stage, spec_path@, spec_content@, *inputs),
{
    match stage {
        Stage::SelfConsistent => build_self_consistent_prompt(spec_path, spec_content, inputs.top_spec.as_str()),
        Stage::Implemented => build_implemented_prompt(spec_content, &inputs.cached, inputs.codebase.as_str()),
        Stage::Documented => build_documented_prompt(spec_content, inputs.codebase.as_str()),
        Stage::HappyPathTested => build_happy_path_tested_prompt(
            spec_content,
            &inputs.cached,
            inputs.codebase.as_str(),
        ),
    }
}

/// Files shown one after the other, each with its content.
pub open spec fn shown_files(fs: Seq<(Seq<char>, Seq<char>)>) -> Seq<char>
    decreases fs.len(),
{
    if fs.len() == 0 {
        Seq::empty()
    } else {
        shown_files(fs.drop_last()) + shown_file(fs.last().0, fs.last().1)
    }
}

pub open spec fn pairs_view(fs: Seq<(String, String)>) -> Seq<(Seq<char>, Seq<char>)> {
    fs.map_values(|f: (String, String)| (f.0@, f.1@))
}

/// Files shown one after the other, each with its content (the module's
/// own files, in the order found).
pub fn module_only_context(files: &Vec<(String, String)>) -> (r: String)
    ensures
        r@ == shown_files(pairs_view(files@)),
{
    let ghost fv = pairs_view(files@);
    let mut r = String::new();
    let mut i: usize = 0;
    assert(fv.take(0) =~= Seq::<(Seq<char>, Seq<char>)>::empty());
    while i < files.len()
        invariant
            fv == pairs_view(files@),
            i <= files.len(),
            r@ == shown_files(fv.take(i as int)),
        decreases files.len() - i,
    {
        assert(fv.take(i + 1).drop_last() =~= fv.take(i as int));
        assert(fv[i as int] == (files@[i as int].0@, files@[i as int].1@));
        r.append("--- ");
        r.append(files[i].0.as_str());
        r.append(" ---\n");
        r.append(files[i].1.as_str());
        r.append("\n\n");
        i += 1;
    }
    assert(fv.take(i as int) =~= fv);
    r
}

/// The documents of the dependencies a `ModuleDependencies.md` lists: for
/// each, its `UserSpecification.md` and its `APISignatures.md` under
/// `root`.
pub open spec fn dependency_doc_paths(root: Seq<char>, deps: Seq<Seq<char>>) -> Seq<Seq<char>>
    decreases deps.len(),
{
    if deps.len() == 0 {
        Seq::empty()
    } else {
        let d = path_join(root, deps.last());
        dependency_doc_paths(root, deps.drop_last()).push(path_join(d, "UserSpecification.md"@)).push(
            path_join(d, "APISignatures.md"@),
        )
    }
}

/// The documents to show of the dependencies a `ModuleDependencies.md`
/// (as read) lists, in order.
pub fn dependency_docs(root: &str, deps_content: &str) -> (r: Vec<String>)
    ensures
        r.deep_view() == dependency_doc_paths(root@, dep_lines(lines_of(deps_content@))),
{
    let deps = parse_dependencies(deps_content);
    let ghost dv = deps.deep_view();
    let mut out: Vec<String> = Vec::new();
    let mut i: usize = 0;
    assert(dv.take(0) =~= Seq::<Seq<char>>::empty());
    while i < deps.len()
        invariant
            dv == deps.deep_view(),
            i <= deps.len(),
            out.deep_view() == dependency_doc_paths(root@, dv.take(i as int)),
        decreases deps.len() - i,
    {
        assert(dv.take(i + 1).drop_last() =~= dv.take(i as int));
        assert(dv[i as int] == deps[i as int]@);
        let d = join(root, deps[i].as_str());
        let a = join(d.as_str(), "UserSpecification.md");
        let b = join(d.as_str(), "APISignatures.md");
        let ghost before = out.deep_view();
        let ghost av = a@;
        let ghost bv = b@;
        out.push(a);
        out.push(b);
        assert(out.deep_view() =~= before.push(av).push(bv));
        i += 1;
    }
    assert(dv.take(i as int) =~= dv);
    out
}

/// The codebase a stage shows: the top-level specification when there is
/// one, `Cargo.toml` when it exists, the module's own files, and the
/// documents of its dependencies that exist.
pub open spec fn codebase_context(
    top_spec: Seq<char>,
    cargo: Option<Result<Seq<char>, Seq<char>>>,
    module_context: Seq<char>,
    docs: Seq<(Seq<char>, Seq<char>)>,
) -> Result<Seq<char>, Seq<char>> {
    let top = if top_spec.len() == 0 {
        Seq::empty()
    } else {
        "--- UserSpecification.md ---\n"@ + top_spec + "\n\n"@
    };
    match cargo {
        Some(Err(e)) => Err("Failed to read Cargo.toml: "@ + e),
        Some(Ok(c)) => Ok(top + "--- Cargo.toml ---\n"@ + c + "\n\n"@ + module_context + shown_files(docs)),
        None => Ok(top + module_context + shown_files(docs)),
    }
}

pub open spec fn cargo_view(c: Option<Result<String, String>>) -> Option<Result<Seq<char>, Seq<char>>> {
    match c {
        None => None,
        Some(Ok(s)) => Some(Ok(s@)),
        Some(Err(e)) => Some(Err(e@)),
    }
}

/// The codebase a stage shows.  `cargo` is `Cargo.toml` as read (`None`
/// when it does not exist); `docs` are the dependency documents that
/// exist, with their content.
pub fn build_codebase_context(
    top_spec: &str,
    cargo: &Option<Result<String, String>>,
    module_context: &str,
    docs: &Vec<(String, String)>,
) -> (r: Result<String, AppError>)
    ensures
        match codebase_context(top_spec@, cargo_view(*cargo), module_context@, pairs_view(docs@)) {
            Ok(s) => r matches Ok(x) && x@ == s,
            Err(m) => r matches Err(AppError::FileUpdate(x)) && x@ == m,
        },
{
    let mut r = String::new();
    if !top_spec.is_empty() {
        r.append("--- UserSpecification.md ---\n");
        r.append(top_spec);
        r.append("\n\n");
    }
    match cargo {
        Some(Err(e)) => {
            let mut m = "Failed to read Cargo.toml: ".to_owned();
            m.append(e.as_str());
            return Err(AppError::FileUpdate(m));
        },
        Some(Ok(c)) => {
            r.append("--- Cargo.toml ---\n");
            r.append(c.as_str());
            r.append("\n\n");
        },
        None => {},
    }
    r.append(module_context);
    let shown = module_only_context(docs);
    r.append(shown.as_str());
    Ok(r)
}

} // verus!
