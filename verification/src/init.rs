//! The skeleton of a new project: which directories to create and which
//! files to write where they do not exist yet.
use vstd::prelude::*;
use crate::paths::{join, path_join};

verus! {

/// The `.gitignore` of a new project: it keeps the build output and the
/// tooling's private directories out of version control.
pub const TEMPLATE_DOT_GITIGNORE: &'static str = "/target
/agent-config
";

/// The `build.sh` of a new project.
pub const TEMPLATE_BUILD_SH: &'static str = "#!/bin/bash
set -e
cargo build
cargo test
";

/// The `src/main.rs` of a new project.
pub const TEMPLATE_SRC_MAIN_RS: &'static str = "fn main() {
    println!(\"Hello from your new CodeCommit project!\");
}
";

/// The `UserSpecification.md` of a new project.
pub const TEMPLATE_USER_SPEC: &'static str = "# User Specification

Describe your project here. This document defines your project's requirements and must remain the source of truth for your implementation.
";

/// The `Cargo.toml` of a new project with the given name.
pub open spec fn cargo_toml_text(name: Seq<char>) -> Seq<char> {
    "[package]\nname = \""@ + name + "\"\nversion = \"0.1.0\"\nedition = \"2021\"\n\n[dependencies]\n"@
}

/// The `Cargo.toml` of a new project with the given name.
pub fn cargo_toml_with_name(project_name: &str) -> (r: String)
    ensures
        r@ == cargo_toml_text(project_name@),
{
    let mut r = "[package]\nname = \"".to_owned();
    r.append(project_name);
    r.append("\"\nversion = \"0.1.0\"\nedition = \"2021\"\n\n[dependencies]\n");
    r
}

/// What setting up a project takes: directories to create (with their
/// parents), then files to write, each only where no file is yet.
pub struct InitPlan {
    pub dirs: Vec<String>,
    pub files: Vec<(String, String)>,
}

pub open spec fn init_dirs(base: Seq<char>) -> Seq<Seq<char>> {
    seq![
        path_join(base, "agent-config"@),
        path_join(base, "agent-config/logs"@),
        path_join(base, "src"@),
    ]
}

pub open spec fn init_files(base: Seq<char>, name: Seq<char>) -> Seq<(Seq<char>, Seq<char>)> {
    seq![
        (path_join(base, ".gitignore"@), TEMPLATE_DOT_GITIGNORE@),
        (path_join(base, "build.sh"@), TEMPLATE_BUILD_SH@),
        (path_join(base, "Cargo.toml"@), cargo_toml_text(name)),
        (path_join(base, "src/main.rs"@), TEMPLATE_SRC_MAIN_RS@),
        (path_join(base, "UserSpecification.md"@), TEMPLATE_USER_SPEC@),
        (path_join(base, "agent-config/query.txt"@), Seq::<char>::empty()),
    ]
}

pub open spec fn file_pairs_view(fs: Seq<(String, String)>) -> Seq<(Seq<char>, Seq<char>)> {
    fs.map_values(|f: (String, String)| (f.0@, f.1@))
}

/// The skeleton of a project named `project_name` in `base_dir`.
pub fn create_in_dir(base_dir: &str, project_name: &str) -> (r: InitPlan)
    ensures
        r.dirs.deep_view() == init_dirs(base_dir@),
        file_pairs_view(r.files@) == init_files(base_dir@, project_name@),
{
    let mut dirs: Vec<String> = Vec::new();
    dirs.push(join(base_dir, "agent-config"));
    dirs.push(join(base_dir, "agent-config/logs"));
    dirs.push(join(base_dir, "src"));
    let mut files: Vec<(String, String)> = Vec::new();
    files.push((join(base_dir, ".gitignore"), TEMPLATE_DOT_GITIGNORE.to_owned()));
    files.push((join(base_dir, "build.sh"), TEMPLATE_BUILD_SH.to_owned()));
    files.push((join(base_dir, "Cargo.toml"), cargo_toml_with_name(project_name)));
    files.push((join(base_dir, "src/main.rs"), TEMPLATE_SRC_MAIN_RS.to_owned()));
    files.push((join(base_dir, "UserSpecification.md"), TEMPLATE_USER_SPEC.to_owned()));
    files.push((join(base_dir, "agent-config/query.txt"), String::new()));
    assert(dirs.deep_view() =~= init_dirs(base_dir@));
    assert(file_pairs_view(files@) =~= init_files(base_dir@, project_name@));
    InitPlan { dirs, files }
}

/// The skeleton of a project named `project_name` in the current
/// directory.
pub fn run_init_command(project_name: &str) -> (r: InitPlan)
    ensures
        r.dirs.deep_view() == init_dirs("."@),
        file_pairs_view(r.files@) == init_files("."@, project_name@),
{
    create_in_dir(".", project_name)
}

/// The first `n` files of `fs` that are to be written, in order: those
/// that `exists` marks as missing.
pub open spec fn missing_files(fs: Seq<(Seq<char>, Seq<char>)>, exists: Seq<bool>, n: int) -> Seq<(Seq<char>, Seq<char>)>
    decreases n,
{
    if n <= 0 {
        Seq::empty()
    } else {
        let pre = missing_files(fs, exists, n - 1);
        if exists[n - 1] {
            pre
        } else {
            pre.push(fs[n - 1])
        }
    }
}

/// The files of `plan` to write, where `exists[i]` tells whether its
/// `i`-th file is there already: only the missing ones, in the plan's
/// order, so that no existing file is overwritten.
pub fn files_to_write(plan: &InitPlan, exists: &Vec<bool>) -> (r: Vec<(String, String)>)
    requires
        exists.len() == plan.files.len(),
    ensures
        file_pairs_view(r@) == missing_files(file_pairs_view(plan.files@), exists@, plan.files.len() as int),
{
    let ghost fs = file_pairs_view(plan.files@);
    let mut out: Vec<(String, String)> = Vec::new();
    let mut i: usize = 0;
    while i < plan.files.len()
        invariant
            exists.len() == plan.files.len(),
            fs == file_pairs_view(plan.files@),
            i <= plan.files.len(),
            file_pairs_view(out@) == missing_files(fs, exists@, i as int),
        decreases plan.files.len() - i,
    {
        if !exists[i] {
            let ghost before = file_pairs_view(out@);
            let f = (plan.files[i].0.clone(), plan.files[i].1.clone());
            out.push(f);
            assert(file_pairs_view(out@) =~= before.push(fs[i as int]));
        }
        i += 1;
    }
    out
}

/// Setting up never overwrites: every file written is one that was
/// missing, and every missing file is written.
pub proof fn lemma_init_writes_exactly_missing(fs: Seq<(Seq<char>, Seq<char>)>, exists: Seq<bool>, n: int)
    requires
        0 <= n <= fs.len(),
        exists.len() == fs.len(),
    ensures
        forall|j: int| 0 <= j < missing_files(fs, exists, n).len() ==> exists|k: int|
            0 <= k < n && !exists[k] && #[trigger] missing_files(fs, exists, n)[j] == fs[k],
        forall|k: int| 0 <= k < n && !exists[k] ==> missing_files(fs, exists, n).contains(#[trigger] fs[k]),
    decreases n,
{
    if n > 0 {
        lemma_init_writes_exactly_missing(fs, exists, n - 1);
        let pre = missing_files(fs, exists, n - 1);
        let cur = missing_files(fs, exists, n);
        assert forall|j: int| 0 <= j < cur.len() implies exists|k: int|
            0 <= k < n && !exists[k] && #[trigger] cur[j] == fs[k] by {
            if j < pre.len() {
                assert(cur[j] == pre[j]);
            } else {
                assert(cur[j] == fs[n - 1]);
            }
        }
        assert forall|k: int| 0 <= k < n && !exists[k] implies cur.contains(#[trigger] fs[k]) by {
            if k < n - 1 {
                let w = choose|w: int| 0 <= w < pre.len() && pre[w] == fs[k];
                assert(cur[w] == fs[k]);
            } else {
                assert(cur[cur.len() - 1] == fs[k]);
            }
        }
    }
}

/// Setting up a second time, once every file of the plan exists, writes
/// nothing.
pub proof fn lemma_init_idempotent(fs: Seq<(Seq<char>, Seq<char>)>, exists: Seq<bool>)
    requires
        exists.len() == fs.len(),
        forall|k: int| 0 <= k < exists.len() ==> #[trigger] exists[k],
    ensures
        missing_files(fs, exists, fs.len() as int).len() == 0,
{
    lemma_init_writes_exactly_missing(fs, exists, fs.len() as int);
    let m = missing_files(fs, exists, fs.len() as int);
    if m.len() > 0 {
        assert(m[0] == m[0]);
    }
}

} // verus!
