//! Which files the model may change: no absolute paths or `..`, none of
//! the project's critical files, none of its protected directories, and
//! nothing the `.gitignore` ignores.  A batch of updates is checked whole
//! before any of it is carried out.
use vstd::prelude::*;
use crate::committing_code::response_parser::{opt_string_view, FileUpdate};
use crate::error::AppError;
use crate::gitignore::{opt_view, rules_build, rules_lines, rules_verdict, IgnoreRules, MatchKind};
use crate::paths::{
    clean_path, components, lemma_cleaned_plain, path_cleaned, path_components, path_eq,
    paths_equal, plain_relative, PathComp, SComp, comp_view, comps_view,
};
use crate::text::{concat, str_eq};

verus! {

pub open spec fn absolute_msg() -> Seq<char> {
    "Absolute paths are not allowed."@
}

pub open spec fn traversal_msg() -> Seq<char> {
    "Path traversal ('..') is not allowed."@
}

/// The message for the first root or `..` component, reading left to right.
pub open spec fn unsafe_component_msg(cs: Seq<SComp>) -> Option<Seq<char>>
    decreases cs.len(),
{
    if cs.len() == 0 {
        None
    } else if cs[0] is RootDir {
        Some(absolute_msg())
    } else if cs[0] is ParentDir {
        Some(traversal_msg())
    } else {
        unsafe_component_msg(cs.drop_first())
    }
}

/// The files no update may touch, compared as paths.
pub open spec fn critical_file(c: Seq<char>) -> bool {
    ||| path_eq(c, ".gitignore"@)
    ||| path_eq(c, "Cargo.lock"@)
    ||| path_eq(c, "build.sh"@)
    ||| path_eq(c, "LLMInstructions.md"@)
}

/// The file name no update may touch, in any directory.
pub open spec fn critical_file_name(c: Seq<char>) -> bool {
    let cs = path_components(c);
    cs.len() > 0 && cs.last() == SComp::Normal("UserSpecification.md"@)
}

/// The top-level directories no update may touch.
pub open spec fn protected_dir(n: Seq<char>) -> bool {
    n == ".git"@ || n == "target"@ || n == "agent-config"@ || n == "app-data"@
}

/// The name of the first component, when it is a normal one.
pub open spec fn first_name(c: Seq<char>) -> Option<Seq<char>> {
    let cs = path_components(c);
    if cs.len() > 0 && cs[0] is Normal {
        Some(cs[0]->Normal_0)
    } else {
        None
    }
}

/// Why a path may not be modified under the `.gitignore` rules of `root`
/// and `lines`, or `None` when it may.  Absolute paths and `..` are judged
/// on the path as given; the other rules on its cleaned form.
pub open spec fn protection_error(root: Seq<char>, lines: Seq<Seq<char>>, p: Seq<char>) -> Option<Seq<char>> {
    match unsafe_component_msg(path_components(p)) {
        Some(m) => Some(m),
        None => {
            let c = path_cleaned(p);
            if critical_file(c) || critical_file_name(c) {
                Some("Modification of critical file '"@ + c + "' is not allowed."@)
            } else if first_name(c) is Some && protected_dir(first_name(c)->0) {
                Some("Modification of directory '"@ + first_name(c)->0 + "/' is not allowed."@)
            } else if rules_verdict(root, lines, c, false) == MatchKind::Ignore {
                Some("File '"@ + c + "' matches a rule in .gitignore and cannot be modified."@)
            } else {
                None
            }
        },
    }
}

/// The four critical files of a project (`.gitignore`, `Cargo.lock`,
/// `build.sh`, `LLMInstructions.md`) are never modifiable, whatever the
/// `.gitignore` says: a path that cleans to one of them is refused, as a
/// critical file unless its own components are already refused.
pub proof fn lemma_critical_files_refused(root: Seq<char>, lines: Seq<Seq<char>>, p: Seq<char>)
    requires
        path_eq(path_cleaned(p), ".gitignore"@) || path_eq(path_cleaned(p), "Cargo.lock"@) || path_eq(
            path_cleaned(p),
            "build.sh"@,
        ) || path_eq(path_cleaned(p), "LLMInstructions.md"@),
    ensures
        protection_error(root, lines, p) is Some,
        unsafe_component_msg(path_components(p)) is None ==> protection_error(root, lines, p) == Some(
            "Modification of critical file '"@ + path_cleaned(p) + "' is not allowed."@,
        ),
{
}

proof fn lemma_unsafe_component_found(cs: Seq<SComp>, i: int)
    requires
        0 <= i < cs.len(),
        cs[i] is RootDir || cs[i] is ParentDir,
    ensures
        unsafe_component_msg(cs) is Some,
    decreases cs.len(),
{
    if i > 0 && !(cs[0] is RootDir) && !(cs[0] is ParentDir) {
        assert(cs.drop_first()[i - 1] == cs[i]);
        lemma_unsafe_component_found(cs.drop_first(), i - 1);
    }
}

/// Paths that leave the project are never modifiable: one with a root or
/// a `..` component anywhere is refused, whatever the `.gitignore` says.
pub proof fn lemma_escaping_paths_refused(root: Seq<char>, lines: Seq<Seq<char>>, p: Seq<char>, i: int)
    requires
        0 <= i < path_components(p).len(),
        path_components(p)[i] is RootDir || path_components(p)[i] is ParentDir,
    ensures
        protection_error(root, lines, p) is Some,
{
    lemma_unsafe_component_found(path_components(p), i);
}

/// The protected directories (`.git`, `target`, `agent-config`,
/// `app-data`) are never modifiable: a path whose cleaned form starts in
/// one of them is refused, whatever the `.gitignore` says.
pub proof fn lemma_protected_dirs_refused(root: Seq<char>, lines: Seq<Seq<char>>, p: Seq<char>)
    requires
        first_name(path_cleaned(p)) == Some(".git"@) || first_name(path_cleaned(p)) == Some("target"@)
            || first_name(path_cleaned(p)) == Some("agent-config"@) || first_name(path_cleaned(p)) == Some(
            "app-data"@,
        ),
    ensures
        protection_error(root, lines, p) is Some,
{
}

/// The refusal of the first path that may not be modified, or `None`.
pub open spec fn first_refusal(root: Seq<char>, lines: Seq<Seq<char>>, ps: Seq<Seq<char>>) -> Option<Seq<char>>
    decreases ps.len(),
{
    if ps.len() == 0 {
        None
    } else {
        match protection_error(root, lines, ps[0]) {
            Some(m) => Some(m),
            None => first_refusal(root, lines, ps.drop_first()),
        }
    }
}

pub open spec fn update_paths(us: Seq<FileUpdate>) -> Seq<Seq<char>> {
    us.map_values(|u: FileUpdate| u.path@)
}

/// A path whose components raise no complaint has neither a root nor `..`.
pub proof fn lemma_safe_components(cs: Seq<SComp>)
    requires
        unsafe_component_msg(cs) is None,
    ensures
        plain_relative(cs),
    decreases cs.len(),
{
    if cs.len() > 0 {
        lemma_safe_components(cs.drop_first());
        assert forall|i: int| 0 <= i < cs.len() implies !(#[trigger] cs[i] is RootDir) && !(
        cs[i] is ParentDir) by {
            if i > 0 {
                assert(cs[i] == cs.drop_first()[i - 1]);
            }
        }
    }
}

/// The rules that guard file modification.
pub struct PathProtection {
    rules: IgnoreRules,
}

impl PathProtection {
    /// The root the `.gitignore` patterns are relative to.
    pub closed spec fn root(&self) -> Seq<char> {
        self.rules.root()
    }

    /// The `.gitignore` pattern lines in force.
    pub closed spec fn lines(&self) -> Seq<Seq<char>> {
        self.rules.lines()
    }

    /// The rules of the project in the current directory, whose
    /// `.gitignore` has the given content (`None`: no such file).
    pub fn new(gitignore: Option<&str>) -> (r: Result<PathProtection, AppError>)
        ensures
            r is Ok <==> rules_build(rules_lines(opt_view(gitignore))),
            r matches Ok(p) ==> p.root() == "."@ && p.lines() == rules_lines(opt_view(gitignore)),
            r matches Err(e) ==> e is Config,
    {
        Self::new_for_base_dir(".", gitignore)
    }

    /// The rules of the project in `base_dir`, whose `.gitignore` has the
    /// given content (`None`: no such file).
    pub fn new_for_base_dir(base_dir: &str, gitignore: Option<&str>) -> (r: Result<PathProtection, AppError>)
        ensures
            r is Ok <==> rules_build(rules_lines(opt_view(gitignore))),
            r matches Ok(p) ==> p.root() == base_dir@ && p.lines() == rules_lines(opt_view(gitignore)),
            r matches Err(e) ==> e is Config,
    {
        match IgnoreRules::build(base_dir, gitignore) {
            Ok(rules) => Ok(PathProtection { rules }),
            Err(e) => Err(e),
        }
    }

    /// Whether `path` may be modified; the refusal is a `FileUpdate` error.
    pub fn validate(&self, path: &str) -> (r: Result<(), AppError>)
        ensures
            match protection_error(self.root(), self.lines(), path@) {
                None => r is Ok,
                Some(m) => r matches Err(AppError::FileUpdate(x)) && x@ == m,
            },
    {
        let cleaned = clean_path(path);
        self.validate_paths(path, cleaned.as_str())
    }

    /// `validate` for a path and its cleaned form.
    fn validate_paths(&self, original: &str, cleaned: &str) -> (r: Result<(), AppError>)
        requires
            cleaned@ == path_cleaned(original@),
        ensures
            match protection_error(self.root(), self.lines(), original@) {
                None => r is Ok,
                Some(m) => r matches Err(AppError::FileUpdate(x)) && x@ == m,
            },
    {
        let comps = components(original);
        let ghost cv = comps_view(comps@);
        let mut i: usize = 0;
        assert(cv.skip(0) =~= cv);
        while i < comps.len()
            invariant
                cv == comps_view(comps@),
                cv == path_components(original@),
                i <= comps.len(),
                unsafe_component_msg(cv.skip(i as int)) == unsafe_component_msg(cv),
            decreases comps.len() - i,
        {
            assert(cv.skip(i as int)[0] == comp_view(comps@[i as int]));
            match &comps[i] {
                PathComp::RootDir => {
                    return Err(AppError::FileUpdate("Absolute paths are not allowed.".to_owned()));
                },
                PathComp::ParentDir => {
                    return Err(
                        AppError::FileUpdate("Path traversal ('..') is not allowed.".to_owned()),
                    );
                },
                _ => {},
            }
            assert(cv.skip(i as int).drop_first() =~= cv.skip(i + 1));
            i += 1;
        }
        proof {
            assert(cv.skip(i as int).len() == 0);
            lemma_safe_components(cv);
            lemma_cleaned_plain(original@);
        }
        let cc = components(cleaned);
        let n = cc.len();
        let critical = paths_equal(cleaned, ".gitignore") || paths_equal(cleaned, "Cargo.lock")
            || paths_equal(cleaned, "build.sh") || paths_equal(cleaned, "LLMInstructions.md");
        let critical_name = n > 0 && match &cc[n - 1] {
            PathComp::Normal(x) => str_eq(x.as_str(), "UserSpecification.md"),
            _ => false,
        };
        if critical || critical_name {
            let m = concat(concat("Modification of critical file '", cleaned).as_str(), "' is not allowed.");
            return Err(AppError::FileUpdate(m));
        }
        if n > 0 {
            match &cc[0] {
                PathComp::Normal(x) => {
                    let name = x.as_str();
                    if str_eq(name, ".git") || str_eq(name, "target") || str_eq(name, "agent-config")
                        || str_eq(name, "app-data") {
                        let m = concat(concat("Modification of directory '", name).as_str(), "/' is not allowed.");
                        return Err(AppError::FileUpdate(m));
                    }
                },
                _ => {},
            }
        }
        match self.rules.verdict(cleaned) {
            MatchKind::Ignore => {
                let m = concat(
                    concat("File '", cleaned).as_str(),
                    "' matches a rule in .gitignore and cannot be modified.",
                );
                Err(AppError::FileUpdate(m))
            },
            _ => Ok(()),
        }
    }
}

/// The updates to carry out, their paths cleaned, when every one of them
/// passes the protection rules; otherwise the refusal of the first one
/// that does not, and nothing is to be carried out.
pub fn plan_updates(protection: &PathProtection, updates: &Vec<FileUpdate>) -> (r: Result<Vec<FileUpdate>, AppError>)
    ensures
        match first_refusal(protection.root(), protection.lines(), update_paths(updates@)) {
            Some(m) => r matches Err(AppError::FileUpdate(x)) && x@ == m,
            None => r matches Ok(v) && v.len() == updates.len() && forall|i: int|
                0 <= i < v.len() ==> (#[trigger] v@[i]).path@ == path_cleaned(updates@[i].path@)
                    && opt_string_view(v@[i].content) == opt_string_view(updates@[i].content),
        },
{
    let ghost ps = update_paths(updates@);
    let mut out: Vec<FileUpdate> = Vec::new();
    let mut i: usize = 0;
    assert(ps.skip(0) =~= ps);
    while i < updates.len()
        invariant
            ps == update_paths(updates@),
            i <= updates.len(),
            out.len() == i,
            first_refusal(protection.root(), protection.lines(), ps.skip(i as int)) == first_refusal(
                protection.root(),
                protection.lines(),
                ps,
            ),
            forall|k: int|
                0 <= k < i ==> (#[trigger] out@[k]).path@ == path_cleaned(updates@[k].path@)
                    && opt_string_view(out@[k].content) == opt_string_view(updates@[k].content),
        decreases updates.len() - i,
    {
        let u = &updates[i];
        assert(ps.skip(i as int)[0] == u.path@);
        assert(ps.skip(i as int).drop_first() =~= ps.skip(i + 1));
        let cleaned = clean_path(u.path.as_str());
        match protection.validate_paths(u.path.as_str(), cleaned.as_str()) {
            Err(e) => {
                return Err(e);
            },
            Ok(()) => {},
        }
        let content = match &u.content {
            Some(c) => Some(c.clone()),
            None => None,
        };
        out.push(FileUpdate { path: cleaned, content });
        i += 1;
    }
    Ok(out)
}

} // verus!
