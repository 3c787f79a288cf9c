//! Which files may be read into the model's context: no absolute paths or
//! `..`, nothing under the project's private directories, and nothing the
//! `.gitignore` ignores.
use vstd::prelude::*;
use crate::committing_code::file_updater::{first_name, lemma_safe_components, unsafe_component_msg};
use crate::error::AppError;
use crate::gitignore::{opt_view, rules_build, rules_lines, rules_verdict, IgnoreRules, MatchKind};
use crate::paths::{
    clean_path, comp_view, comps_view, components, lemma_cleaned_plain, path_cleaned,
    path_components, PathComp,
};
use crate::text::{concat, str_eq};

verus! {

/// The directories whose files never go into the context.
pub open spec fn private_dir(n: Seq<char>) -> bool {
    n == "app-data"@ || n == "agent-config"@ || n == "agent-state"@
}

/// Why a path may not be read into the context under the `.gitignore`
/// rules of `root` and `lines`, or `None` when it may.  Absolute paths and
/// `..` are judged on the path as given, the other rules on its cleaned
/// form.
pub open spec fn context_error(root: Seq<char>, lines: Seq<Seq<char>>, p: Seq<char>) -> Option<Seq<char>> {
    match unsafe_component_msg(path_components(p)) {
        Some(m) => Some(m),
        None => {
            let c = path_cleaned(p);
            if first_name(c) is Some && private_dir(first_name(c)->0) {
                Some("File '"@ + c + "' is in a protected directory and cannot be loaded into context."@)
            } else if rules_verdict(root, lines, c, false) == MatchKind::Ignore {
                Some("File '"@ + c + "' matches a rule in .gitignore and cannot be loaded into context."@)
            } else {
                None
            }
        },
    }
}

/// The rules that guard reading files into the context.
pub struct PathFilter {
    rules: IgnoreRules,
}

impl PathFilter {
    /// The root the `.gitignore` patterns are relative to.
    pub closed spec fn root(&self) -> Seq<char> {
        self.rules.root()
    }

    /// The `.gitignore` pattern lines in force.
    pub closed spec fn lines(&self) -> Seq<Seq<char>> {
        self.rules.lines()
    }

    /// The filter of the project in the current directory, whose
    /// `.gitignore` has the given content (`None`: no such file).
    pub fn new(gitignore: Option<&str>) -> (r: Result<PathFilter, AppError>)
        ensures
            r is Ok <==> rules_build(rules_lines(opt_view(gitignore))),
            r matches Ok(f) ==> f.root() == "."@ && f.lines() == rules_lines(opt_view(gitignore)),
            r matches Err(e) ==> e is Config,
    {
        Self::new_for_base_dir(".", gitignore)
    }

    /// The filter of the project in `base_dir`, whose `.gitignore` has the
    /// given content (`None`: no such file).
    pub fn new_for_base_dir(base_dir: &str, gitignore: Option<&str>) -> (r: Result<PathFilter, AppError>)
        ensures
            r is Ok <==> rules_build(rules_lines(opt_view(gitignore))),
            r matches Ok(f) ==> f.root() == base_dir@ && f.lines() == rules_lines(opt_view(gitignore)),
            r matches Err(e) ==> e is Config,
    {
        match IgnoreRules::build(base_dir, gitignore) {
            Ok(rules) => Ok(PathFilter { rules }),
            Err(e) => Err(e),
        }
    }

    /// Whether `path` may be read into the context; the refusal is a
    /// `FileUpdate` error.
    pub fn validate(&self, path: &str) -> (r: Result<(), AppError>)
        ensures
            match context_error(self.root(), self.lines(), path@) {
                None => r is Ok,
                Some(m) => r matches Err(AppError::FileUpdate(x)) && x@ == m,
            },
    {
        let cleaned = clean_path(path);
        let comps = components(path);
        let ghost cv = comps_view(comps@);
        let mut i: usize = 0;
        assert(cv.skip(0) =~= cv);
        while i < comps.len()
            invariant
                cv == comps_view(comps@),
                cv == path_components(path@),
                i <= comps.len(),
                unsafe_component_msg(cv.skip(i as int)) == unsafe_component_msg(cv),
            decreases comps.len() - i,
        {
            assert(cv.skip(i as int)[0] == comp_view(comps@[i as int]));
            match &comps[i] {
                PathComp::RootDir => {
                    return Err(AppError::FileUpdate("Absolute paths are not allowed.".to_owned()));
                },
                PathComp::ParentDir => {
                    return Err(
                        AppError::FileUpdate("Path traversal ('..') is not allowed.".to_owned()),
                    );
                },
                _ => {},
            }
            assert(cv.skip(i as int).drop_first() =~= cv.skip(i + 1));
            i += 1;
        }
        proof {
            assert(cv.skip(i as int).len() == 0);
            lemma_safe_components(cv);
            lemma_cleaned_plain(path@);
        }
        let cc = components(cleaned.as_str());
        if cc.len() > 0 {
            match &cc[0] {
                PathComp::Normal(x) => {
                    let name = x.as_str();
                    if str_eq(name, "app-data") || str_eq(name, "agent-config") || str_eq(
                        name,
                        "agent-state",
                    ) {
                        let m = concat(
                            concat("File '", cleaned.as_str()).as_str(),
                            "' is in a protected directory and cannot be loaded into context.",
                        );
                        return Err(AppError::FileUpdate(m));
                    }
                },
                _ => {},
            }
        }
        match self.rules.verdict(cleaned.as_str()) {
            MatchKind::Ignore => {
                let m = concat(
                    concat("File '", cleaned.as_str()).as_str(),
                    "' matches a rule in .gitignore and cannot be loaded into context.",
                );
                Err(AppError::FileUpdate(m))
            },
            _ => Ok(()),
        }
    }
}

} // verus!
