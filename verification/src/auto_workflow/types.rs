//! The stages a module's specification goes through, and where the record
//! of a passed stage is kept.
use vstd::prelude::*;
use crate::paths::{join, path_components, path_join, path_parent, render_path, strip_prefix, strip_prefix_comps, SComp};

verus! {

/// A stage of the review of one module's specification, in the order they
/// are taken.
#[derive(Debug, Clone, Copy, PartialEq, Eq, Structural, PartialOrd, Ord, Hash)]
pub enum Stage {
    SelfConsistent,
    Implemented,
    Documented,
    HappyPathTested,
}

/// The name a stage is written as.
pub open spec fn stage_name(s: Stage) -> Seq<char> {
    match s {
        Stage::SelfConsistent => "self-consistent"@,
        Stage::Implemented => "implemented"@,
        Stage::Documented => "documented"@,
        Stage::HappyPathTested => "happy-path-tested"@,
    }
}

impl Stage {
    /// The name the stage is written as.
    pub fn as_str(&self) -> (r: &'static str)
        ensures
            r@ == stage_name(*self),
    {
        match self {
            Stage::SelfConsistent => "self-consistent",
            Stage::Implemented => "implemented",
            Stage::Documented => "documented",
            Stage::HappyPathTested => "happy-path-tested",
        }
    }
}

/// The next stage to take on a module.
#[derive(Debug, Clone)]
pub struct Task {
    pub spec_path: String,
    pub stage: Stage,
}

/// The directory of a specification file (`Path::parent`), or `root` when
/// it has none.
pub open spec fn module_dir_of(root: Seq<char>, spec_path: Seq<char>) -> Seq<char> {
    let cs = path_components(spec_path);
    if cs.len() > 0 && !(cs.last() is RootDir) {
        render_path(cs.drop_last())
    } else {
        root
    }
}

/// The module's directory relative to `root` (`Path::strip_prefix`), or as
/// it is when it does not lie under `root`.
pub open spec fn module_rel_dir(root: Seq<char>, spec_path: Seq<char>) -> Seq<char> {
    let md = module_dir_of(root, spec_path);
    match strip_prefix_comps(md, root) {
        Some(rest) => render_path(rest),
        None => md,
    }
}

/// Where the record of `stage` for the module of `spec_path` is kept:
/// `root/agent-state/specifications/<module dir>/<stage>`.
pub open spec fn stage_record_path(root: Seq<char>, spec_path: Seq<char>, stage: Stage) -> Seq<char> {
    path_join(
        path_join(
            path_join(path_join(root, "agent-state"@), "specifications"@),
            module_rel_dir(root, spec_path),
        ),
        stage_name(stage),
    )
}

/// Where the record of `stage` for the module of `spec_path` is kept.
pub fn stage_record_file(root: &str, spec_path: &str, stage: Stage) -> (r: String)
    ensures
        r@ == stage_record_path(root@, spec_path@, stage),
{
    let md = match path_parent(spec_path) {
        Some(q) => q,
        None => root.to_owned(),
    };
    assert(md@ == module_dir_of(root@, spec_path@));
    let rel = match strip_prefix(md.as_str(), root) {
        Some(rest) => rest,
        None => md,
    };
    let a = join(root, "agent-state");
    let b = join(a.as_str(), "specifications");
    let c = join(b.as_str(), rel.as_str());
    join(c.as_str(), stage.as_str())
}

} // verus!
