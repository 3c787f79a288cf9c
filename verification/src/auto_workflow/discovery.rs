//! Choosing the next task: the stage each module still has to pass, and
//! among the modules with one, the lowest level first, then the first path.
use vstd::prelude::*;
use crate::auto_workflow::graph::ModuleNode;
use crate::auto_workflow::types::{Stage, Task};
use crate::committing_code::response_parser::opt_string_view;
use crate::error::AppError;
use crate::paths::{
    comps_less, join, lemma_comps_less_strict, lemma_comps_less_trans, path_components,
    path_join, path_less, path_less_exec, paths_equal,
};
use crate::text::{concat, str_eq};

verus! {

/// What was read for one module: its specification (`None` when it could
/// not be read) and, stage by stage in order, the specification recorded
/// when the stage was passed (`None` when there is no readable record).
pub struct ModuleProgress {
    pub spec: Option<String>,
    pub records: Vec<Option<String>>,
}

/// The stages in order.
pub open spec fn stage_at(i: int) -> Stage {
    if i == 0 {
        Stage::SelfConsistent
    } else if i == 1 {
        Stage::Implemented
    } else if i == 2 {
        Stage::Documented
    } else {
        Stage::HappyPathTested
    }
}

pub open spec fn records_view(rs: Seq<Option<String>>) -> Seq<Option<Seq<char>>> {
    rs.map_values(|r: Option<String>| opt_string_view(r))
}

/// The first stage, from the `i`-th on, whose record is not the current
/// specification: a stage counts as passed only for the text it was
/// passed with.
pub open spec fn next_stage_from(content: Seq<char>, records: Seq<Option<Seq<char>>>, i: int) -> Option<Stage>
    decreases 4 - i,
{
    if i < 0 || i >= 4 {
        None
    } else if records[i] != Some(content) {
        Some(stage_at(i))
    } else {
        next_stage_from(content, records, i + 1)
    }
}

/// The stage a module still has to pass, if any.
pub fn next_stage(content: &str, records: &Vec<Option<String>>) -> (r: Option<Stage>)
    requires
        records.len() == 4,
    ensures
        r == next_stage_from(content@, records_view(records@), 0),
{
    let ghost rv = records_view(records@);
    let mut i: usize = 0;
    while i < 4
        invariant
            records.len() == 4,
            rv == records_view(records@),
            i <= 4,
            next_stage_from(content@, rv, i as int) == next_stage_from(content@, rv, 0),
        decreases 4 - i,
    {
        assert(rv[i as int] == opt_string_view(records@[i as int]));
        let passed = match &records[i] {
            Some(c) => str_eq(c.as_str(), content),
            None => false,
        };
        if !passed {
            let s = if i == 0 {
                Stage::SelfConsistent
            } else if i == 1 {
                Stage::Implemented
            } else if i == 2 {
                Stage::Documented
            } else {
                Stage::HappyPathTested
            };
            return Some(s);
        }
        i += 1;
    }
    None
}

/// The specification file of a module directory.
pub open spec fn task_path(n: ModuleNode) -> Seq<char> {
    path_join(n.path@, "UserSpecification.md"@)
}

/// The first module whose specification could not be read.
pub open spec fn first_unreadable(ps: Seq<ModuleProgress>, k: int) -> Option<int>
    decreases ps.len() - k,
{
    if k < 0 || k >= ps.len() {
        None
    } else if ps[k].spec is None {
        Some(k)
    } else {
        first_unreadable(ps, k + 1)
    }
}

/// The stage module `i` still has to pass.
pub open spec fn pending_stage(ps: Seq<ModuleProgress>, i: int) -> Option<Stage> {
    match ps[i].spec {
        Some(c) => next_stage_from(c@, records_view(ps[i].records@), 0),
        None => None,
    }
}

/// Task `i` sorts before task `j`: a lower level, or the same level and a
/// path that sorts first.
pub open spec fn sorts_before(nodes: Seq<ModuleNode>, i: int, j: int) -> bool {
    ||| nodes[i].level < nodes[j].level
    ||| (nodes[i].level == nodes[j].level && path_less(task_path(nodes[i]), task_path(nodes[j])))
}

/// Task `i` sorts before task `j` or with it.
pub open spec fn sorts_with_or_before(nodes: Seq<ModuleNode>, i: int, j: int) -> bool {
    ||| sorts_before(nodes, i, j)
    ||| (nodes[i].level == nodes[j].level && path_components(task_path(nodes[i])) == path_components(
        task_path(nodes[j]),
    ))
}

proof fn lemma_sorts_order(nodes: Seq<ModuleNode>, a: int, b: int, c: int)
    ensures
        sorts_before(nodes, a, b) ==> !sorts_with_or_before(nodes, b, a),
        sorts_with_or_before(nodes, a, b) && sorts_before(nodes, b, c) ==> sorts_before(nodes, a, c),
{
    let pa = path_components(task_path(nodes[a]));
    let pb = path_components(task_path(nodes[b]));
    let pc = path_components(task_path(nodes[c]));
    lemma_comps_less_strict(pa, pb);
    if comps_less(pa, pb) && comps_less(pb, pc) {
        lemma_comps_less_trans(pa, pb, pc);
    }
}

/// The next task: among the modules with a stage to pass, the one that
/// sorts first (the earliest of those that sort alike), with that stage;
/// `None` when every module has passed every stage.  The first module
/// whose specification could not be read is an error.
pub fn find_next_task(nodes: &Vec<ModuleNode>, progress: &Vec<ModuleProgress>) -> (r: Result<Option<Task>, AppError>)
    requires
        progress.len() == nodes.len(),
        forall|i: int| 0 <= i < progress.len() ==> (#[trigger] progress@[i]).records.len() == 4,
    ensures
        match first_unreadable(progress@, 0) {
            Some(k) => r matches Err(AppError::FileUpdate(m)) && m@ == "Could not read spec at "@
                + task_path(nodes@[k]),
            None => r matches Ok(o) && match o {
                None => forall|i: int| 0 <= i < nodes.len() ==> #[trigger] pending_stage(progress@, i) is None,
                Some(t) => exists|m: int|
                    0 <= m < nodes.len() && #[trigger] pending_stage(progress@, m) == Some(t.stage)
                        && t.spec_path@ == task_path(nodes@[m]) && (forall|j: int|
                        0 <= j < nodes.len() && pending_stage(progress@, j) is Some
                            ==> !#[trigger] sorts_before(nodes@, j, m)) && (forall|j: int|
                        0 <= j < m && pending_stage(progress@, j) is Some
                            ==> !#[trigger] sorts_with_or_before(nodes@, j, m)),
            },
        },
{
    let n = nodes.len();
    let mut best: Option<(usize, Stage, String)> = None;
    let mut i: usize = 0;
    while i < n
        invariant
            n == nodes.len(),
            progress.len() == n,
            forall|t: int| 0 <= t < progress.len() ==> (#[trigger] progress@[t]).records.len() == 4,
            i <= n,
            first_unreadable(progress@, 0) == first_unreadable(progress@, i as int),
            match best {
                None => forall|j: int| 0 <= j < i ==> #[trigger] pending_stage(progress@, j) is None,
                Some((m, st, p)) => m < i && pending_stage(progress@, m as int) == Some(st) && p@
                    == task_path(nodes@[m as int]) && (forall|j: int|
                    0 <= j < i && pending_stage(progress@, j) is Some ==> !#[trigger] sorts_before(
                        nodes@,
                        j,
                        m as int,
                    )) && (forall|j: int|
                    0 <= j < m && pending_stage(progress@, j) is Some
                        ==> !#[trigger] sorts_with_or_before(nodes@, j, m as int)),
            },
        decreases n - i,
    {
        let node = &nodes[i];
        let path = join(node.path.as_str(), "UserSpecification.md");
        let content = match &progress[i].spec {
            Some(c) => c,
            None => {
                return Err(AppError::FileUpdate(concat("Could not read spec at ", path.as_str())));
            },
        };
        assert(first_unreadable(progress@, i as int) == first_unreadable(progress@, i + 1));
        let stage = next_stage(content.as_str(), &progress[i].records);
        assert(pending_stage(progress@, i as int) == stage);
        match stage {
            None => {
                proof {
                    if best is None {
                        assert forall|j: int| 0 <= j < i + 1 implies #[trigger] pending_stage(progress@, j) is None by {
                            if j == i {
                                assert(pending_stage(progress@, i as int) == stage);
                            }
                        }
                    }
                }
            },
            Some(s) => {
                let replace = match &best {
                    None => true,
                    Some((m, _, p)) => {
                        let lm = nodes[*m].level;
                        node.level < lm || (node.level == lm && path_less_exec(path.as_str(), p.as_str()))
                    },
                };
                let ghost gb = best;
                if replace {
                    proof {
                        lemma_sorts_order(nodes@, i as int, i as int, i as int);
                        match gb {
                            None => {},
                            Some((m, st, p)) => {
                                assert(sorts_before(nodes@, i as int, m as int));
                                assert forall|j: int|
                                    0 <= j < i + 1 && pending_stage(progress@, j) is Some implies !#[trigger] sorts_before(
                                    nodes@,
                                    j,
                                    i as int,
                                ) by {
                                    lemma_sorts_order(nodes@, i as int, j, i as int);
                                    lemma_sorts_order(nodes@, j, i as int, m as int);
                                    lemma_sorts_order(nodes@, i as int, m as int, m as int);
                                    if j == m {
                                    } else if j < i {
                                        assert(!sorts_before(nodes@, j, m as int));
                                    }
                                }
                                assert forall|j: int|
                                    0 <= j < i && pending_stage(progress@, j) is Some implies !#[trigger] sorts_with_or_before(
                                    nodes@,
                                    j,
                                    i as int,
                                ) by {
                                    lemma_sorts_order(nodes@, j, i as int, m as int);
                                    lemma_sorts_order(nodes@, i as int, m as int, m as int);
                                    assert(!sorts_before(nodes@, j, m as int));
                                }
                            },
                        }
                    }
                    best = Some((i, s, path));
                } else {
                    proof {
                        match gb {
                            None => {},
                            Some((m, st, p)) => {
                                assert(!sorts_before(nodes@, i as int, m as int));
                            },
                        }
                    }
                }
            },
        }
        i += 1;
    }
    match best {
        None => Ok(None),
        Some((m, st, p)) => Ok(Some(Task { spec_path: p, stage: st })),
    }
}

} // verus!
