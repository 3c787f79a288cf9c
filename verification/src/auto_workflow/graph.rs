//! The dependency graph of the modules: each module's directory, the
//! modules it depends on (as its `ModuleDependencies.md` lists them), and
//! its level.
use vstd::prelude::*;
use crate::auto_workflow::levels::{compute_levels, graph_ok, levels_ok, on_cycle};
use crate::error::AppError;
use crate::paths::{
    join, path_components, path_eq, path_join, path_parent, paths_equal, render_path,
};
use crate::text::{chars_of, concat, lines_of, split_lines, trim, trim_str};

verus! {

/// A module of the graph.
#[derive(Debug)]
pub struct ModuleNode {
    /// The module's directory.
    pub path: String,
    /// The directories of the modules it depends on.
    pub dependencies: Vec<String>,
    /// 0 without dependencies, else one more than its deepest dependency.
    pub level: usize,
}

/// What reading a module's `ModuleDependencies.md` gave.
pub enum DepsFile {
    Content(String),
    Missing,
    /// It exists but could not be read; the message of the failure.
    Unreadable(String),
}

/// A graph entry as plain values: the module's directory and its
/// dependencies.
pub type Entry = (Seq<char>, Seq<Seq<char>>);

/// The directory of a specification file, or `.` when it has none.
pub open spec fn spec_dir(p: Seq<char>) -> Seq<char> {
    let cs = path_components(p);
    if cs.len() > 0 && !(cs.last() is RootDir) {
        render_path(cs.drop_last())
    } else {
        "."@
    }
}

/// The dependencies a `ModuleDependencies.md` lists: its lines trimmed,
/// without blank lines and `#` lines.
pub open spec fn dep_lines(ls: Seq<Seq<char>>) -> Seq<Seq<char>>
    decreases ls.len(),
{
    if ls.len() == 0 {
        Seq::empty()
    } else {
        let pre = dep_lines(ls.drop_last());
        let t = trim(ls.last());
        if t.len() == 0 || t[0] == '#' {
            pre
        } else {
            pre.push(t)
        }
    }
}

/// Whether `p` is, as a path, one of the modules' specification files.
pub open spec fn is_module_spec(modules: Seq<Seq<char>>, p: Seq<char>) -> bool {
    exists|j: int| 0 <= j < modules.len() && path_eq(#[trigger] modules[j], p)
}

/// The listed dependencies, joined to `root`, that are modules.
pub open spec fn resolve_deps(root: Seq<char>, modules: Seq<Seq<char>>, ds: Seq<Seq<char>>) -> Seq<Seq<char>>
    decreases ds.len(),
{
    if ds.len() == 0 {
        Seq::empty()
    } else {
        let pre = resolve_deps(root, modules, ds.drop_last());
        let r = path_join(root, ds.last());
        if is_module_spec(modules, path_join(r, "UserSpecification.md"@)) {
            pre.push(r)
        } else {
            pre
        }
    }
}

/// `x` is a listed dependency, joined to `root`, that is a module.
pub open spec fn listed_module_dep(root: Seq<char>, modules: Seq<Seq<char>>, ds: Seq<Seq<char>>, x: Seq<char>) -> bool {
    exists|k: int| #![trigger ds[k]]
        0 <= k < ds.len() && x == path_join(root, ds[k])
            && is_module_spec(modules, path_join(path_join(root, ds[k]), "UserSpecification.md"@))
}

/// Every listed dependency that is a module is kept, and nothing else:
/// the dependency `d` at position `k` appears as `root` joined with `d`
/// when that directory's `UserSpecification.md` is one of the modules,
/// and each kept dependency is such a listed one.
pub proof fn lemma_module_deps_kept(root: Seq<char>, modules: Seq<Seq<char>>, ds: Seq<Seq<char>>)
    ensures
        forall|k: int|
            0 <= k < ds.len() && is_module_spec(modules, path_join(path_join(root, ds[k]), "UserSpecification.md"@))
                ==> resolve_deps(root, modules, ds).contains(#[trigger] path_join(root, ds[k])),
        forall|j: int|
            0 <= j < resolve_deps(root, modules, ds).len() ==> listed_module_dep(
                root,
                modules,
                ds,
                #[trigger] resolve_deps(root, modules, ds)[j],
            ),
    decreases ds.len(),
{
    if ds.len() > 0 {
        let init = ds.drop_last();
        lemma_module_deps_kept(root, modules, init);
        let pre = resolve_deps(root, modules, init);
        let cur = resolve_deps(root, modules, ds);
        let n = ds.len() - 1;
        assert(ds.last() == ds[n]);
        assert forall|k: int|
            0 <= k < ds.len() && is_module_spec(modules, path_join(path_join(root, ds[k]), "UserSpecification.md"@))
                implies cur.contains(#[trigger] path_join(root, ds[k])) by {
            if k < n {
                assert(init[k] == ds[k]);
                assert(pre.contains(path_join(root, init[k])));
                let w = choose|w: int| 0 <= w < pre.len() && pre[w] == path_join(root, init[k]);
                assert(cur[w] == pre[w]);
            } else {
                assert(cur[cur.len() - 1] == path_join(root, ds[k]));
            }
        }
        assert forall|j: int| 0 <= j < cur.len() implies listed_module_dep(root, modules, ds, #[trigger] cur[j]) by {
            if j < pre.len() {
                assert(cur[j] == pre[j]);
                assert(listed_module_dep(root, modules, init, pre[j]));
                let k = choose|k: int| #![trigger init[k]]
                    0 <= k < init.len() && pre[j] == path_join(root, init[k])
                        && is_module_spec(modules, path_join(path_join(root, init[k]), "UserSpecification.md"@));
                assert(init[k] == ds[k]);
            } else {
                assert(cur != pre);
                assert(cur == pre.push(path_join(root, ds[n])));
                assert(cur[j] == path_join(root, ds[n]));
                assert(ds[n] == ds[n]);
            }
        }
    }
}

/// The first directory at or after `k` that is `p` as a path.
pub open spec fn index_from(dirs: Seq<Seq<char>>, p: Seq<char>, k: int) -> Option<int>
    decreases dirs.len() - k,
{
    if k < 0 || k >= dirs.len() {
        None
    } else if path_eq(dirs[k], p) {
        Some(k)
    } else {
        index_from(dirs, p, k + 1)
    }
}

pub open spec fn dirs_of(es: Seq<Entry>) -> Seq<Seq<char>> {
    es.map_values(|e: Entry| e.0)
}

pub open spec fn entries_of(dirs: Seq<Seq<char>>, deps: Seq<Seq<Seq<char>>>) -> Seq<Entry> {
    Seq::new(dirs.len(), |i: int| (dirs[i], deps[i]))
}

/// An entry for a directory replaces the entry for the same directory,
/// or comes last.
pub open spec fn upsert(es: Seq<Entry>, e: Entry) -> Seq<Entry> {
    match index_from(dirs_of(es), e.0, 0) {
        Some(k) => es.update(k, e),
        None => es.push(e),
    }
}

/// The graph's entries after the first `n` modules, whose dependency files
/// hold `contents`.
pub open spec fn graph_entries(root: Seq<char>, modules: Seq<Seq<char>>, contents: Seq<Seq<char>>, n: int) -> Seq<Entry>
    decreases n,
{
    if n <= 0 {
        Seq::empty()
    } else {
        upsert(
            graph_entries(root, modules, contents, n - 1),
            (
                spec_dir(modules[n - 1]),
                resolve_deps(root, modules, dep_lines(lines_of(contents[n - 1]))),
            ),
        )
    }
}

/// The entries that dependencies name, by index.
pub open spec fn dep_indices(es: Seq<Entry>, ds: Seq<Seq<char>>) -> Seq<usize>
    decreases ds.len(),
{
    if ds.len() == 0 {
        Seq::empty()
    } else {
        let pre = dep_indices(es, ds.drop_last());
        match index_from(dirs_of(es), ds.last(), 0) {
            Some(k) => pre.push(k as usize),
            None => pre,
        }
    }
}

/// The dependency edges between entries.
pub open spec fn graph_adj(es: Seq<Entry>) -> Seq<Seq<usize>> {
    es.map_values(|e: Entry| dep_indices(es, e.1))
}

/// The first module whose dependency file could not be had, if any.
pub open spec fn first_missing_deps(files: Seq<DepsFile>, k: int) -> Option<int>
    decreases files.len() - k,
{
    if k < 0 || k >= files.len() {
        None
    } else if files[k] is Content {
        first_missing_deps(files, k + 1)
    } else {
        Some(k)
    }
}

pub open spec fn deps_contents(files: Seq<DepsFile>) -> Seq<Seq<char>> {
    files.map_values(|f: DepsFile| match f {
        DepsFile::Content(c) => c@,
        _ => Seq::<char>::empty(),
    })
}

/// The error for a module whose dependency file could not be had.
pub open spec fn deps_file_error(dir: Seq<char>, f: DepsFile, e: AppError) -> bool {
    match f {
        DepsFile::Missing => e matches AppError::Config(m) && m@ == "Module "@ + dir
            + " is missing ModuleDependencies.md"@,
        DepsFile::Unreadable(msg) => e matches AppError::FileUpdate(m) && m@
            == "Failed to read dependencies for "@ + dir + ": "@ + msg@,
        DepsFile::Content(_) => false,
    }
}

pub open spec fn node_view(n: ModuleNode) -> Entry {
    (n.path@, n.dependencies.deep_view())
}

proof fn lemma_index_from(dirs: Seq<Seq<char>>, p: Seq<char>, k: int)
    requires
        0 <= k,
    ensures
        index_from(dirs, p, k) matches Some(j) ==> k <= j < dirs.len() && path_eq(dirs[j], p),
        index_from(dirs, p, k) is None ==> forall|j: int| k <= j < dirs.len() ==> !path_eq(dirs[j], p),
    decreases dirs.len() - k,
{
    if k < dirs.len() && !path_eq(dirs[k], p) {
        lemma_index_from(dirs, p, k + 1);
    }
}

proof fn lemma_dep_indices_bound(es: Seq<Entry>, ds: Seq<Seq<char>>)
    ensures
        forall|i: int| 0 <= i < dep_indices(es, ds).len() ==> #[trigger] dep_indices(es, ds)[i] < es.len(),
    decreases ds.len(),
{
    if ds.len() > 0 {
        lemma_dep_indices_bound(es, ds.drop_last());
        lemma_index_from(dirs_of(es), ds.last(), 0);
        assert(dirs_of(es).len() == es.len());
        let pre = dep_indices(es, ds.drop_last());
        let out = dep_indices(es, ds);
        match index_from(dirs_of(es), ds.last(), 0) {
            Some(k) => {
                assert forall|i: int| 0 <= i < out.len() implies #[trigger] out[i] < es.len() by {
                    if i < pre.len() {
                        assert(out[i] == pre[i]);
                    }
                }
            },
            None => {},
        }
    }
}

/// The dependencies a `ModuleDependencies.md` lists.
pub fn parse_dependencies(content: &str) -> (r: Vec<String>)
    ensures
        r.deep_view() == dep_lines(lines_of(content@)),
{
    let ls = split_lines(content);
    let ghost all = ls.deep_view();
    let mut out: Vec<String> = Vec::new();
    let mut i: usize = 0;
    assert(all.take(0) =~= Seq::<Seq<char>>::empty());
    while i < ls.len()
        invariant
            all == ls.deep_view(),
            all == lines_of(content@),
            i <= ls.len(),
            out.deep_view() == dep_lines(all.take(i as int)),
        decreases ls.len() - i,
    {
        assert(all.take(i + 1).drop_last() =~= all.take(i as int));
        assert(all.take(i + 1).last() == ls[i as int]@);
        let t = trim_str(ls[i].as_str());
        let tc = chars_of(t.as_str());
        if tc.len() == 0 || tc[0] == '#' {
        } else {
            let ghost before = out.deep_view();
            out.push(t);
            assert(out.deep_view() =~= before.push(tc@));
        }
        i += 1;
    }
    assert(all.take(i as int) =~= all);
    out
}

fn is_module_spec_exec(modules: &Vec<String>, p: &str) -> (b: bool)
    ensures
        b == is_module_spec(modules.deep_view(), p@),
{
    let ghost ms = modules.deep_view();
    let mut j: usize = 0;
    while j < modules.len()
        invariant
            ms == modules.deep_view(),
            j <= modules.len(),
            forall|i: int| 0 <= i < j ==> !path_eq(#[trigger] ms[i], p@),
        decreases modules.len() - j,
    {
        assert(ms[j as int] == modules[j as int]@);
        if paths_equal(modules[j].as_str(), p) {
            return true;
        }
        j += 1;
    }
    false
}

fn resolve_deps_exec(root: &str, modules: &Vec<String>, ds: &Vec<String>) -> (r: Vec<String>)
    ensures
        r.deep_view() == resolve_deps(root@, modules.deep_view(), ds.deep_view()),
{
    let ghost all = ds.deep_view();
    let mut out: Vec<String> = Vec::new();
    let mut i: usize = 0;
    assert(all.take(0) =~= Seq::<Seq<char>>::empty());
    while i < ds.len()
        invariant
            all == ds.deep_view(),
            i <= ds.len(),
            out.deep_view() == resolve_deps(root@, modules.deep_view(), all.take(i as int)),
        decreases ds.len() - i,
    {
        assert(all.take(i + 1).drop_last() =~= all.take(i as int));
        assert(all.take(i + 1).last() == ds[i as int]@);
        let r = join(root, ds[i].as_str());
        let spec_file = join(r.as_str(), "UserSpecification.md");
        if is_module_spec_exec(modules, spec_file.as_str()) {
            let ghost before = out.deep_view();
            let ghost rv = r@;
            out.push(r);
            assert(out.deep_view() =~= before.push(rv));
        }
        i += 1;
    }
    assert(all.take(i as int) =~= all);
    out
}

fn index_of_dir(dirs: &Vec<String>, p: &str) -> (r: Option<usize>)
    ensures
        match index_from(dirs.deep_view(), p@, 0) {
            Some(k) => r == Some(k as usize),
            None => r is None,
        },
{
    let ghost ds = dirs.deep_view();
    let mut k: usize = 0;
    while k < dirs.len()
        invariant
            ds == dirs.deep_view(),
            k <= dirs.len(),
            index_from(ds, p@, k as int) == index_from(ds, p@, 0),
        decreases dirs.len() - k,
    {
        assert(ds[k as int] == dirs[k as int]@);
        if paths_equal(dirs[k].as_str(), p) {
            return Some(k);
        }
        k += 1;
    }
    None
}

fn dep_indices_exec(dirs: &Vec<String>, ds: &Vec<String>, Ghost(es): Ghost<Seq<Entry>>) -> (r: Vec<usize>)
    requires
        dirs.deep_view() == dirs_of(es),
    ensures
        r@ == dep_indices(es, ds.deep_view()),
{
    let ghost all = ds.deep_view();
    let mut out: Vec<usize> = Vec::new();
    let mut i: usize = 0;
    assert(all.take(0) =~= Seq::<Seq<char>>::empty());
    while i < ds.len()
        invariant
            dirs.deep_view() == dirs_of(es),
            all == ds.deep_view(),
            i <= ds.len(),
            out@ == dep_indices(es, all.take(i as int)),
        decreases ds.len() - i,
    {
        assert(all.take(i + 1).drop_last() =~= all.take(i as int));
        assert(all.take(i + 1).last() == ds[i as int]@);
        match index_of_dir(dirs, ds[i].as_str()) {
            Some(k) => {
                out.push(k);
            },
            None => {},
        }
        i += 1;
    }
    assert(all.take(i as int) =~= all);
    out
}

fn parent_or_dot(p: &str) -> (r: String)
    ensures
        r@ == spec_dir(p@),
{
    match path_parent(p) {
        Some(q) => q,
        None => ".".to_owned(),
    }
}

/// The dependency graph of the modules whose specification files are
/// `modules`, the dependency file of each as `files` holds it: one node
/// per module directory (a later module of the same directory replaces an
/// earlier one), each with its dependencies joined to `root` and kept when
/// they are modules, and its level.  The first module whose dependency
/// file could not be had stops the building; so does a dependency cycle,
/// reported through one of its modules.
pub fn build_dependency_graph(root: &str, modules: &Vec<String>, files: &Vec<DepsFile>) -> (r: Result<Vec<ModuleNode>, AppError>)
    requires
        files.len() == modules.len(),
    ensures
        match first_missing_deps(files@, 0) {
            Some(k) => r matches Err(e) && deps_file_error(spec_dir(modules@[k]@), files@[k], e),
            None => {
                let es = graph_entries(root@, modules.deep_view(), deps_contents(files@), modules.len() as int);
                match r {
                    Ok(v) => v@.map_values(|n: ModuleNode| node_view(n)) == es
                        && levels_ok(graph_adj(es), v@.map_values(|n: ModuleNode| n.level)),
                    Err(e) => exists|x: int| #![trigger es[x]] 0 <= x < es.len() && on_cycle(graph_adj(es), x as usize)
                        && (e matches AppError::Config(m) && m@ == "Dependency cycle detected involving "@
                        + es[x].0),
                }
            },
        },
{
    let ghost ms = modules.deep_view();
    let ghost cs = deps_contents(files@);
    let mut dirs: Vec<String> = Vec::new();
    let mut deps: Vec<Vec<String>> = Vec::new();
    let mut i: usize = 0;
    assert(entries_of(dirs.deep_view(), deps.deep_view()) =~= graph_entries(root@, ms, cs, 0));
    while i < modules.len()
        invariant
            files.len() == modules.len(),
            ms == modules.deep_view(),
            cs == deps_contents(files@),
            i <= modules.len(),
            first_missing_deps(files@, 0) == first_missing_deps(files@, i as int),
            dirs.len() == deps.len(),
            entries_of(dirs.deep_view(), deps.deep_view()) == graph_entries(root@, ms, cs, i as int),
        decreases modules.len() - i,
    {
        let dir = parent_or_dot(modules[i].as_str());
        assert(ms[i as int] == modules@[i as int]@);
        let content = match &files[i] {
            DepsFile::Content(c) => c,
            DepsFile::Missing => {
                let m = concat(concat("Module ", dir.as_str()).as_str(), " is missing ModuleDependencies.md");
                return Err(AppError::Config(m));
            },
            DepsFile::Unreadable(msg) => {
                let m = concat(
                    concat(concat("Failed to read dependencies for ", dir.as_str()).as_str(), ": ").as_str(),
                    msg.as_str(),
                );
                return Err(AppError::FileUpdate(m));
            },
        };
        assert(first_missing_deps(files@, i as int) == first_missing_deps(files@, i + 1));
        assert(cs[i as int] == content@);
        let raw = parse_dependencies(content.as_str());
        let rd = resolve_deps_exec(root, modules, &raw);
        let ghost es = entries_of(dirs.deep_view(), deps.deep_view());
        let ghost e = (dir@, rd.deep_view());
        assert(dirs.deep_view() =~= dirs_of(es));
        match index_of_dir(&dirs, dir.as_str()) {
            Some(k) => {
                proof {
                    lemma_index_from(dirs.deep_view(), dir@, 0);
                }
                let ghost dv0 = dirs.deep_view();
                let ghost pv0 = deps.deep_view();
                dirs.set(k, dir);
                deps.set(k, rd);
                assert(dirs.deep_view() =~= dv0.update(k as int, e.0));
                assert(deps.deep_view() =~= pv0.update(k as int, e.1));
                assert(entries_of(dirs.deep_view(), deps.deep_view()) =~= es.update(k as int, e));
            },
            None => {
                let ghost dv0 = dirs.deep_view();
                let ghost pv0 = deps.deep_view();
                dirs.push(dir);
                deps.push(rd);
                assert(dirs.deep_view() =~= dv0.push(e.0));
                assert(deps.deep_view() =~= pv0.push(e.1));
                assert(entries_of(dirs.deep_view(), deps.deep_view()) =~= es.push(e));
            },
        }
        i += 1;
    }
    let ghost es = entries_of(dirs.deep_view(), deps.deep_view());
    let ghost adj = graph_adj(es);
    assert(dirs.deep_view() =~= dirs_of(es));
    let mut edges: Vec<Vec<usize>> = Vec::new();
    let mut j: usize = 0;
    while j < dirs.len()
        invariant
            es == entries_of(dirs.deep_view(), deps.deep_view()),
            dirs.deep_view() == dirs_of(es),
            dirs.len() == deps.len(),
            adj == graph_adj(es),
            j <= dirs.len(),
            edges.deep_view() == adj.take(j as int),
        decreases dirs.len() - j,
    {
        assert(es[j as int].1 == deps[j as int].deep_view());
        let ds = dep_indices_exec(&dirs, &deps[j], Ghost(es));
        let ghost before = edges.deep_view();
        let ghost dv = ds.deep_view();
        assert(dv =~= ds@);
        edges.push(ds);
        assert(edges.deep_view() =~= before.push(dv));
        assert(adj.take(j + 1) =~= adj.take(j as int).push(adj[j as int]));
        j += 1;
    }
    assert(adj.take(j as int) =~= adj);
    proof {
        assert forall|a: int, b: int| 0 <= a < adj.len() && 0 <= b < adj[a].len() implies #[trigger] adj[a][b]
            < adj.len() by {
            lemma_dep_indices_bound(es, es[a].1);
        }
    }
    match compute_levels(&edges) {
        Err(x) => {
            assert(es[x as int].0 == dirs[x as int]@);
            let m = concat("Dependency cycle detected involving ", dirs[x].as_str());
            Err(AppError::Config(m))
        },
        Ok(levels) => {
            let ghost lv = levels@;
            let ghost dv = dirs.deep_view();
            let ghost pv = deps.deep_view();
            let n = dirs.len();
            let mut nodes: Vec<ModuleNode> = Vec::new();
            let mut k: usize = 0;
            while k < n
                invariant
                    n == dv.len(),
                    dv.len() == pv.len(),
                    lv.len() == n,
                    levels@ == lv,
                    k <= n,
                    dirs.deep_view() == dv.skip(k as int),
                    deps.deep_view() == pv.skip(k as int),
                    nodes.len() == k,
                    forall|t: int| 0 <= t < k ==> node_view(#[trigger] nodes@[t]) == (dv[t], pv[t])
                        && nodes@[t].level == lv[t],
                decreases n - k,
            {
                let ghost d0 = dirs.deep_view();
                let ghost p0 = deps.deep_view();
                assert(dirs.len() == d0.len() && deps.len() == p0.len());
                let path = dirs.remove(0);
                let dependencies = deps.remove(0);
                assert(path@ == d0[0]);
                assert(dependencies.deep_view() == p0[0]);
                assert(dirs.deep_view() =~= d0.drop_first());
                assert(deps.deep_view() =~= p0.drop_first());
                assert(d0.drop_first() =~= dv.skip(k + 1));
                assert(p0.drop_first() =~= pv.skip(k + 1));
                nodes.push(ModuleNode { path, dependencies, level: levels[k] });
                k += 1;
            }
            assert(nodes@.map_values(|n: ModuleNode| node_view(n)) =~= es);
            assert(nodes@.map_values(|n: ModuleNode| n.level) =~= lv);
            Ok(nodes)
        },
    }
}

} // verus!
