//! The summary of the project that the context model chooses files from:
//! the project's root files, the names of the top-level files and of the
//! files directly under `src`, and for each module under `src` that has a
//! `PublicAPI.md` and an `InternalDependencies.md`, those two files and
//! the names of its files.
use vstd::prelude::*;
use crate::context_builder::path_filter::{context_error, PathFilter};
use crate::error::AppError;
use crate::sorting::{path_sorted, sort_paths, sort_strings, string_sorted};
use crate::text::str_eq;

verus! {

/// The root files the summary shows, in order, when they exist.
pub open spec fn summary_root_names() -> Seq<Seq<char>> {
    seq![".gitignore"@, "build.sh"@, "Cargo.toml"@, "LLMInstructions.md"@, "UserSpecification.md"@]
}

/// The root files the summary shows, in order, when they exist.
pub fn summary_root_files() -> (r: Vec<String>)
    ensures
        r.deep_view() == summary_root_names(),
{
    let mut r: Vec<String> = Vec::new();
    r.push(".gitignore".to_owned());
    r.push("build.sh".to_owned());
    r.push("Cargo.toml".to_owned());
    r.push("LLMInstructions.md".to_owned());
    r.push("UserSpecification.md".to_owned());
    assert(r.deep_view() =~= summary_root_names());
    r
}

/// What reading a file gave: `None` when it does not exist, else its
/// content or the message of the failure.
pub type FileReading = Option<Result<String, String>>;

/// A module directory under `src`: its name, the files in it, and its
/// `InternalDependencies.md` and `PublicAPI.md` as read.
pub struct ModuleListing {
    pub name: String,
    pub files: Vec<String>,
    pub internal_dependencies: FileReading,
    pub public_api: FileReading,
}

/// Why a summary cannot be made.
pub enum SummaryFailure {
    Config(Seq<char>),
    Io(Seq<char>),
}

pub open spec fn is_failure(e: AppError, f: SummaryFailure) -> bool {
    match f {
        SummaryFailure::Config(m) => e matches AppError::Config(x) && x@ == m,
        SummaryFailure::Io(m) => e matches AppError::Io(x) && x@ == m,
    }
}

/// A file shown with its content.
pub open spec fn shown_file(path: Seq<char>, content: Seq<char>) -> Seq<char> {
    "--- "@ + path + " ---\n"@ + content + "\n\n"@
}

pub open spec fn reading_view(r: FileReading) -> Option<Result<Seq<char>, Seq<char>>> {
    match r {
        None => None,
        Some(Ok(c)) => Some(Ok(c@)),
        Some(Err(e)) => Some(Err(e@)),
    }
}

/// The root files' part of the summary: each existing one must pass the
/// context filter and be readable.
pub open spec fn root_section(
    root: Seq<char>,
    lines: Seq<Seq<char>>,
    names: Seq<Seq<char>>,
    reads: Seq<Option<Result<Seq<char>, Seq<char>>>>,
) -> Result<Seq<char>, SummaryFailure>
    decreases names.len(),
{
    if names.len() == 0 {
        Ok(Seq::empty())
    } else {
        match root_section(root, lines, names.drop_last(), reads.drop_last()) {
            Err(f) => Err(f),
            Ok(pre) => match reads.last() {
                None => Ok(pre),
                Some(r) => match context_error(root, lines, names.last()) {
                    Some(m) => Err(
                        SummaryFailure::Config(
                            "Mandatory file '"@ + names.last() + "' is ignored by .gitignore or is invalid: "@
                                + m,
                        ),
                    ),
                    None => match r {
                        Ok(c) => Ok(pre + shown_file(names.last(), c)),
                        Err(e) => Err(SummaryFailure::Io(e)),
                    },
                },
            },
        }
    }
}

/// Names one per line.
pub open spec fn name_lines(xs: Seq<Seq<char>>) -> Seq<char>
    decreases xs.len(),
{
    if xs.len() == 0 {
        Seq::empty()
    } else {
        name_lines(xs.drop_last()) + xs.last() + "\n"@
    }
}

/// A list of file names between markers.
pub open spec fn filenames_block(xs: Seq<Seq<char>>) -> Seq<char> {
    "--- FILENAMES ---\n"@ + name_lines(xs) + "--- END FILENAMES ---\n\n"@
}

/// A module's part of the summary, given its files in order: shown only
/// when both of its description files exist, and then both must be
/// readable.
pub open spec fn module_section(
    name: Seq<char>,
    files: Seq<Seq<char>>,
    internal: Option<Result<Seq<char>, Seq<char>>>,
    public: Option<Result<Seq<char>, Seq<char>>>,
) -> Result<Seq<char>, SummaryFailure> {
    let dir = "src/"@ + name;
    match (internal, public) {
        (Some(i), Some(p)) => match i {
            Err(e) => Err(SummaryFailure::Io(e)),
            Ok(ic) => match p {
                Err(e) => Err(SummaryFailure::Io(e)),
                Ok(pc) => Ok(
                    "=== "@ + dir + " ===\n\n"@ + shown_file(dir + "/InternalDependencies.md"@, ic)
                        + shown_file(dir + "/PublicAPI.md"@, pc) + filenames_block(files),
                ),
            },
        },
        _ => Ok(Seq::empty()),
    }
}

/// A module as plain values.
pub type ModuleView = (Seq<char>, Seq<Seq<char>>, Option<Result<Seq<char>, Seq<char>>>, Option<Result<Seq<char>, Seq<char>>>);

pub open spec fn module_view(m: ModuleListing) -> ModuleView {
    (m.name@, m.files.deep_view(), reading_view(m.internal_dependencies), reading_view(m.public_api))
}

/// The modules' part of the summary, the modules in the order given and
/// the files of each in the order `sorted` gives.
pub open spec fn modules_section(ms: Seq<ModuleView>, sorted: Seq<Seq<Seq<char>>>) -> Result<Seq<char>, SummaryFailure>
    decreases ms.len(),
{
    if ms.len() == 0 {
        Ok(Seq::empty())
    } else {
        match modules_section(ms.drop_last(), sorted.drop_last()) {
            Err(f) => Err(f),
            Ok(pre) => match module_section(ms.last().0, sorted.last(), ms.last().2, ms.last().3) {
                Err(f) => Err(f),
                Ok(s) => Ok(pre + s),
            },
        }
    }
}

/// The summary when its lists are in the given orders.
pub open spec fn summary_text(
    root: Seq<char>,
    lines: Seq<Seq<char>>,
    reads: Seq<Option<Result<Seq<char>, Seq<char>>>>,
    top: Seq<Seq<char>>,
    src_top: Seq<Seq<char>>,
    ms: Seq<ModuleView>,
    sorted_files: Seq<Seq<Seq<char>>>,
) -> Result<Seq<char>, SummaryFailure> {
    match root_section(root, lines, summary_root_names(), reads) {
        Err(f) => Err(f),
        Ok(rs) => match modules_section(ms, sorted_files) {
            Err(f) => Err(f),
            Ok(mods) => Ok("=== Project Root ===\n\n"@ + rs + filenames_block(top + src_top) + mods),
        },
    }
}

pub open spec fn reads_view(rs: Seq<FileReading>) -> Seq<Option<Result<Seq<char>, Seq<char>>>> {
    rs.map_values(|x: FileReading| reading_view(x))
}

pub open spec fn modules_view(ms: Seq<ModuleListing>) -> Seq<ModuleView> {
    ms.map_values(|m: ModuleListing| module_view(m))
}

/// The summary is `r` when the lists are shown in the orders `top`,
/// `src`, `perm` and `files`, each of them the order the summary calls for.
pub open spec fn summary_result(
    root: Seq<char>,
    lines: Seq<Seq<char>>,
    reads: Seq<FileReading>,
    top_level: Seq<Seq<char>>,
    src_top_level: Seq<Seq<char>>,
    modules: Seq<ModuleListing>,
    top: Seq<Seq<char>>,
    src: Seq<Seq<char>>,
    perm: Seq<usize>,
    files: Seq<Seq<Seq<char>>>,
    r: Result<String, AppError>,
) -> bool {
    &&& summary_orders(top_level, src_top_level, modules, top, src, perm, files)
    &&& match summary_text(root, lines, reads_view(reads), top, src, order_of(modules_view(modules), perm), files) {
        Ok(s) => r matches Ok(x) && x@ == s,
        Err(f) => r matches Err(e) && is_failure(e, f),
    }
}

/// The orders the summary's lists are shown in.
pub open spec fn summary_orders(
    top_level: Seq<Seq<char>>,
    src_top_level: Seq<Seq<char>>,
    modules: Seq<ModuleListing>,
    top: Seq<Seq<char>>,
    src: Seq<Seq<char>>,
    perm: Seq<usize>,
    files: Seq<Seq<Seq<char>>>,
) -> bool {
    &&& top.to_multiset() == top_level.to_multiset() && path_sorted(top)
    &&& src.to_multiset() == src_top_level.to_multiset() && path_sorted(src)
    &&& by_name(modules_view(modules), perm)
    &&& files.len() == perm.len()
    &&& (forall|k: int| 0 <= k < perm.len() ==> (#[trigger] files[k]).to_multiset()
        == modules[perm[k] as int].files.deep_view().to_multiset() && path_sorted(files[k]))
}

/// `perm` lists every index below `n` once.
pub open spec fn is_perm(perm: Seq<usize>, n: nat) -> bool {
    &&& perm.len() == n
    &&& forall|i: int| 0 <= i < perm.len() ==> #[trigger] perm[i] < n
    &&& forall|i: int, j: int| 0 <= i < j < perm.len() ==> #[trigger] perm[i] != #[trigger] perm[j]
}

/// The modules in the order `perm` gives.
pub open spec fn order_of(ms: Seq<ModuleView>, perm: Seq<usize>) -> Seq<ModuleView> {
    perm.map_values(|k: usize| ms[k as int])
}

/// `perm` lists the modules by name, those of the same name in the order
/// given.
pub open spec fn by_name(ms: Seq<ModuleView>, perm: Seq<usize>) -> bool {
    &&& is_perm(perm, ms.len())
    &&& string_sorted(order_of(ms, perm).map_values(|m: ModuleView| m.0))
}

fn reading_clone(r: &FileReading) -> (c: FileReading)
    ensures
        reading_view(c) == reading_view(*r),
{
    match r {
        None => None,
        Some(Ok(s)) => Some(Ok(s.clone())),
        Some(Err(e)) => Some(Err(e.clone())),
    }
}

fn append_shown(out: &mut String, path: &str, content: &str)
    ensures
        final(out)@ == old(out)@ + shown_file(path@, content@),
{
    out.append("--- ");
    out.append(path);
    out.append(" ---\n");
    out.append(content);
    out.append("\n\n");
}

fn append_filenames(out: &mut String, xs: &Vec<String>)
    ensures
        final(out)@ == old(out)@ + "--- FILENAMES ---\n"@ + name_lines(xs.deep_view()),
{
    let ghost all = xs.deep_view();
    let ghost start = out@;
    out.append("--- FILENAMES ---\n");
    let mut i: usize = 0;
    assert(all.take(0) =~= Seq::<Seq<char>>::empty());
    while i < xs.len()
        invariant
            all == xs.deep_view(),
            i <= xs.len(),
            out@ == start + "--- FILENAMES ---\n"@ + name_lines(all.take(i as int)),
        decreases xs.len() - i,
    {
        out.append(xs[i].as_str());
        out.append("\n");
        assert(all.take(i + 1).drop_last() =~= all.take(i as int));
        assert(all[i as int] == xs[i as int]@);
        i += 1;
    }
    assert(all.take(i as int) =~= all);
}

fn sort_module_indices(modules: &Vec<ModuleListing>) -> (perm: Vec<usize>)
    ensures
        by_name(modules_view(modules@), perm@),
{
    let ghost ms = modules_view(modules@);
    let mut perm: Vec<usize> = Vec::new();
    let mut t: usize = 0;
    while t < modules.len()
        invariant
            ms == modules_view(modules@),
            t <= modules.len(),
            perm.len() == t,
            forall|i: int| 0 <= i < perm.len() ==> #[trigger] perm@[i] < t,
            forall|i: int, j: int| 0 <= i < j < perm.len() ==> #[trigger] perm@[i] != #[trigger] perm@[j],
            string_sorted(order_of(ms, perm@).map_values(|m: ModuleView| m.0)),
        decreases modules.len() - t,
    {
        let ghost p0 = perm@;
        let ghost o0 = order_of(ms, p0).map_values(|m: ModuleView| m.0);
        let nm = modules[t].name.as_str();
        assert(ms[t as int].0 == nm@);
        let mut pos: usize = 0;
        while pos < perm.len() && !crate::paths::str_less(nm, modules[perm[pos]].name.as_str())
            invariant
                p0 == perm@,
                o0 == order_of(ms, p0).map_values(|m: ModuleView| m.0),
                ms == modules_view(modules@),
                nm@ == ms[t as int].0,
                t < modules.len(),
                forall|i: int| 0 <= i < perm.len() ==> #[trigger] perm@[i] < t,
                pos <= perm.len(),
                forall|k: int| 0 <= k < pos ==> !crate::paths::seq_less(nm@, #[trigger] o0[k]),
            decreases perm.len() - pos,
        {
            assert(o0[pos as int] == ms[perm@[pos as int] as int].0);
            assert(ms[perm@[pos as int] as int].0 == modules@[perm@[pos as int] as int].name@);
            pos += 1;
        }
        proof {
            if pos < p0.len() {
                assert(o0[pos as int] == ms[perm@[pos as int] as int].0);
                assert(ms[perm@[pos as int] as int].0 == modules@[perm@[pos as int] as int].name@);
            }
        }
        perm.insert(pos, t);
        let ghost p1 = perm@;
        assert(p1 =~= p0.insert(pos as int, t));
        let ghost o1 = order_of(ms, p1).map_values(|m: ModuleView| m.0);
        assert(o1 =~= o0.insert(pos as int, nm@));
        assert forall|a: int, b: int| 0 <= a < b < o1.len() implies !crate::paths::seq_less(#[trigger] o1[b], #[trigger] o1[a]) by {
            if b < pos {
                assert(o1[a] == o0[a] && o1[b] == o0[b]);
            } else if b == pos {
                assert(o1[a] == o0[a]);
            } else if a == pos {
                assert(o1[b] == o0[b - 1]);
                crate::paths::lemma_seq_less_strict(nm@, o0[pos as int]);
                if b - 1 > pos {
                    assert(!crate::paths::seq_less(o0[b - 1], o0[pos as int]));
                    if crate::paths::seq_less(o1[b], nm@) {
                        crate::paths::lemma_seq_less_trans(o1[b], nm@, o0[pos as int]);
                    }
                } else {
                    crate::paths::lemma_seq_less_strict(nm@, o1[b]);
                }
            } else if a < pos {
                assert(o1[a] == o0[a] && o1[b] == o0[b - 1]);
            } else {
                assert(o1[a] == o0[a - 1] && o1[b] == o0[b - 1]);
            }
        }
        assert forall|i: int, j: int| 0 <= i < j < p1.len() implies #[trigger] p1[i] != #[trigger] p1[j] by {
            if i < pos && j < pos {
            } else if i < pos && j == pos {
            } else if i < pos {
                assert(p1[j] == p0[j - 1]);
            } else if i == pos {
                assert(p1[j] == p0[j - 1]);
            } else {
                assert(p1[i] == p0[i - 1] && p1[j] == p0[j - 1]);
            }
        }
        t += 1;
    }
    perm
}

/// Once a prefix of the module sections fails, the whole fails the same way.
proof fn lemma_modules_section_err(ms: Seq<ModuleView>, files: Seq<Seq<Seq<char>>>, q: int)
    requires
        0 <= q <= ms.len(),
        ms.len() == files.len(),
        modules_section(ms.take(q), files.take(q)) is Err,
    ensures
        modules_section(ms, files) == modules_section(ms.take(q), files.take(q)),
    decreases ms.len() - q,
{
    if q < ms.len() {
        assert(ms.take(q + 1).drop_last() =~= ms.take(q));
        assert(files.take(q + 1).drop_last() =~= files.take(q));
        lemma_modules_section_err(ms, files, q + 1);
    } else {
        assert(ms.take(q) =~= ms);
        assert(files.take(q) =~= files);
    }
}

/// Once a prefix of the root files fails, the whole fails the same way.
proof fn lemma_root_section_err(
    root: Seq<char>,
    lines: Seq<Seq<char>>,
    names: Seq<Seq<char>>,
    reads: Seq<Option<Result<Seq<char>, Seq<char>>>>,
    q: int,
)
    requires
        0 <= q <= names.len(),
        names.len() == reads.len(),
        root_section(root, lines, names.take(q), reads.take(q)) is Err,
    ensures
        root_section(root, lines, names, reads) == root_section(root, lines, names.take(q), reads.take(q)),
    decreases names.len() - q,
{
    if q < names.len() {
        assert(names.take(q + 1).drop_last() =~= names.take(q));
        assert(reads.take(q + 1).drop_last() =~= reads.take(q));
        lemma_root_section_err(root, lines, names, reads, q + 1);
    } else {
        assert(names.take(q) =~= names);
        assert(reads.take(q) =~= reads);
    }
}

/// The summary of the project.  `reads` holds what reading each of
/// `summary_root_files` gave; `top_level` and `src_top_level` are the
/// files at the root and directly under `src` (in any order); `modules`
/// are the directories under `src`.  The file lists are shown in `Path`'s
/// order and the modules by name.
#[verifier::spinoff_prover]
#[verifier::rlimit(60)]
pub fn build_summary(
    filter: &PathFilter,
    reads: &Vec<FileReading>,
    top_level: &Vec<String>,
    src_top_level: &Vec<String>,
    modules: &Vec<ModuleListing>,
) -> (r: Result<String, AppError>)
    requires
        reads.len() == 5,
    ensures
        exists|top: Seq<Seq<char>>, src: Seq<Seq<char>>, perm: Seq<usize>, files: Seq<Seq<Seq<char>>>|
            #[trigger] summary_result(filter.root(), filter.lines(), reads@, top_level.deep_view(), src_top_level.deep_view(), modules@, top, src, perm, files, r),
{
    let ghost ms = modules_view(modules@);
    let ghost rv = reads_view(reads@);
    let ghost names = summary_root_names();
    let ghost root = filter.root();
    let ghost glines = filter.lines();
    // The orders first.
    let top = sort_paths(top_level);
    let src = sort_paths(src_top_level);
    let perm = sort_module_indices(modules);
    let ghost order = order_of(ms, perm@);
    let mut files: Vec<Vec<String>> = Vec::new();
    let mut t: usize = 0;
    while t < perm.len()
        invariant
            ms == modules_view(modules@),
            by_name(ms, perm@),
            t <= perm.len(),
            files.len() == t,
            forall|k: int| 0 <= k < t ==> (#[trigger] files@[k]).deep_view().to_multiset()
                == modules@[perm@[k] as int].files.deep_view().to_multiset() && path_sorted(files@[k].deep_view()),
        decreases perm.len() - t,
    {
        let fs = sort_paths(&modules[perm[t]].files);
        files.push(fs);
        t += 1;
    }
    let ghost fv = files@.map_values(|f: Vec<String>| f.deep_view());
    assert forall|k: int| 0 <= k < perm.len() implies (#[trigger] fv[k]).to_multiset()
        == modules@[perm@[k] as int].files.deep_view().to_multiset() && path_sorted(fv[k]) by {
        assert(fv[k] == files@[k].deep_view());
    }
    assert(summary_orders(top_level.deep_view(), src_top_level.deep_view(), modules@, top.deep_view(), src.deep_view(), perm@, fv));
    // The root files.
    let roots = summary_root_files();
    let mut out = "=== Project Root ===\n\n".to_owned();
    let ghost head = out@;
    let mut k: usize = 0;
    assert(names.take(0) =~= Seq::<Seq<char>>::empty());
    assert(rv.take(0) =~= Seq::<Option<Result<Seq<char>, Seq<char>>>>::empty());
    assert(out@.skip(head.len() as int) =~= Seq::<char>::empty());
    while k < 5
        invariant
            reads.len() == 5,
            roots.deep_view() == names,
            names == summary_root_names(),
            rv == reads_view(reads@),
            root == filter.root(),
            glines == filter.lines(),
            summary_orders(top_level.deep_view(), src_top_level.deep_view(), modules@, top.deep_view(), src.deep_view(), perm@, fv),
            k <= 5,
            root_section(root, glines, names.take(k as int), rv.take(k as int))
                == Ok::<Seq<char>, SummaryFailure>(out@.skip(head.len() as int)),
            out@.len() >= head.len(),
            out@.take(head.len() as int) == head,
        decreases 5 - k,
    {
        let name = roots[k].as_str();
        let ghost pre = out@.skip(head.len() as int);
        assert(names.take(k + 1).drop_last() =~= names.take(k as int));
        assert(rv.take(k + 1).drop_last() =~= rv.take(k as int));
        assert(names.take(k + 1).last() == name@);
        assert(rv.take(k + 1).last() == reading_view(reads@[k as int]));
        match &reads[k] {
            None => {},
            Some(res) => {
                match filter.validate(name) {
                    Err(e) => {
                        let msg = match e {
                            AppError::FileUpdate(m) => m,
                            _ => String::new(),
                        };
                        let mut m = "Mandatory file '".to_owned();
                        m.append(name);
                        m.append("' is ignored by .gitignore or is invalid: ");
                        m.append(msg.as_str());
                        proof {
                            lemma_root_section_err(root, glines, names, rv, k + 1);
                        }
                        let res = Err(AppError::Config(m));
                        assert(summary_result(root, glines, reads@, top_level.deep_view(), src_top_level.deep_view(), modules@, top.deep_view(), src.deep_view(), perm@, fv, res));
                        return res;
                    },
                    Ok(()) => {},
                }
                match res {
                    Ok(c) => {
                        append_shown(&mut out, name, c.as_str());
                        assert(out@.skip(head.len() as int) =~= pre + shown_file(name@, c@));
                    },
                    Err(e) => {
                        proof {
                            lemma_root_section_err(root, glines, names, rv, k + 1);
                        }
                        let res = Err(AppError::Io(e.clone()));
                        assert(summary_result(root, glines, reads@, top_level.deep_view(), src_top_level.deep_view(), modules@, top.deep_view(), src.deep_view(), perm@, fv, res));
                        return res;
                    },
                }
            },
        }
        assert(out@.take(head.len() as int) =~= head);
        k += 1;
    }
    assert(names.take(5) =~= names);
    assert(rv.take(5) =~= rv);
    let ghost rs = out@.skip(head.len() as int);
    assert(out@ =~= head + rs);
    // The file names.
    let mut all_names: Vec<String> = Vec::new();
    let mut j: usize = 0;
    while j < top.len()
        invariant
            j <= top.len(),
            all_names.deep_view() == top.deep_view().take(j as int),
        decreases top.len() - j,
    {
        let ghost before = all_names.deep_view();
        all_names.push(top[j].clone());
        assert(all_names.deep_view() =~= before.push(top[j as int]@));
        assert(top.deep_view().take(j + 1) =~= top.deep_view().take(j as int).push(top[j as int]@));
        j += 1;
    }
    assert(top.deep_view().take(j as int) =~= top.deep_view());
    let mut j2: usize = 0;
    while j2 < src.len()
        invariant
            j2 <= src.len(),
            all_names.deep_view() == top.deep_view() + src.deep_view().take(j2 as int),
        decreases src.len() - j2,
    {
        let ghost before = all_names.deep_view();
        all_names.push(src[j2].clone());
        assert(all_names.deep_view() =~= before.push(src[j2 as int]@));
        assert(src.deep_view().take(j2 + 1) =~= src.deep_view().take(j2 as int).push(src[j2 as int]@));
        j2 += 1;
    }
    assert(src.deep_view().take(j2 as int) =~= src.deep_view());
    append_filenames(&mut out, &all_names);
    out.append("--- END FILENAMES ---\n\n");
    let ghost mid = out@;
    assert(mid =~= head + rs + filenames_block(top.deep_view() + src.deep_view()));
    // The modules, by name.
    let mut q: usize = 0;
    assert(order.take(0) =~= Seq::<ModuleView>::empty());
    assert(fv.take(0) =~= Seq::<Seq<Seq<char>>>::empty());
    assert(out@.skip(mid.len() as int) =~= Seq::<char>::empty());
    while q < perm.len()
        invariant
            ms == modules_view(modules@),
            order == order_of(ms, perm@),
            by_name(ms, perm@),
            fv == files@.map_values(|f: Vec<String>| f.deep_view()),
            summary_orders(top_level.deep_view(), src_top_level.deep_view(), modules@, top.deep_view(), src.deep_view(), perm@, fv),
            root == filter.root(),
            glines == filter.lines(),
            rv == reads_view(reads@),
            root_section(root, glines, summary_root_names(), rv) == Ok::<Seq<char>, SummaryFailure>(rs),
            head == "=== Project Root ===\n\n"@,
            mid == head + rs + filenames_block(top.deep_view() + src.deep_view()),
            files.len() == perm.len(),
            q <= perm.len(),
            out@.len() >= mid.len(),
            out@.take(mid.len() as int) == mid,
            modules_section(order.take(q as int), fv.take(q as int)) == Ok::<Seq<char>, SummaryFailure>(out@.skip(mid.len() as int)),
        decreases perm.len() - q,
    {
        let w = perm[q];
        let m = &modules[w];
        let ghost pre = out@.skip(mid.len() as int);
        assert(order.take(q + 1).drop_last() =~= order.take(q as int));
        assert(fv.take(q + 1).drop_last() =~= fv.take(q as int));
        assert(order.take(q + 1).last() == module_view(modules@[w as int]));
        assert(fv.take(q + 1).last() == files@[q as int].deep_view());
        match (&m.internal_dependencies, &m.public_api) {
            (Some(i), Some(p)) => {
                let ic = match i {
                    Ok(c) => c,
                    Err(e) => {
                        proof {
                            lemma_modules_section_err(order, fv, q + 1);
                        }
                        let res = Err(AppError::Io(e.clone()));
                        assert(summary_result(root, glines, reads@, top_level.deep_view(), src_top_level.deep_view(), modules@, top.deep_view(), src.deep_view(), perm@, fv, res));
                        return res;
                    },
                };
                let pc = match p {
                    Ok(c) => c,
                    Err(e) => {
                        proof {
                            lemma_modules_section_err(order, fv, q + 1);
                        }
                        let res = Err(AppError::Io(e.clone()));
                        assert(summary_result(root, glines, reads@, top_level.deep_view(), src_top_level.deep_view(), modules@, top.deep_view(), src.deep_view(), perm@, fv, res));
                        return res;
                    },
                };
                let mut dir = "src/".to_owned();
                dir.append(m.name.as_str());
                out.append("=== ");
                out.append(dir.as_str());
                out.append(" ===\n\n");
                let mut ip = dir.clone();
                ip.append("/InternalDependencies.md");
                append_shown(&mut out, ip.as_str(), ic.as_str());
                let mut pp = dir.clone();
                pp.append("/PublicAPI.md");
                append_shown(&mut out, pp.as_str(), pc.as_str());
                append_filenames(&mut out, &files[q]);
                out.append("--- END FILENAMES ---\n\n");
                assert(out@.skip(mid.len() as int) =~= pre + ("=== "@ + dir@ + " ===\n\n"@
                    + shown_file(dir@ + "/InternalDependencies.md"@, ic@) + shown_file(dir@ + "/PublicAPI.md"@, pc@)
                    + filenames_block(files@[q as int].deep_view())));
            },
            _ => {
                assert(out@.skip(mid.len() as int) =~= pre + Seq::<char>::empty());
            },
        }
        assert(out@.take(mid.len() as int) =~= mid);
        q += 1;
    }
    assert(order.take(q as int) =~= order);
    assert(fv.take(q as int) =~= fv);
    assert(out@ =~= head + rs + filenames_block(top.deep_view() + src.deep_view()) + out@.skip(mid.len() as int));
    let res = Ok(out);
    assert(summary_result(root, glines, reads@, top_level.deep_view(), src_top_level.deep_view(), modules@, top.deep_view(), src.deep_view(), perm@, fv, res));
    res
}

} // verus!
