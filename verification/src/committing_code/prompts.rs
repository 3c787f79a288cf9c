//! The texts of the committing-code workflow: the codebase and its file
//! blocks, the record of the changes made so far, and the three requests.
use vstd::prelude::*;
use crate::committing_code::response_parser::{join_lines, opt_string_view};
use crate::paths::{
    comps_less, lemma_comps_less_strict, lemma_comps_less_total, lemma_comps_less_trans,
    path_components, path_eq, path_less_exec, paths_equal,
};
use crate::prompts::{
    CODE_MODIFICATION_INSTRUCTIONS, COMMITTING_CODE_EXTRA_CODE_QUERY, COMMITTING_CODE_REPAIR_QUERY,
    PROJECT_STRUCTURE,
};
use crate::text::{chars_of, ends_with, lines_of, split_lines, starts_with, starts_with_exec, ends_with_exec, string_from_range, str_eq};

verus! {

/// A changed file as plain values: its path and its new content, or
/// `None` when it was deleted.
pub type Change = (Seq<char>, Option<Seq<char>>);

/// Text that ends with a newline stays as it is; other text gets one.
pub open spec fn with_newline(c: Seq<char>) -> Seq<char> {
    if c.len() > 0 && c.last() == '\n' {
        c
    } else {
        c.push('\n')
    }
}

/// A file as the codebase holds it: a `--- path ---` line, the content
/// ending in a newline, and a blank line.
pub open spec fn file_block(path: Seq<char>, content: Seq<char>) -> Seq<char> {
    "--- "@ + path + " ---\n"@ + with_newline(content) + "\n"@
}

/// How a change is shown to the model.
pub open spec fn change_block(e: Change) -> Seq<char> {
    match e.1 {
        Some(c) => "--- FILE REPLACEMENT "@ + e.0 + " ---\n"@ + with_newline(c) + "\n"@,
        None => "--- FILE REMOVED "@ + e.0 + " ---\n\n"@,
    }
}

/// The changes shown one after the other.
pub open spec fn render_changes(es: Seq<Change>) -> Seq<char>
    decreases es.len(),
{
    if es.len() == 0 {
        Seq::empty()
    } else {
        render_changes(es.drop_last()) + change_block(es.last())
    }
}

/// Changes listed by path, each path once, in the order of paths.
pub open spec fn sorted_changes(es: Seq<Change>) -> bool {
    forall|i: int, j: int|
        0 <= i < j < es.len() ==> comps_less(
            path_components(#[trigger] es[i].0),
            path_components(#[trigger] es[j].0),
        )
}

/// The first change at or after `k` whose path is `p` as a path.
pub open spec fn change_index(es: Seq<Change>, p: Seq<char>, k: int) -> Option<int>
    decreases es.len() - k,
{
    if k < 0 || k >= es.len() {
        None
    } else if path_eq(es[k].0, p) {
        Some(k)
    } else {
        change_index(es, p, k + 1)
    }
}

/// How many changes are to paths that sort before `p`.
pub open spec fn count_before(es: Seq<Change>, p: Seq<char>) -> nat
    decreases es.len(),
{
    if es.len() == 0 {
        0
    } else {
        count_before(es.drop_last(), p) + if comps_less(
            path_components(es.last().0),
            path_components(p),
        ) {
            1nat
        } else {
            0nat
        }
    }
}

/// The changes after one more change to `p`: it replaces the change to the
/// same path, which keeps the way its path was first written, or takes its
/// place in the order of paths.
pub open spec fn record_change(es: Seq<Change>, p: Seq<char>, c: Option<Seq<char>>) -> Seq<Change> {
    match change_index(es, p, 0) {
        Some(k) => es.update(k, (es[k].0, c)),
        None => es.insert(count_before(es, p) as int, (p, c)),
    }
}

proof fn lemma_count_before(es: Seq<Change>, p: Seq<char>, pos: int)
    requires
        0 <= pos <= es.len(),
        forall|i: int| 0 <= i < pos ==> comps_less(path_components(#[trigger] es[i].0), path_components(p)),
        forall|i: int| pos <= i < es.len() ==> !comps_less(path_components(#[trigger] es[i].0), path_components(p)),
    ensures
        count_before(es, p) == pos,
    decreases es.len(),
{
    if es.len() > 0 {
        let pre = es.drop_last();
        if pos == es.len() {
            assert forall|i: int| 0 <= i < pos - 1 implies comps_less(path_components(#[trigger] pre[i].0), path_components(p)) by {
                assert(pre[i] == es[i]);
            }
            lemma_count_before(pre, p, pos - 1);
            assert(comps_less(path_components(es[es.len() - 1].0), path_components(p)));
        } else {
            assert forall|i: int| 0 <= i < pos implies comps_less(path_components(#[trigger] pre[i].0), path_components(p)) by {
                assert(pre[i] == es[i]);
            }
            assert forall|i: int| pos <= i < pre.len() implies !comps_less(path_components(#[trigger] pre[i].0), path_components(p)) by {
                assert(pre[i] == es[i]);
            }
            lemma_count_before(pre, p, pos);
            assert(!comps_less(path_components(es[es.len() - 1].0), path_components(p)));
        }
    }
}

/// The changes made to the files so far, at most one per path: the latest
/// content of each changed file, or its deletion.
pub struct FileReplacements {
    entries: Vec<(String, Option<String>)>,
}

pub open spec fn entry_view(e: (String, Option<String>)) -> Change {
    (e.0@, opt_string_view(e.1))
}

impl View for FileReplacements {
    type V = Seq<Change>;

    closed spec fn view(&self) -> Seq<Change> {
        self.entries@.map_values(|e: (String, Option<String>)| entry_view(e))
    }
}

proof fn lemma_change_index(es: Seq<Change>, p: Seq<char>, k: int)
    requires
        0 <= k,
    ensures
        change_index(es, p, k) matches Some(j) ==> k <= j < es.len() && path_eq(es[j].0, p),
        change_index(es, p, k) is None ==> forall|j: int| k <= j < es.len() ==> !path_eq(es[j].0, p),
    decreases es.len() - k,
{
    if k < es.len() && !path_eq(es[k].0, p) {
        lemma_change_index(es, p, k + 1);
    }
}

impl FileReplacements {
    /// No change yet.
    pub fn new() -> (r: FileReplacements)
        ensures
            r@ == Seq::<Change>::empty(),
    {
        let r = FileReplacements { entries: Vec::new() };
        assert(r@ =~= Seq::<Change>::empty());
        r
    }

    /// Records the latest change to `path`: it replaces a change recorded
    /// for the same path (which keeps the way its path was first written),
    /// or takes its place among the others in the order of paths.
    pub fn record(&mut self, path: &str, content: Option<String>)
        requires
            sorted_changes(old(self)@),
        ensures
            sorted_changes(final(self)@),
            final(self)@ == record_change(old(self)@, path@, opt_string_view(content)),
    {
        let ghost es = self@;
        let ghost c = opt_string_view(content);
        let mut k: usize = 0;
        while k < self.entries.len()
            invariant
                es == self@,
                sorted_changes(es),
                es == old(self)@,
                c == opt_string_view(content),
                self.entries.len() == es.len(),
                k <= self.entries.len(),
                change_index(es, path@, k as int) == change_index(es, path@, 0),
            decreases self.entries.len() - k,
        {
            assert(es[k as int].0 == self.entries@[k as int].0@);
            if paths_equal(self.entries[k].0.as_str(), path) {
                let key = self.entries[k].0.clone();
                let ghost kv = key@;
                assert(kv == es[k as int].0);
                let ghost before = self.entries@;
                self.entries.set(k, (key, content));
                assert(entry_view(self.entries@[k as int]) == (kv, c));
                assert forall|i: int| 0 <= i < es.len() && i != k implies #[trigger] self.entries@[i] == before[i] by {}
                assert(self@.len() == es.len());
                assert(self@ =~= es.update(k as int, (kv, c)));
                assert(sorted_changes(self@)) by {
                    assert forall|i: int, j: int| 0 <= i < j < self@.len() implies comps_less(
                        path_components(#[trigger] self@[i].0),
                        path_components(#[trigger] self@[j].0),
                    ) by {
                        assert(self@[i].0 == es[i].0);
                        assert(self@[j].0 == es[j].0);
                    }
                }
                return;
            }
            k += 1;
        }
        proof {
            lemma_change_index(es, path@, 0);
        }
        let mut pos: usize = 0;
        while pos < self.entries.len() && path_less_exec(self.entries[pos].0.as_str(), path)
            invariant
                es == self@,
                sorted_changes(es),
                self.entries.len() == es.len(),
                pos <= self.entries.len(),
                forall|i: int| 0 <= i < pos ==> comps_less(path_components(#[trigger] es[i].0), path_components(path@)),
            decreases self.entries.len() - pos,
        {
            assert(es[pos as int].0 == self.entries@[pos as int].0@);
            pos += 1;
        }
        let ghost pc = path_components(path@);
        proof {
            if pos < es.len() {
                assert(es[pos as int].0 == self.entries@[pos as int].0@);
                assert(!comps_less(path_components(es[pos as int].0), pc));
                assert(!path_eq(es[pos as int].0, path@));
                lemma_comps_less_total(path_components(es[pos as int].0), pc);
            }
        }
        proof {
            assert forall|i: int| pos <= i < es.len() implies !comps_less(path_components(#[trigger] es[i].0), pc) by {
                assert(es[pos as int].0 == self.entries@[pos as int].0@);
                lemma_comps_less_total(path_components(es[pos as int].0), pc);
                if i > pos {
                    assert(comps_less(path_components(es[pos as int].0), path_components(es[i].0)));
                    lemma_comps_less_trans(pc, path_components(es[pos as int].0), path_components(es[i].0));
                    lemma_comps_less_strict(pc, path_components(es[i].0));
                }
            }
            lemma_count_before(es, path@, pos as int);
        }
        self.entries.insert(pos, (path.to_owned(), content));
        assert(self@ =~= es.insert(pos as int, (path@, c)));
        assert(sorted_changes(self@)) by {
            let ns = self@;
            assert forall|i: int, j: int| 0 <= i < j < ns.len() implies comps_less(
                path_components(#[trigger] ns[i].0),
                path_components(#[trigger] ns[j].0),
            ) by {
                if j < pos {
                    assert(ns[i] == es[i] && ns[j] == es[j]);
                } else if j == pos {
                    assert(ns[i] == es[i]);
                } else if i == pos {
                    assert(ns[j] == es[j - 1]);
                    if j - 1 > pos {
                        assert(comps_less(path_components(es[pos as int].0), path_components(es[j - 1].0)));
                        lemma_comps_less_trans(pc, path_components(es[pos as int].0), path_components(es[j - 1].0));
                    }
                } else if i < pos {
                    assert(ns[i] == es[i] && ns[j] == es[j - 1]);
                    if i < j - 1 {
                    } else {
                    }
                } else {
                    assert(ns[i] == es[i - 1] && ns[j] == es[j - 1]);
                }
            }
        }
    }

    /// The changes as the model sees them, in the order of paths.
    pub fn format(&self) -> (r: String)
        ensures
            r@ == render_changes(self@),
    {
        let ghost es = self@;
        let mut r = String::new();
        let mut i: usize = 0;
        assert(es.take(0) =~= Seq::<Change>::empty());
        while i < self.entries.len()
            invariant
                es == self@,
                self.entries.len() == es.len(),
                i <= self.entries.len(),
                r@ == render_changes(es.take(i as int)),
            decreases self.entries.len() - i,
        {
            let (p, c) = &self.entries[i];
            assert(es[i as int] == entry_view(self.entries@[i as int]));
            assert(es.take(i + 1).drop_last() =~= es.take(i as int));
            match c {
                Some(text) => {
                    r.append("--- FILE REPLACEMENT ");
                    r.append(p.as_str());
                    r.append(" ---\n");
                    r.append(text.as_str());
                    if !ends_in_newline(text.as_str()) {
                        r.append("\n");
                    }
                    r.append("\n");
                },
                None => {
                    r.append("--- FILE REMOVED ");
                    r.append(p.as_str());
                    r.append(" ---\n\n");
                },
            }
            proof {
                reveal_strlit("\n");
            }
            assert(r@ =~= render_changes(es.take(i as int)) + change_block(es[i as int]));
            i += 1;
        }
        assert(es.take(i as int) =~= es);
        r
    }
}

/// Whether text ends with a newline.
pub fn ends_in_newline(s: &str) -> (b: bool)
    ensures
        b == (s@.len() > 0 && s@.last() == '\n'),
{
    let cs = chars_of(s);
    cs.len() > 0 && cs[cs.len() - 1] == '\n'
}

/// Appends a file to the codebase as a `--- path ---` block.
pub fn append_file_block(codebase: &mut String, path: &str, content: &str)
    ensures
        final(codebase)@ == old(codebase)@ + file_block(path@, content@),
{
    codebase.append("--- ");
    codebase.append(path);
    codebase.append(" ---\n");
    codebase.append(content);
    if !ends_in_newline(content) {
        codebase.append("\n");
    }
    codebase.append("\n");
    proof {
        reveal_strlit("\n");
    }
    assert(codebase@ =~= old(codebase)@ + file_block(path@, content@));
}


pub open spec fn header_open() -> Seq<char> {
    seq!['-', '-', '-', ' ']
}

pub open spec fn header_close() -> Seq<char> {
    seq![' ', '-', '-', '-']
}

/// `s` without every leading copy of `p` (`str::trim_start_matches`).
pub open spec fn strip_leading(s: Seq<char>, p: Seq<char>) -> Seq<char>
    decreases s.len(),
{
    if p.len() > 0 && starts_with(s, p) {
        strip_leading(s.skip(p.len() as int), p)
    } else {
        s
    }
}

/// `s` without every trailing copy of `p` (`str::trim_end_matches`).
pub open spec fn strip_trailing(s: Seq<char>, p: Seq<char>) -> Seq<char>
    decreases s.len(),
{
    if p.len() > 0 && ends_with(s, p) {
        strip_trailing(s.take(s.len() - p.len()), p)
    } else {
        s
    }
}

/// The file a `--- name ---` line of the codebase introduces; the markers
/// of the file list and of shown changes introduce none.
pub open spec fn header_file(l: Seq<char>) -> Option<Seq<char>> {
    if starts_with(l, header_open()) && ends_with(l, header_close()) {
        let n = strip_trailing(strip_leading(l, header_open()), header_close());
        if n == "FILENAMES"@ || n == "END FILENAMES"@ || starts_with(n, "FILE REPLACEMENT"@)
            || starts_with(n, "FILE REMOVED"@) {
            None
        } else {
            Some(n)
        }
    } else {
        None
    }
}

/// The files whose content the codebase holds, in order.
pub open spec fn codebase_files(ls: Seq<Seq<char>>) -> Seq<Seq<char>>
    decreases ls.len(),
{
    if ls.len() == 0 {
        Seq::empty()
    } else {
        let pre = codebase_files(ls.drop_last());
        match header_file(ls.last()) {
            Some(n) => pre.push(n),
            None => pre,
        }
    }
}

fn strip_leading_exec(s: &Vec<char>, p: &Vec<char>) -> (r: Vec<char>)
    ensures
        r@ == strip_leading(s@, p@),
{
    let mut cur = s.clone();
    assert(cur@ == s@);
    while p.len() > 0 && starts_with_exec(&cur, p)
        invariant
            strip_leading(cur@, p@) == strip_leading(s@, p@),
        decreases cur.len(),
    {
        let mut next: Vec<char> = Vec::new();
        let mut i = p.len();
        while i < cur.len()
            invariant
                p.len() <= i <= cur.len(),
                next@ == cur@.subrange(p.len() as int, i as int),
            decreases cur.len() - i,
        {
            next.push(cur[i]);
            assert(next@ =~= cur@.subrange(p.len() as int, i + 1));
            i += 1;
        }
        assert(next@ =~= cur@.skip(p.len() as int));
        cur = next;
    }
    cur
}

fn strip_trailing_exec(s: &Vec<char>, p: &Vec<char>) -> (r: Vec<char>)
    ensures
        r@ == strip_trailing(s@, p@),
{
    let mut cur = s.clone();
    assert(cur@ == s@);
    while p.len() > 0 && ends_with_exec(&cur, p)
        invariant
            strip_trailing(cur@, p@) == strip_trailing(s@, p@),
        decreases cur.len(),
    {
        let n = cur.len() - p.len();
        cur.truncate(n);
    }
    cur
}

fn lit_chars(s: &str) -> (r: Vec<char>)
    ensures
        r@ == s@,
{
    chars_of(s)
}

/// The files whose content a codebase holds, in order: the names of its
/// `--- name ---` lines, without the markers of the file list and of
/// shown changes.
pub fn extract_filenames_from_codebase(codebase: &str) -> (r: Vec<String>)
    ensures
        r.deep_view() == codebase_files(lines_of(codebase@)),
{
    let ls = split_lines(codebase);
    let ghost all = ls.deep_view();
    let open = lit_chars("--- ");
    let close = lit_chars(" ---");
    proof {
        reveal_strlit("--- ");
        reveal_strlit(" ---");
        assert(open@ =~= header_open());
        assert(close@ =~= header_close());
    }
    let mut out: Vec<String> = Vec::new();
    let mut i: usize = 0;
    assert(all.take(0) =~= Seq::<Seq<char>>::empty());
    while i < ls.len()
        invariant
            all == ls.deep_view(),
            all == lines_of(codebase@),
            open@ == header_open(),
            close@ == header_close(),
            i <= ls.len(),
            out.deep_view() == codebase_files(all.take(i as int)),
        decreases ls.len() - i,
    {
        assert(all.take(i + 1).drop_last() =~= all.take(i as int));
        assert(all.take(i + 1).last() == ls[i as int]@);
        let l = chars_of(ls[i].as_str());
        if starts_with_exec(&l, &open) && ends_with_exec(&l, &close) {
            let a = strip_leading_exec(&l, &open);
            let b = strip_trailing_exec(&a, &close);
            let name = string_from_range(&b, 0, b.len());
            assert(b@.subrange(0, b@.len() as int) =~= b@);
            let nc = chars_of(name.as_str());
            let skip = str_eq(name.as_str(), "FILENAMES") || str_eq(name.as_str(), "END FILENAMES")
                || starts_with_exec(&nc, &lit_chars("FILE REPLACEMENT")) || starts_with_exec(
                &nc,
                &lit_chars("FILE REMOVED"),
            );
            if !skip {
                let ghost before = out.deep_view();
                let ghost nv = name@;
                out.push(name);
                assert(out.deep_view() =~= before.push(nv));
            }
        }
        i += 1;
    }
    assert(all.take(i as int) =~= all);
    out
}

/// What the model is asked before any change: the standing instructions,
/// the workflow's own instructions and the supervisor's query.
pub open spec fn agent_prompt(system_prompts: Seq<char>, query: Seq<char>) -> Seq<char> {
    PROJECT_STRUCTURE@ + "\n"@ + CODE_MODIFICATION_INSTRUCTIONS@ + "\n"@ + system_prompts
        + "\n[supervisor query]\n"@ + query
}

/// The first request: the agent prompt and the codebase.
pub open spec fn initial_prompt(agent_prompt: Seq<char>, codebase: Seq<char>) -> Seq<char> {
    agent_prompt + "\n[codebase]\n"@ + codebase
}

/// A repair request: the build output, the query, the codebase and the
/// changes made so far.
pub open spec fn repair_prompt(
    query: Seq<char>,
    build_output: Seq<char>,
    codebase: Seq<char>,
    changes: Seq<Change>,
) -> Seq<char> {
    PROJECT_STRUCTURE@ + "\n"@ + CODE_MODIFICATION_INSTRUCTIONS@ + "\n"@
        + COMMITTING_CODE_REPAIR_QUERY@ + "\n[build.sh output]\n"@ + build_output
        + "\n[supervisor query]\n"@ + query + "\n[codebase]\n"@ + codebase
        + "\n[file replacements]\n"@ + render_changes(changes)
}

/// A request for the files a repair needs: the files the codebase holds
/// and the build output.
pub open spec fn extra_code_prompt(files: Seq<Seq<char>>, build_output: Seq<char>) -> Seq<char> {
    COMMITTING_CODE_EXTRA_CODE_QUERY@ + "\n[codebase file list]\n"@ + join_lines(files)
        + "\n[build.sh output]\n"@ + build_output
}

/// The agent prompt.
pub fn build_agent_prompt(system_prompts: &str, query: &str) -> (r: String)
    ensures
        r@ == agent_prompt(system_prompts@, query@),
{
    let mut r = String::new();
    r.append(PROJECT_STRUCTURE);
    r.append("\n");
    r.append(CODE_MODIFICATION_INSTRUCTIONS);
    r.append("\n");
    r.append(system_prompts);
    r.append("\n[supervisor query]\n");
    r.append(query);
    r
}

/// The first request.
pub fn build_initial_prompt(next_agent_prompt: &str, codebase: &str) -> (r: String)
    ensures
        r@ == initial_prompt(next_agent_prompt@, codebase@),
{
    let mut r = next_agent_prompt.to_owned();
    r.append("\n[codebase]\n");
    r.append(codebase);
    r
}

/// A repair request.
pub fn build_repair_prompt(query: &str, build_output: &str, replacements: &FileReplacements, codebase: &str) -> (r: String)
    ensures
        r@ == repair_prompt(query@, build_output@, codebase@, replacements@),
{
    let changes = replacements.format();
    let mut r = String::new();
    r.append(PROJECT_STRUCTURE);
    r.append("\n");
    r.append(CODE_MODIFICATION_INSTRUCTIONS);
    r.append("\n");
    r.append(COMMITTING_CODE_REPAIR_QUERY);
    r.append("\n[build.sh output]\n");
    r.append(build_output);
    r.append("\n[supervisor query]\n");
    r.append(query);
    r.append("\n[codebase]\n");
    r.append(codebase);
    r.append("\n[file replacements]\n");
    r.append(changes.as_str());
    r
}

fn join_with_newlines(xs: &Vec<String>) -> (r: String)
    ensures
        r@ == join_lines(xs.deep_view()),
{
    let ghost all = xs.deep_view();
    let mut r = String::new();
    let mut i: usize = 0;
    assert(all.take(0) =~= Seq::<Seq<char>>::empty());
    while i < xs.len()
        invariant
            all == xs.deep_view(),
            i <= xs.len(),
            r@ == join_lines(all.take(i as int)),
        decreases xs.len() - i,
    {
        let ghost prev = all.take(i as int);
        if i > 0 {
            r.append("\n");
        }
        r.append(xs[i].as_str());
        proof {
            reveal_strlit("\n");
            crate::committing_code::response_parser::lemma_join_snoc(prev, all[i as int]);
            assert(all.take(i + 1) =~= prev.push(all[i as int]));
            assert(all[i as int] == xs[i as int]@);
        }
        i += 1;
    }
    assert(all.take(i as int) =~= all);
    r
}

/// A request for the files a repair needs.
pub fn build_extra_code_prompt(files: &Vec<String>, build_output: &str) -> (r: String)
    ensures
        r@ == extra_code_prompt(files.deep_view(), build_output@),
{
    let list = join_with_newlines(files);
    let mut r = String::new();
    r.append(COMMITTING_CODE_EXTRA_CODE_QUERY);
    r.append("\n[codebase file list]\n");
    r.append(list.as_str());
    r.append("\n[build.sh output]\n");
    r.append(build_output);
    r
}


/// Recording a change keeps the record sorted by path, leaves exactly one
/// change to that path, carrying the new content, and keeps every change
/// to another path.
pub proof fn lemma_record_latest(es: Seq<Change>, p: Seq<char>, c: Option<Seq<char>>)
    requires
        sorted_changes(es),
    ensures
        ({
            let r = record_change(es, p, c);
            &&& exists|k: int|
                0 <= k < r.len() && path_eq(#[trigger] r[k].0, p) && r[k].1 == c && (forall|j: int|
                    0 <= j < r.len() && j != k ==> !path_eq(#[trigger] r[j].0, p))
            &&& forall|j: int| 0 <= j < es.len() && !path_eq(#[trigger] es[j].0, p) ==> r.contains(es[j])
        }),
{
    let r = record_change(es, p, c);
    lemma_change_index(es, p, 0);
    match change_index(es, p, 0) {
        Some(k) => {
            assert(path_eq(r[k].0, p) && r[k].1 == c);
            assert forall|j: int| 0 <= j < r.len() && j != k implies !path_eq(#[trigger] r[j].0, p) by {
                assert(r[j] == es[j]);
                if j < k {
                    lemma_comps_less_strict(path_components(es[j].0), path_components(es[k].0));
                } else {
                    lemma_comps_less_strict(path_components(es[k].0), path_components(es[j].0));
                }
            }
            assert forall|j: int| 0 <= j < es.len() && !path_eq(#[trigger] es[j].0, p) implies r.contains(es[j]) by {
                assert(r[j] == es[j]);
            }
        },
        None => {
            let pos = count_before(es, p) as int;
            lemma_count_before_bound(es, p);
            assert(r[pos] == (p, c));
            assert(path_eq(r[pos].0, p));
            assert forall|j: int| 0 <= j < r.len() && j != pos implies !path_eq(#[trigger] r[j].0, p) by {
                if j < pos {
                    assert(r[j] == es[j]);
                } else {
                    assert(r[j] == es[j - 1]);
                }
            }
            assert forall|j: int| 0 <= j < es.len() && !path_eq(#[trigger] es[j].0, p) implies r.contains(es[j]) by {
                if j < pos {
                    assert(r[j] == es[j]);
                } else {
                    assert(r[j + 1] == es[j]);
                }
            }
        },
    }
}

proof fn lemma_count_before_bound(es: Seq<Change>, p: Seq<char>)
    ensures
        count_before(es, p) <= es.len(),
    decreases es.len(),
{
    if es.len() > 0 {
        lemma_count_before_bound(es.drop_last(), p);
    }
}


/// Strings joined by a separator (`[String]::join`).
pub open spec fn joined(xs: Seq<Seq<char>>, sep: Seq<char>) -> Seq<char>
    decreases xs.len(),
{
    if xs.len() == 0 {
        Seq::empty()
    } else if xs.len() == 1 {
        xs[0]
    } else {
        joined(xs.drop_last(), sep) + sep + xs.last()
    }
}

/// Strings joined by a separator.
pub fn join_with(xs: &Vec<String>, sep: &str) -> (r: String)
    ensures
        r@ == joined(xs.deep_view(), sep@),
{
    let ghost all = xs.deep_view();
    let mut r = String::new();
    let mut i: usize = 0;
    assert(all.take(0) =~= Seq::<Seq<char>>::empty());
    while i < xs.len()
        invariant
            all == xs.deep_view(),
            i <= xs.len(),
            r@ == joined(all.take(i as int), sep@),
        decreases xs.len() - i,
    {
        if i > 0 {
            r.append(sep);
        }
        r.append(xs[i].as_str());
        assert(all.take(i + 1).drop_last() =~= all.take(i as int));
        assert(all[i as int] == xs[i as int]@);
        proof {
            if i == 0 {
                assert(all.take(1) =~= seq![all[0]]);
            }
        }
        i += 1;
    }
    assert(all.take(i as int) =~= all);
    r
}

} // verus!
