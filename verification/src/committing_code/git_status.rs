//! The safety checks before the workflow changes files: the `.gitignore`
//! protects `agent-config`, and no file the model may change has
//! uncommitted changes.
use vstd::prelude::*;
use crate::committing_code::file_updater::{protection_error, PathProtection};
use crate::committing_code::prompts::{join_with, joined};
use crate::config::{gitignore_protects, FileRead};
use crate::error::AppError;
use crate::paths::{lemma_seq_less_strict, lemma_seq_less_total, lemma_seq_less_trans, seq_less, str_less};
use crate::text::{
    chars_of, concat, contains_seq, find, find_from, find_from_exec, lemma_find_from_facts, lemma_find_from_some,
    lines_of, occurs_at, split_lines,
    str_eq, string_from_range, trim, trim_str,
};

verus! {

pub open spec fn missing_gitignore_msg() -> Seq<char> {
    "The .gitignore file is missing; it must exist and hold a line for '/agent-config' to keep API keys and logs out of version control."@
}

pub open spec fn unprotected_msg() -> Seq<char> {
    "The .gitignore file is missing a line for '/agent-config'; add it to keep API keys and logs out of version control."@
}

/// Checks, before any change, that the `.gitignore` (as read) keeps
/// `agent-config` out of version control.
pub fn verify_gitignore_protection(gitignore: &FileRead) -> (r: Result<(), AppError>)
    ensures
        match gitignore {
            FileRead::NotFound => r matches Err(AppError::Config(m)) && m@ == missing_gitignore_msg(),
            FileRead::Failed(e) => r matches Err(AppError::Config(m)) && m@
                == "Failed to read file '.gitignore': "@ + e@,
            FileRead::Content(c) => if gitignore_protects(c@) {
                r is Ok
            } else {
                r matches Err(AppError::Config(m)) && m@ == unprotected_msg()
            },
        },
{
    match gitignore {
        FileRead::NotFound => Err(
            AppError::Config(
                "The .gitignore file is missing; it must exist and hold a line for '/agent-config' to keep API keys and logs out of version control.".to_owned(),
            ),
        ),
        FileRead::Failed(e) => Err(AppError::Config(concat("Failed to read file '.gitignore': ", e.as_str()))),
        FileRead::Content(_) => {
            match crate::config::check_gitignore(gitignore) {
                Ok(()) => Ok(()),
                Err(_) => Err(
                    AppError::Config(
                        "The .gitignore file is missing a line for '/agent-config'; add it to keep API keys and logs out of version control.".to_owned(),
                    ),
                ),
            }
        },
    }
}

pub open spec fn arrow() -> Seq<char> {
    seq![' ', '-', '>', ' ']
}

/// The paths a `git status --porcelain=v1` line names: the text after the
/// two status letters and the space, split at ` -> ` for a rename into
/// the old path and the new one.
pub open spec fn line_paths(l: Seq<char>) -> Seq<Seq<char>> {
    let pp = l.skip(3);
    match find(pp, arrow()) {
        Some(k) => {
            let rest = pp.skip(k + 4);
            let second = match find(rest, arrow()) {
                Some(k2) => rest.take(k2),
                None => rest,
            };
            seq![pp.take(k), second]
        },
        None => seq![pp],
    }
}

/// The paths the lines name, in order.
pub open spec fn status_paths(ls: Seq<Seq<char>>) -> Seq<Seq<char>>
    decreases ls.len(),
{
    if ls.len() == 0 {
        Seq::empty()
    } else {
        status_paths(ls.drop_last()) + line_paths(ls.last())
    }
}

/// A rename line `XY a -> b` names the old path and the new one, `a`
/// and `b`, whatever its status letters (when neither path holds the
/// arrow itself).
pub proof fn lemma_rename_line_names_both(x: char, y: char, a: Seq<char>, b: Seq<char>)
    requires
        !contains_seq(a + " "@, " -> "@),
        !contains_seq(b, " -> "@),
    ensures
        line_paths(seq![x, y, ' '] + a + " -> "@ + b) == seq![a, b],
{
    reveal_strlit(" -> ");
    reveal_strlit(" ");
    let ar = arrow();
    assert(ar =~= " -> "@);
    let l = seq![x, y, ' '] + a + " -> "@ + b;
    let pp = l.skip(3);
    assert(pp =~= a + " -> "@ + b);
    let n = a.len() as int;
    assert(pp.subrange(n, n + 4) =~= ar);
    assert(occurs_at(pp, ar, n));
    let a1 = a + " "@;
    assert forall|i: int| 0 <= i < n implies !occurs_at(pp, ar, i) by {
        if occurs_at(pp, ar, i) {
            if i + 4 <= n + 1 {
                assert(a1.subrange(i, i + 4) =~= pp.subrange(i, i + 4));
                assert(occurs_at(a1, ar, i));
            } else {
                assert(pp[n + 1] == '-');
                assert(pp.subrange(i, i + 4)[n + 1 - i] == pp[n + 1]);
            }
        }
    }
    lemma_find_from_some(pp, ar, 0, n);
    let rest = pp.skip(n + 4);
    assert(rest =~= b);
    lemma_find_from_facts(b, ar, 0);
    if find(b, ar) is Some {
        assert(occurs_at(b, ar, find(b, ar)->0));
    }
    assert(pp.take(n) =~= a);
}

proof fn lemma_status_paths_cover(ls: Seq<Seq<char>>, i: int, q: Seq<char>)
    requires
        0 <= i < ls.len(),
        line_paths(ls[i]).contains(q),
    ensures
        status_paths(ls).contains(q),
    decreases ls.len(),
{
    let pre = status_paths(ls.drop_last());
    let last = line_paths(ls.last());
    assert(status_paths(ls) == pre + last);
    if i == ls.len() - 1 {
        let w = choose|w: int| 0 <= w < last.len() && last[w] == q;
        assert((pre + last)[pre.len() + w] == q);
    } else {
        assert(ls.drop_last()[i] == ls[i]);
        lemma_status_paths_cover(ls.drop_last(), i, q);
        let w = choose|w: int| 0 <= w < pre.len() && pre[w] == q;
        assert((pre + last)[w] == q);
    }
}

/// Every changed file counts, whatever its two status letters: a status
/// line `XY p` (with no rename arrow in `p`) names exactly `p`, so when the
/// model may modify `p` the check lists it, be the change an edit, an
/// addition, a deletion or anything else.
pub proof fn lemma_every_status_line_counts(
    root: Seq<char>,
    lines: Seq<Seq<char>>,
    text: Seq<char>,
    i: int,
    x: char,
    y: char,
    p: Seq<char>,
)
    requires
        0 <= i < lines_of(text).len(),
        lines_of(text)[i] == seq![x, y, ' '] + p,
        !contains_seq(p, " -> "@),
        protection_error(root, lines, p) is None,
    ensures
        line_paths(seq![x, y, ' '] + p) == seq![p],
        dirty_allowed(root, lines, text).contains(p),
{
    reveal_strlit(" -> ");
    let l = seq![x, y, ' '] + p;
    assert(l.skip(3) =~= p);
    assert(arrow() =~= " -> "@);
    lemma_find_from_facts(p, arrow(), 0);
    if find(p, arrow()) is Some {
        let k = find(p, arrow())->0;
        assert(crate::text::occurs_at(p, " -> "@, k));
    }
    assert(line_paths(l) == seq![p]);
    assert(line_paths(lines_of(text)[i]).contains(p)) by {
        assert(line_paths(l)[0] == p);
    }
    lemma_status_paths_cover(lines_of(text), i, p);
    assert(status_paths(lines_of(text)).to_set().contains(p));
}

/// Porcelain output as git writes it: every line starts with two status
/// letters and a space.
pub open spec fn porcelain_shaped(text: Seq<char>) -> bool {
    forall|i: int|
        0 <= i < lines_of(text).len() ==> (#[trigger] lines_of(text)[i]).len() >= 3 && (forall|j: int|
            0 <= j < 3 ==> (lines_of(text)[i][j] as int) < 128)
}

/// The changed paths the model may modify.
pub open spec fn dirty_allowed(root: Seq<char>, lines: Seq<Seq<char>>, text: Seq<char>) -> Set<Seq<char>> {
    status_paths(lines_of(text)).to_set().filter(|p: Seq<char>| protection_error(root, lines, p) is None)
}

/// Strictly increasing in the order of strings.
pub open spec fn strictly_sorted(xs: Seq<Seq<char>>) -> bool {
    forall|i: int, j: int| 0 <= i < j < xs.len() ==> seq_less(#[trigger] xs[i], #[trigger] xs[j])
}

pub open spec fn dirty_msg(files: Seq<Seq<char>>) -> Seq<char> {
    "Uncommitted changes found in files that can be modified by the LLM:\n- "@ + joined(files, "\n- "@)
        + "\n\nPlease commit or stash your changes before running.\nTo override this safety check, use the --force or --f flag."@
}

fn insert_sorted(xs: &mut Vec<String>, s: String)
    requires
        strictly_sorted(old(xs).deep_view()),
    ensures
        strictly_sorted(final(xs).deep_view()),
        final(xs).deep_view().to_set() == old(xs).deep_view().to_set().insert(s@),
{
    let ghost v0 = xs.deep_view();
    let mut pos: usize = 0;
    while pos < xs.len() && str_less(xs[pos].as_str(), s.as_str())
        invariant
            v0 == xs.deep_view(),
            pos <= xs.len(),
            forall|i: int| 0 <= i < pos ==> seq_less(#[trigger] v0[i], s@),
        decreases xs.len() - pos,
    {
        assert(v0[pos as int] == xs[pos as int]@);
        pos += 1;
    }
    if pos < xs.len() && str_eq(xs[pos].as_str(), s.as_str()) {
        assert(v0[pos as int] == xs[pos as int]@);
        assert(v0.to_set().insert(s@) =~= v0.to_set());
        return;
    }
    proof {
        if pos < v0.len() {
            assert(v0[pos as int] == xs[pos as int]@);
            lemma_seq_less_total(v0[pos as int], s@);
        }
        assert forall|i: int| pos <= i < v0.len() implies seq_less(s@, #[trigger] v0[i]) by {
            if i > pos {
                lemma_seq_less_trans(s@, v0[pos as int], v0[i]);
            }
        }
    }
    let ghost sv = s@;
    xs.insert(pos, s);
    let ghost v1 = xs.deep_view();
    assert(v1 =~= v0.insert(pos as int, sv));
    assert forall|i: int, j: int| 0 <= i < j < v1.len() implies seq_less(#[trigger] v1[i], #[trigger] v1[j]) by {
        if j < pos {
            assert(v1[i] == v0[i] && v1[j] == v0[j]);
        } else if j == pos {
            assert(v1[i] == v0[i]);
        } else if i == pos {
            assert(v1[j] == v0[j - 1]);
        } else if i < pos {
            assert(v1[i] == v0[i] && v1[j] == v0[j - 1]);
        } else {
            assert(v1[i] == v0[i - 1] && v1[j] == v0[j - 1]);
        }
    }
    assert(v1.to_set() =~= v0.to_set().insert(sv)) by {
        assert forall|x: Seq<char>| v1.to_set().contains(x) <==> v0.to_set().insert(sv).contains(x) by {
            if v1.to_set().contains(x) {
                let k = choose|k: int| 0 <= k < v1.len() && v1[k] == x;
                if k < pos {
                    assert(v0[k] == x);
                } else if k > pos {
                    assert(v0[k - 1] == x);
                }
            }
            if v0.to_set().contains(x) {
                let k = choose|k: int| 0 <= k < v0.len() && v0[k] == x;
                if k < pos {
                    assert(v1[k] == x);
                } else {
                    assert(v1[k + 1] == x);
                }
            }
            if x == sv {
                assert(v1[pos as int] == x);
            }
        }
    }
}

fn line_paths_exec(line: &str) -> (r: Vec<String>)
    requires
        line@.len() >= 3,
    ensures
        r.deep_view() == line_paths(line@),
{
    proof {
        reveal_strlit(" -> ");
    }
    let cs = chars_of(line);
    let pp = string_from_range(&cs, 3, cs.len());
    let pc = chars_of(pp.as_str());
    let ar = chars_of(" -> ");
    assert(ar@ =~= arrow());
    assert(pp@ =~= line@.skip(3));
    let mut out: Vec<String> = Vec::new();
    match find_from_exec(&pc, &ar, 0) {
        Some(k) => {
            proof {
                lemma_find_from_facts(pc@, arrow(), 0);
            }
            let rest = string_from_range(&pc, k + 4, pc.len());
            let rc = chars_of(rest.as_str());
            let second = match find_from_exec(&rc, &ar, 0) {
                Some(k2) => {
                    proof {
                        lemma_find_from_facts(rc@, arrow(), 0);
                    }
                    string_from_range(&rc, 0, k2)
                },
                None => rest,
            };
            out.push(string_from_range(&pc, 0, k));
            out.push(second);
            proof {
                assert(rc@ =~= pp@.skip(k + 4));
            }
            assert(out.deep_view() =~= line_paths(line@));
        },
        None => {
            out.push(pp);
            assert(out.deep_view() =~= line_paths(line@));
        },
    }
    out
}

/// Decides, from `git status --porcelain=v1` output, whether the run may
/// go on: it may when nothing changed or only files the model may not
/// modify changed; otherwise the error lists the others, each once, in
/// the order of strings.
pub fn check_for_uncommitted_changes(status_output: &str, protection: &PathProtection) -> (r: Result<(), AppError>)
    requires
        trim(status_output@).len() > 0 ==> porcelain_shaped(status_output@),
    ensures
        trim(status_output@).len() == 0 ==> r is Ok,
        trim(status_output@).len() > 0 ==> {
            let allowed = dirty_allowed(protection.root(), protection.lines(), status_output@);
            &&& allowed.is_empty() ==> r is Ok
            &&& !allowed.is_empty() ==> exists|files: Seq<Seq<char>>|
                strictly_sorted(files) && files.to_set() == allowed && (r matches Err(AppError::Config(m))
                && m@ == dirty_msg(files))
        },
{
    let t = trim_str(status_output);
    if t.as_str().is_empty() {
        return Ok(());
    }
    let ls = split_lines(status_output);
    let ghost all = ls.deep_view();
    let ghost root = protection.root();
    let ghost glines = protection.lines();
    let mut dirty: Vec<String> = Vec::new();
    let mut i: usize = 0;
    assert(all.take(0) =~= Seq::<Seq<char>>::empty());
    assert(dirty.deep_view().to_set() =~= Set::<Seq<char>>::empty());
    assert(status_paths(all.take(0)).to_set().filter(|p: Seq<char>| protection_error(root, glines, p) is None)
        =~= Set::<Seq<char>>::empty());
    while i < ls.len()
        invariant
            all == ls.deep_view(),
            all == lines_of(status_output@),
            porcelain_shaped(status_output@),
            root == protection.root(),
            glines == protection.lines(),
            i <= ls.len(),
            strictly_sorted(dirty.deep_view()),
            dirty.deep_view().to_set() == status_paths(all.take(i as int)).to_set().filter(
                |p: Seq<char>| protection_error(root, glines, p) is None,
            ),
        decreases ls.len() - i,
    {
        assert(all[i as int] == ls[i as int]@);
        assert(all[i as int].len() >= 3);
        let ps = line_paths_exec(ls[i].as_str());
        let ghost before = status_paths(all.take(i as int));
        assert(all.take(i + 1).drop_last() =~= all.take(i as int));
        assert(status_paths(all.take(i + 1)) == before + ps.deep_view());
        let mut j: usize = 0;
        while j < ps.len()
            invariant
                root == protection.root(),
                glines == protection.lines(),
                j <= ps.len(),
                strictly_sorted(dirty.deep_view()),
                dirty.deep_view().to_set() == (before + ps.deep_view().take(j as int)).to_set().filter(
                    |p: Seq<char>| protection_error(root, glines, p) is None,
                ),
            decreases ps.len() - j,
        {
            let ghost pv = ps[j as int]@;
            let ghost prev = before + ps.deep_view().take(j as int);
            assert(before + ps.deep_view().take(j + 1) =~= prev.push(pv));
            let res = protection.validate(ps[j].as_str());
            let ok = res.is_ok();
            assert(ok ==> protection_error(root, glines, pv) is None);
            assert(!ok ==> protection_error(root, glines, pv) is Some);
            let ghost d0 = dirty.deep_view().to_set();
            proof {
                assert forall|x: Seq<char>| prev.push(pv).contains(x) <==> (prev.contains(x) || x == pv) by {
                    if prev.push(pv).contains(x) {
                        let k = choose|k: int| 0 <= k < prev.push(pv).len() && prev.push(pv)[k] == x;
                        if k < prev.len() {
                            assert(prev[k] == x);
                        }
                    }
                    if prev.contains(x) {
                        let k = choose|k: int| 0 <= k < prev.len() && prev[k] == x;
                        assert(prev.push(pv)[k] == x);
                    }
                    if x == pv {
                        assert(prev.push(pv)[prev.len() as int] == pv);
                    }
                }
            }
            if ok {
                proof {
                    let f = |p: Seq<char>| protection_error(root, glines, p) is None;
                    assert(d0 == prev.to_set().filter(f));
                    assert forall|x: Seq<char>| prev.push(pv).to_set().filter(f).contains(x) <==> d0.insert(pv).contains(x) by {
                        assert(prev.push(pv).to_set().contains(x) == prev.push(pv).contains(x));
                        assert(prev.to_set().contains(x) == prev.contains(x));
                        assert(prev.push(pv).contains(x) <==> (prev.contains(x) || x == pv));
                        if x == pv {
                            assert(f(pv));
                        }
                    }
                    assert(prev.push(pv).to_set().filter(f) =~= d0.insert(pv));
                }
                insert_sorted(&mut dirty, ps[j].clone());
            } else {
                assert(prev.push(pv).to_set().filter(|p: Seq<char>| protection_error(root, glines, p) is None)
                    =~= d0);
            }
            j += 1;
        }
        assert(ps.deep_view().take(j as int) =~= ps.deep_view());
        i += 1;
    }
    assert(all.take(i as int) =~= all);
    if dirty.len() == 0 {
        assert(dirty.deep_view() =~= Seq::<Seq<char>>::empty());
        assert(dirty.deep_view().to_set() =~= Set::<Seq<char>>::empty());
        return Ok(());
    }
    proof {
        assert(dirty.deep_view().to_set().contains(dirty.deep_view()[0]));
    }
    let list = join_with(&dirty, "\n- ");
    let mut m = "Uncommitted changes found in files that can be modified by the LLM:\n- ".to_owned();
    m.append(list.as_str());
    m.append(
        "\n\nPlease commit or stash your changes before running.\nTo override this safety check, use the --force or --f flag.",
    );
    Err(AppError::Config(m))
}

} // verus!
