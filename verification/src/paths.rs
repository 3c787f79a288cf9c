//! Unix paths as `std::path` reads them: a path is the sequence of its
//! components, and two paths are equal, or ordered, as those sequences are.
use vstd::prelude::*;
use crate::text::{chars_of, index_of, lemma_index_of_at, lemma_index_of_bound, string_from_range};
use crate::text;
use path_clean::PathClean;

verus! {

/// A path component, over the characters of its name.
pub enum SComp {
    RootDir,
    CurDir,
    ParentDir,
    Normal(Seq<char>),
}

/// A path component.
#[derive(Debug, Clone, PartialEq, Eq)]
pub enum PathComp {
    RootDir,
    CurDir,
    ParentDir,
    Normal(String),
}

pub open spec fn comp_view(c: PathComp) -> SComp {
    match c {
        PathComp::RootDir => SComp::RootDir,
        PathComp::CurDir => SComp::CurDir,
        PathComp::ParentDir => SComp::ParentDir,
        PathComp::Normal(s) => SComp::Normal(s@),
    }
}

pub open spec fn comps_view(cs: Seq<PathComp>) -> Seq<SComp> {
    cs.map_values(|c: PathComp| comp_view(c))
}

pub open spec fn dot() -> Seq<char> {
    seq!['.']
}

pub open spec fn dot_dot() -> Seq<char> {
    seq!['.', '.']
}

/// The pieces of `s` between the `'/'` separators (at least one piece).
pub open spec fn split_seg(s: Seq<char>) -> Seq<Seq<char>>
    decreases s.len(),
{
    let k = index_of(s, '/');
    proof {
        lemma_index_of_bound(s, '/');
    }
    if k < s.len() {
        seq![s.take(k as int)] + split_seg(s.skip(k as int + 1))
    } else {
        seq![s]
    }
}

/// The components that the pieces of a path body stand for: empty pieces
/// and `.` vanish, `..` is the parent, anything else a normal name.
pub open spec fn seg_comps(segs: Seq<Seq<char>>) -> Seq<SComp>
    decreases segs.len(),
{
    if segs.len() == 0 {
        Seq::empty()
    } else {
        let s = segs[0];
        let rest = seg_comps(segs.drop_first());
        if s.len() == 0 || s == dot() {
            rest
        } else if s == dot_dot() {
            seq![SComp::ParentDir] + rest
        } else {
            seq![SComp::Normal(s)] + rest
        }
    }
}

/// The components of a Unix path, as `Path::components` yields them: a
/// leading `/` is the root, a leading `.` piece of a relative path is the
/// current directory, and the other pieces read as `seg_comps` says.
pub open spec fn path_components(p: Seq<char>) -> Seq<SComp> {
    if p.len() > 0 && p[0] == '/' {
        seq![SComp::RootDir] + seg_comps(split_seg(p.drop_first()))
    } else {
        let segs = split_seg(p);
        if segs[0] == dot() {
            seq![SComp::CurDir] + seg_comps(segs.drop_first())
        } else {
            seg_comps(segs)
        }
    }
}

/// Two paths are equal as `Path`s are: component by component.
pub open spec fn path_eq(a: Seq<char>, b: Seq<char>) -> bool {
    path_components(a) == path_components(b)
}

/// Lexicographic order of character sequences, by code point, a proper
/// prefix first (the order of `str` and `String`).
pub open spec fn seq_less(a: Seq<char>, b: Seq<char>) -> bool
    decreases a.len(),
{
    if a.len() == 0 {
        b.len() > 0
    } else if b.len() == 0 {
        false
    } else if a[0] != b[0] {
        (a[0] as int) < (b[0] as int)
    } else {
        seq_less(a.drop_first(), b.drop_first())
    }
}

pub open spec fn comp_rank(c: SComp) -> int {
    match c {
        SComp::RootDir => 1,
        SComp::CurDir => 2,
        SComp::ParentDir => 3,
        SComp::Normal(_) => 4,
    }
}

/// The order of `std::path::Component`: root, current, parent, then
/// normal names by their characters.
pub open spec fn comp_less(a: SComp, b: SComp) -> bool {
    if comp_rank(a) != comp_rank(b) {
        comp_rank(a) < comp_rank(b)
    } else {
        match (a, b) {
            (SComp::Normal(x), SComp::Normal(y)) => seq_less(x, y),
            _ => false,
        }
    }
}

/// Lexicographic order of component sequences.
pub open spec fn comps_less(a: Seq<SComp>, b: Seq<SComp>) -> bool
    decreases a.len(),
{
    if a.len() == 0 {
        b.len() > 0
    } else if b.len() == 0 {
        false
    } else if a[0] != b[0] {
        comp_less(a[0], b[0])
    } else {
        comps_less(a.drop_first(), b.drop_first())
    }
}

/// The order of `Path`s: by their components.
pub open spec fn path_less(a: Seq<char>, b: Seq<char>) -> bool {
    comps_less(path_components(a), path_components(b))
}

/// The last component, when it is a normal name (`Path::file_name`).
pub open spec fn file_name_of(p: Seq<char>) -> Option<Seq<char>> {
    let cs = path_components(p);
    if cs.len() > 0 && cs.last() is Normal {
        Some(cs.last()->Normal_0)
    } else {
        None
    }
}

/// `PathBuf::join`: an absolute `b` replaces `a`; otherwise `b` follows `a`
/// after a separator, unless `a` is empty or already ends in one.
pub open spec fn path_join(a: Seq<char>, b: Seq<char>) -> Seq<char> {
    if b.len() > 0 && b[0] == '/' {
        b
    } else if a.len() == 0 || a.last() == '/' {
        a + b
    } else {
        a + seq!['/'] + b
    }
}

/// A well-formed normal name: not empty, no separator, not `.` or `..`.
pub open spec fn good_name(s: Seq<char>) -> bool {
    s.len() > 0 && !s.contains('/') && s != dot() && s != dot_dot()
}

/// A component that may stand in the body of a path.
pub open spec fn body_comp(c: SComp) -> bool {
    match c {
        SComp::ParentDir => true,
        SComp::Normal(s) => good_name(s),
        _ => false,
    }
}

/// A component sequence that some path has: the root or the current
/// directory only first, every other component a body component.
pub open spec fn wf_comps(cs: Seq<SComp>) -> bool {
    forall|i: int|
        0 <= i < cs.len() ==> (body_comp(#[trigger] cs[i]) || (i == 0 && (cs[i] is RootDir
            || cs[i] is CurDir)))
}

// ---------------------------------------------------------------------
// Lemmas
// ---------------------------------------------------------------------

proof fn lemma_split_at_sep(s: Seq<char>, k: int)
    requires
        0 <= k < s.len(),
        s[k] == '/',
        forall|j: int| 0 <= j < k ==> s[j] != '/',
    ensures
        split_seg(s) == seq![s.take(k)] + split_seg(s.skip(k + 1)),
{
    lemma_index_of_at(s, '/', k);
}

proof fn lemma_split_no_sep(s: Seq<char>)
    requires
        forall|j: int| 0 <= j < s.len() ==> s[j] != '/',
    ensures
        split_seg(s) == seq![s],
{
    lemma_index_of_at(s, '/', s.len() as int);
}

/// The piece a body component is written as.
pub open spec fn comp_text(c: SComp) -> Seq<char> {
    match c {
        SComp::Normal(s) => s,
        SComp::ParentDir => dot_dot(),
        SComp::RootDir => seq!['/'],
        SComp::CurDir => dot(),
    }
}

/// Body components joined by separators.
pub open spec fn render_body(xs: Seq<SComp>) -> Seq<char>
    decreases xs.len(),
{
    if xs.len() == 0 {
        Seq::empty()
    } else if xs.len() == 1 {
        comp_text(xs[0])
    } else {
        comp_text(xs[0]) + seq!['/'] + render_body(xs.drop_first())
    }
}

/// A path written from its components.
pub open spec fn render_path(cs: Seq<SComp>) -> Seq<char> {
    if cs.len() > 0 && cs[0] is RootDir {
        seq!['/'] + render_body(cs.drop_first())
    } else if cs.len() > 0 && cs[0] is CurDir {
        if cs.len() == 1 {
            dot()
        } else {
            dot() + seq!['/'] + render_body(cs.drop_first())
        }
    } else {
        render_body(cs)
    }
}

proof fn lemma_seg_comps_single(t: Seq<char>)
    ensures
        seg_comps(seq![t]) == (if t.len() == 0 || t == dot() {
            Seq::<SComp>::empty()
        } else if t == dot_dot() {
            seq![SComp::ParentDir]
        } else {
            seq![SComp::Normal(t)]
        }),
{
    let segs = seq![t];
    assert(segs.drop_first() =~= Seq::<Seq<char>>::empty());
    assert(seg_comps(segs.drop_first()) == Seq::<SComp>::empty());
    assert(seq![SComp::ParentDir] + Seq::<SComp>::empty() =~= seq![SComp::ParentDir]);
    assert(seq![SComp::Normal(t)] + Seq::<SComp>::empty() =~= seq![SComp::Normal(t)]);
}

proof fn lemma_comp_text_no_sep(c: SComp)
    requires
        body_comp(c),
    ensures
        !comp_text(c).contains('/'),
        comp_text(c).len() > 0,
        comp_text(c) != dot(),
        seg_comps(seq![comp_text(c)]) == seq![c],
{
    lemma_seg_comps_single(comp_text(c));
    if c is ParentDir {
        assert(!dot_dot().contains('/')) by {
            assert forall|i: int| 0 <= i < dot_dot().len() implies dot_dot()[i] != '/' by {}
        }
        assert(dot_dot() != dot()) by {
            assert(dot_dot().len() != dot().len());
        }
    }
}

proof fn lemma_split_render_body(xs: Seq<SComp>)
    requires
        xs.len() > 0,
        forall|i: int| 0 <= i < xs.len() ==> body_comp(#[trigger] xs[i]),
    ensures
        seg_comps(split_seg(render_body(xs))) == xs,
    decreases xs.len(),
{
    lemma_comp_text_no_sep(xs[0]);
    let t = comp_text(xs[0]);
    if xs.len() == 1 {
        assert forall|j: int| 0 <= j < t.len() implies t[j] != '/' by {
            if t[j] == '/' {
                assert(t.contains('/'));
            }
        }
        lemma_split_no_sep(t);
        assert(xs == seq![xs[0]]);
    } else {
        let rest = xs.drop_first();
        assert forall|i: int| 0 <= i < rest.len() implies body_comp(#[trigger] rest[i]) by {
            assert(rest[i] == xs[i + 1]);
        }
        lemma_split_render_body(rest);
        let s = t + seq!['/'] + render_body(rest);
        assert forall|j: int| 0 <= j < t.len() implies s[j] != '/' by {
            assert(s[j] == t[j]);
            if t[j] == '/' {
                assert(t.contains('/'));
            }
        }
        assert(s[t.len() as int] == '/');
        lemma_split_at_sep(s, t.len() as int);
        assert(s.take(t.len() as int) == t);
        assert(s.skip(t.len() as int + 1) == render_body(rest));
        let segs = split_seg(s);
        assert(segs.drop_first() == split_seg(render_body(rest)));
        assert(segs[0] == t);
        assert(seg_comps(segs) == seq![xs[0]] + rest);
        assert(seq![xs[0]] + rest == xs);
    }
}

proof fn lemma_render_body_first(xs: Seq<SComp>)
    requires
        xs.len() > 0,
        body_comp(xs[0]),
    ensures
        render_body(xs).len() > 0,
        render_body(xs)[0] != '/',
        split_seg(render_body(xs))[0] == comp_text(xs[0]),
{
    lemma_comp_text_no_sep(xs[0]);
    let t = comp_text(xs[0]);
    if t[0] == '/' {
        assert(t.contains('/'));
    }
    if xs.len() == 1 {
        assert forall|j: int| 0 <= j < t.len() implies t[j] != '/' by {
            if t[j] == '/' {
                assert(t.contains('/'));
            }
        }
        lemma_split_no_sep(t);
    } else {
        let s = t + seq!['/'] + render_body(xs.drop_first());
        assert forall|j: int| 0 <= j < t.len() implies s[j] != '/' by {
            assert(s[j] == t[j]);
            if t[j] == '/' {
                assert(t.contains('/'));
            }
        }
        lemma_split_at_sep(s, t.len() as int);
        assert(s.take(t.len() as int) == t);
        assert(s[0] == t[0]);
    }
}

/// Writing well-formed components down and reading them back gives them
/// again.
pub proof fn lemma_components_of_render(cs: Seq<SComp>)
    requires
        wf_comps(cs),
    ensures
        path_components(render_path(cs)) == cs,
{
    let e = Seq::<char>::empty();
    assert(dot().len() == 1 && dot()[0] == '.');
    if cs.len() == 0 {
        assert(render_path(cs) == e);
        lemma_split_no_sep(e);
        lemma_seg_comps_single(e);
        assert(split_seg(e)[0] != dot());
        assert(path_components(e) == Seq::<SComp>::empty());
        assert(cs =~= Seq::<SComp>::empty());
    } else if cs[0] is RootDir || cs[0] is CurDir {
        let rest = cs.drop_first();
        assert forall|i: int| 0 <= i < rest.len() implies body_comp(#[trigger] rest[i]) by {
            assert(rest[i] == cs[i + 1]);
            assert(body_comp(cs[i + 1]) || (i + 1 == 0));
        }
        let p = render_path(cs);
        let body = render_body(rest);
        if rest.len() == 0 {
            lemma_split_no_sep(e);
            lemma_seg_comps_single(e);
            assert(body == e);
        } else {
            lemma_split_render_body(rest);
        }
        assert(seg_comps(split_seg(body)) == rest);
        if cs[0] is RootDir {
            assert(p == seq!['/'] + body);
            assert(p.drop_first() =~= body);
            assert(p[0] == '/');
            assert(path_components(p) == seq![SComp::RootDir] + rest);
            assert(seq![SComp::RootDir] + rest =~= cs);
        } else {
            if rest.len() == 0 {
                assert(p == dot());
                assert forall|j: int| 0 <= j < p.len() implies p[j] != '/' by {}
                lemma_split_no_sep(p);
                assert(split_seg(p).drop_first() =~= Seq::<Seq<char>>::empty());
                assert(path_components(p) == seq![SComp::CurDir] + seg_comps(
                    Seq::<Seq<char>>::empty(),
                ));
                assert(cs =~= seq![SComp::CurDir]);
                assert(seq![SComp::CurDir] + Seq::<SComp>::empty() =~= cs);
            } else {
                assert(p == dot() + seq!['/'] + body);
                assert(p[0] == '.');
                assert(p[1] == '/');
                assert forall|j: int| 0 <= j < 1 implies p[j] != '/' by {}
                lemma_split_at_sep(p, 1);
                assert(p.take(1) =~= dot());
                assert(p.skip(2) =~= body);
                let segs = split_seg(p);
                assert(segs[0] == dot());
                assert(segs.drop_first() =~= split_seg(body));
                assert(path_components(p) == seq![SComp::CurDir] + rest);
                assert(seq![SComp::CurDir] + rest =~= cs);
            }
        }
    } else {
        assert forall|i: int| 0 <= i < cs.len() implies body_comp(#[trigger] cs[i]) by {}
        lemma_render_body_first(cs);
        lemma_comp_text_no_sep(cs[0]);
        lemma_split_render_body(cs);
        let p = render_path(cs);
        assert(p == render_body(cs));
        assert(split_seg(p)[0] != dot());
        assert(path_components(p) == seg_comps(split_seg(p)));
    }
}

// ---------------------------------------------------------------------
// Executable functions
// ---------------------------------------------------------------------

/// The kind of piece `cs[a..b]` is: empty or `.` (0), `..` (1), a name (2).
fn piece_kind(cs: &Vec<char>, a: usize, b: usize) -> (k: u8)
    requires
        a <= b <= cs.len(),
    ensures
        k == 0 <==> (b - a == 0 || cs@.subrange(a as int, b as int) == dot()),
        k == 1 <==> cs@.subrange(a as int, b as int) == dot_dot(),
        k <= 2,
{
    let ghost s = cs@.subrange(a as int, b as int);
    assert(s.len() == b - a);
    assert(dot().len() == 1 && dot()[0] == '.');
    assert(dot_dot().len() == 2 && dot_dot()[0] == '.' && dot_dot()[1] == '.');
    if b == a {
        0
    } else if b - a == 1 && cs[a] == '.' {
        assert(s =~= dot());
        0
    } else if b - a == 2 && cs[a] == '.' && cs[a + 1] == '.' {
        assert(s =~= dot_dot());
        1
    } else {
        proof {
            if s == dot() {
                assert(s[0] == cs@[a as int]);
            }
            if s == dot_dot() {
                assert(s[0] == cs@[a as int] && s[1] == cs@[a + 1]);
            }
        }
        2
    }
}

/// The components of the path `p`, as `Path::components` yields them.
pub fn components(p: &str) -> (r: Vec<PathComp>)
    ensures
        comps_view(r@) == path_components(p@),
{
    let cs = chars_of(p);
    let n = cs.len();
    let mut out: Vec<PathComp> = Vec::new();
    let ghost goal = path_components(p@);
    let mut start: usize = 0;
    // the leading root or current directory
    if n > 0 && cs[0] == '/' {
        out.push(PathComp::RootDir);
        start = 1;
        proof {
            assert(cs@.subrange(1, n as int) == p@.drop_first());
            assert(comps_view(out@) =~= seq![SComp::RootDir]);
            assert(comps_view(out@) + seg_comps(split_seg(cs@.subrange(1, n as int))) == goal);
        }
    } else if n > 0 && cs[0] == '.' && (n == 1 || cs[1] == '/') {
        out.push(PathComp::CurDir);
        proof {
            assert forall|j: int| 0 <= j < 1 implies p@[j] != '/' by {}
            assert(dot().len() == 1 && dot()[0] == '.');
            if n == 1 {
                lemma_split_no_sep(p@);
                assert(p@ =~= dot());
                assert(split_seg(p@).drop_first() =~= Seq::<Seq<char>>::empty());
                lemma_split_no_sep(Seq::<char>::empty());
                lemma_seg_comps_single(Seq::<char>::empty());
                assert(cs@.subrange(1, 1) =~= Seq::<char>::empty());
                assert(seg_comps(split_seg(p@).drop_first()) == Seq::<SComp>::empty());
                assert(seg_comps(split_seg(cs@.subrange(1, 1))) == Seq::<SComp>::empty());
                assert(goal == seq![SComp::CurDir] + Seq::<SComp>::empty());
                assert(comps_view(out@) =~= seq![SComp::CurDir]);
                assert(comps_view(out@) + seg_comps(split_seg(cs@.subrange(1, 1))) =~= goal);
            } else {
                lemma_split_at_sep(p@, 1);
                assert(p@.take(1) =~= dot());
                assert(p@.skip(2) == cs@.subrange(2, n as int));
                let segs = split_seg(p@);
                assert(segs[0] == dot());
                assert(segs.drop_first() =~= split_seg(cs@.subrange(2, n as int)));
                assert(comps_view(out@) =~= seq![SComp::CurDir]);
                assert(comps_view(out@) + seg_comps(split_seg(cs@.subrange(2, n as int))) == goal);
            }
        }
        start = if n == 1 {
            1
        } else {
            2
        };
    } else {
        proof {
            let k = index_of(p@, '/');
            lemma_index_of_bound(p@, '/');
            let segs = split_seg(p@);
            assert(dot().len() == 1 && dot()[0] == '.');
            if segs[0] == dot() {
                if k < p@.len() {
                    assert(segs[0] == p@.take(k as int));
                    assert(k == 1);
                    assert(p@[0] == '.');
                    assert(p@[1] == '/');
                } else {
                    assert(segs[0] == p@);
                    assert(p@.len() == 1);
                    assert(p@[0] == '.');
                }
            }
            assert(cs@.subrange(0, n as int) == p@);
            assert(comps_view(out@) =~= Seq::<SComp>::empty());
            assert(comps_view(out@) + seg_comps(split_seg(cs@.subrange(0, n as int))) =~= goal);
        }
    }
    let ghost base = comps_view(out@);
    proof {
        assert(base + seg_comps(split_seg(cs@.subrange(start as int, n as int))) == goal);
    }
    let mut i: usize = start;
    while i < n
        invariant
            n == cs@.len(),
            cs@ == p@,
            start <= i <= n,
            forall|j: int| start <= j < i ==> cs@[j] != '/',
            comps_view(out@) + seg_comps(split_seg(cs@.subrange(start as int, n as int))) == goal,
        decreases n - i,
    {
        if cs[i] == '/' {
            let ghost t = cs@.subrange(start as int, n as int);
            let k = i - start;
            proof {
                assert forall|j: int| 0 <= j < k implies t[j] != '/' by {
                    assert(t[j] == cs@[start + j]);
                }
                assert(t[k as int] == cs@[i as int]);
                lemma_split_at_sep(t, k as int);
                assert(t.take(k as int) == cs@.subrange(start as int, i as int));
                assert(t.skip(k + 1) == cs@.subrange(i + 1, n as int));
            }
            let kind = piece_kind(&cs, start, i);
            let ghost old_out = comps_view(out@);
            if kind == 1 {
                out.push(PathComp::ParentDir);
            } else if kind == 2 {
                let name = string_from_range(&cs, start, i);
                out.push(PathComp::Normal(name));
            }
            proof {
                let segs = split_seg(t);
                assert(segs.drop_first() == split_seg(cs@.subrange(i + 1, n as int)));
                if kind == 0 {
                    assert(comps_view(out@) == old_out);
                } else {
                    assert(comps_view(out@) == old_out + seq![comps_view(out@).last()]);
                }
            }
            start = i + 1;
        }
        i += 1;
    }
    let ghost t = cs@.subrange(start as int, n as int);
    proof {
        assert forall|j: int| 0 <= j < t.len() implies t[j] != '/' by {
            assert(t[j] == cs@[start + j]);
        }
        lemma_split_no_sep(t);
        lemma_seg_comps_single(t);
    }
    let kind = piece_kind(&cs, start, n);
    let ghost old_out = comps_view(out@);
    if kind == 1 {
        out.push(PathComp::ParentDir);
    } else if kind == 2 {
        let name = string_from_range(&cs, start, n);
        out.push(PathComp::Normal(name));
    }
    proof {
        if kind == 0 {
            assert(comps_view(out@) =~= old_out);
        } else {
            assert(comps_view(out@) =~= old_out + seq![comps_view(out@).last()]);
        }
    }
    out
}


proof fn lemma_render_body_snoc(xs: Seq<SComp>)
    requires
        xs.len() >= 2,
    ensures
        render_body(xs) == render_body(xs.drop_last()) + seq!['/'] + comp_text(xs.last()),
    decreases xs.len(),
{
    let rest = xs.drop_first();
    if xs.len() == 2 {
        assert(xs.drop_last().len() == 1);
        assert(rest.len() == 1);
        assert(render_body(rest) == comp_text(rest[0]));
        assert(rest[0] == xs.last());
        assert(render_body(xs.drop_last()) == comp_text(xs[0]));
    } else {
        lemma_render_body_snoc(rest);
        assert(xs.drop_last().drop_first() == rest.drop_last());
        assert(rest.last() == xs.last());
        assert(xs.drop_last()[0] == xs[0]);
        assert(render_body(xs.drop_last()) == comp_text(xs[0]) + seq!['/'] + render_body(
            rest.drop_last(),
        ));
    }
}

proof fn lemma_split_pieces_no_sep(s: Seq<char>)
    ensures
        forall|i: int| 0 <= i < split_seg(s).len() ==> !(#[trigger] split_seg(s)[i]).contains('/'),
    decreases s.len(),
{
    let k = index_of(s, '/');
    lemma_index_of_bound(s, '/');
    if k < s.len() {
        lemma_split_pieces_no_sep(s.skip(k as int + 1));
        let segs = split_seg(s);
        assert forall|i: int| 0 <= i < segs.len() implies !(#[trigger] segs[i]).contains('/') by {
            if i == 0 {
                let t = s.take(k as int);
                if t.contains('/') {
                    let j = choose|j: int| 0 <= j < t.len() && t[j] == '/';
                    assert(s[j] == '/');
                }
            } else {
                assert(segs[i] == split_seg(s.skip(k as int + 1))[i - 1]);
            }
        }
    } else {
        assert forall|i: int| 0 <= i < split_seg(s).len() implies !(#[trigger] split_seg(
            s,
        )[i]).contains('/') by {
            if s.contains('/') {
                let j = choose|j: int| 0 <= j < s.len() && s[j] == '/';
            }
        }
    }
}

proof fn lemma_seg_comps_body(segs: Seq<Seq<char>>)
    requires
        forall|i: int| 0 <= i < segs.len() ==> !(#[trigger] segs[i]).contains('/'),
    ensures
        forall|i: int| 0 <= i < seg_comps(segs).len() ==> body_comp(#[trigger] seg_comps(segs)[i]),
    decreases segs.len(),
{
    if segs.len() > 0 {
        let rest = segs.drop_first();
        assert forall|i: int| 0 <= i < rest.len() implies !(#[trigger] rest[i]).contains('/') by {
            assert(rest[i] == segs[i + 1]);
        }
        lemma_seg_comps_body(rest);
        let r = seg_comps(rest);
        let s0 = segs[0];
        let out = seg_comps(segs);
        assert forall|i: int| 0 <= i < out.len() implies body_comp(#[trigger] out[i]) by {
            if s0.len() == 0 || s0 == dot() {
                assert(out == r);
            } else if s0 == dot_dot() {
                if i > 0 {
                    assert(out[i] == r[i - 1]);
                }
            } else {
                if i > 0 {
                    assert(out[i] == r[i - 1]);
                } else {
                    assert(out[0] == SComp::Normal(s0));
                    assert(good_name(s0));
                }
            }
        }
    }
}

/// The components of any path are well formed.
pub proof fn lemma_path_components_wf(p: Seq<char>)
    ensures
        wf_comps(path_components(p)),
{
    let cs = path_components(p);
    if p.len() > 0 && p[0] == '/' {
        lemma_split_pieces_no_sep(p.drop_first());
        let segs = split_seg(p.drop_first());
        lemma_seg_comps_body(segs);
        assert forall|i: int| 0 <= i < cs.len() implies (body_comp(#[trigger] cs[i]) || (i == 0
            && (cs[i] is RootDir || cs[i] is CurDir))) by {
            if i > 0 {
                assert(cs[i] == seg_comps(segs)[i - 1]);
            }
        }
    } else {
        lemma_split_pieces_no_sep(p);
        let segs = split_seg(p);
        if segs[0] == dot() {
            let rest = segs.drop_first();
            assert forall|i: int| 0 <= i < rest.len() implies !(#[trigger] rest[i]).contains('/') by {
                assert(rest[i] == segs[i + 1]);
            }
            lemma_seg_comps_body(rest);
            assert forall|i: int| 0 <= i < cs.len() implies (body_comp(#[trigger] cs[i]) || (i == 0
                && (cs[i] is RootDir || cs[i] is CurDir))) by {
                if i > 0 {
                    assert(cs[i] == seg_comps(rest)[i - 1]);
                }
            }
        } else {
            lemma_seg_comps_body(segs);
        }
    }
}

/// Text of one component.
fn comp_text_exec(c: &PathComp) -> (r: String)
    ensures
        r@ == comp_text(comp_view(*c)),
{
    match c {
        PathComp::Normal(s) => s.clone(),
        PathComp::ParentDir => {
            let mut r = String::new();
            r.push('.');
            r.push('.');
            assert(r@ =~= dot_dot());
            r
        },
        PathComp::RootDir => {
            let mut r = String::new();
            r.push('/');
            assert(r@ =~= seq!['/']);
            r
        },
        PathComp::CurDir => {
            let mut r = String::new();
            r.push('.');
            assert(r@ =~= dot());
            r
        },
    }
}

/// Body components `cs[from..]` joined by separators.
fn render_body_exec(cs: &Vec<PathComp>, from: usize) -> (r: String)
    requires
        from <= cs.len(),
    ensures
        r@ == render_body(comps_view(cs@).skip(from as int)),
{
    let ghost xs = comps_view(cs@).skip(from as int);
    let mut r = String::new();
    if from == cs.len() {
        assert(xs.len() == 0);
        return r;
    }
    let t0 = comp_text_exec(&cs[from]);
    r.append(t0.as_str());
    assert(xs.take(1) =~= seq![xs[0]]);
    assert(render_body(xs.take(1)) == comp_text(xs[0]));
    let mut i = from + 1;
    while i < cs.len()
        invariant
            from < i <= cs.len(),
            xs == comps_view(cs@).skip(from as int),
            r@ == render_body(xs.take(i - from)),
        decreases cs.len() - i,
    {
        let t = comp_text_exec(&cs[i]);
        r.push('/');
        r.append(t.as_str());
        proof {
            let ys = xs.take(i - from + 1);
            lemma_render_body_snoc(ys);
            assert(ys.drop_last() == xs.take(i - from));
            assert(ys.last() == comp_view(cs@[i as int]));
        }
        i += 1;
    }
    assert(xs.take(i - from) == xs);
    r
}

/// The path written from its components.
pub fn render(cs: &Vec<PathComp>) -> (r: String)
    ensures
        r@ == render_path(comps_view(cs@)),
{
    let ghost v = comps_view(cs@);
    if cs.len() > 0 && matches!(cs[0], PathComp::RootDir) {
        let body = render_body_exec(cs, 1);
        let mut r = String::new();
        r.push('/');
        r.append(body.as_str());
        assert(v.drop_first() == v.skip(1));
        r
    } else if cs.len() > 0 && matches!(cs[0], PathComp::CurDir) {
        let mut r = String::new();
        r.push('.');
        if cs.len() > 1 {
            let body = render_body_exec(cs, 1);
            r.push('/');
            r.append(body.as_str());
            assert(v.drop_first() == v.skip(1));
        }
        r
    } else {
        let body = render_body_exec(cs, 0);
        assert(v.skip(0) == v);
        body
    }
}

/// The parent of `p` (`Path::parent`): the path without its last
/// component, if it has one that is not the root.
pub fn path_parent(p: &str) -> (r: Option<String>)
    ensures
        match r {
            Some(q) => {
                &&& path_components(p@).len() > 0
                &&& !(path_components(p@).last() is RootDir)
                &&& path_components(q@) == path_components(p@).drop_last()
                &&& q@ == render_path(path_components(p@).drop_last())
            },
            None => path_components(p@).len() == 0 || path_components(p@).last() is RootDir,
        },
{
    let mut cs = components(p);
    let n = cs.len();
    if n == 0 || matches!(cs[n - 1], PathComp::RootDir) {
        return None;
    }
    let ghost full = comps_view(cs@);
    cs.pop();
    proof {
        assert(comps_view(cs@) == full.drop_last());
        lemma_path_components_wf(p@);
        assert(wf_comps(full.drop_last()));
        lemma_components_of_render(full.drop_last());
    }
    Some(render(&cs))
}

/// `PathBuf::join`.
pub fn join(a: &str, b: &str) -> (r: String)
    ensures
        r@ == path_join(a@, b@),
{
    let bc = chars_of(b);
    if bc.len() > 0 && bc[0] == '/' {
        return b.to_owned();
    }
    let ac = chars_of(a);
    let mut r = a.to_owned();
    if ac.len() > 0 && ac[ac.len() - 1] != '/' {
        r.push('/');
    }
    r.append(b);
    r
}

fn comp_eq(a: &PathComp, b: &PathComp) -> (r: bool)
    ensures
        r == (comp_view(*a) == comp_view(*b)),
{
    match (a, b) {
        (PathComp::RootDir, PathComp::RootDir) => true,
        (PathComp::CurDir, PathComp::CurDir) => true,
        (PathComp::ParentDir, PathComp::ParentDir) => true,
        (PathComp::Normal(x), PathComp::Normal(y)) => text::str_eq(x.as_str(), y.as_str()),
        _ => false,
    }
}

/// Whether two component lists are the same.
pub fn comps_eq(a: &Vec<PathComp>, b: &Vec<PathComp>) -> (r: bool)
    ensures
        r == (comps_view(a@) == comps_view(b@)),
{
    if a.len() != b.len() {
        proof {
            if comps_view(a@) == comps_view(b@) {
                assert(comps_view(a@).len() == comps_view(b@).len());
            }
        }
        return false;
    }
    let mut i: usize = 0;
    while i < a.len()
        invariant
            a.len() == b.len(),
            i <= a.len(),
            forall|j: int| 0 <= j < i ==> comp_view(a@[j]) == comp_view(b@[j]),
        decreases a.len() - i,
    {
        if !comp_eq(&a[i], &b[i]) {
            proof {
                if comps_view(a@) == comps_view(b@) {
                    assert(comps_view(a@)[i as int] == comps_view(b@)[i as int]);
                }
            }
            return false;
        }
        i += 1;
    }
    assert(comps_view(a@) =~= comps_view(b@));
    true
}

/// Whether two paths are equal as `Path`s are.
pub fn paths_equal(a: &str, b: &str) -> (r: bool)
    ensures
        r == path_eq(a@, b@),
{
    let x = components(a);
    let y = components(b);
    comps_eq(&x, &y)
}

/// `seq_less` of two character vectors.
pub fn chars_less(a: &Vec<char>, b: &Vec<char>) -> (r: bool)
    ensures
        r == seq_less(a@, b@),
{
    let mut i: usize = 0;
    assert(a@.skip(0) =~= a@);
    assert(b@.skip(0) =~= b@);
    while i < a.len() && i < b.len() && a[i] == b[i]
        invariant
            i <= a.len(),
            i <= b.len(),
            forall|j: int| 0 <= j < i ==> a@[j] == b@[j],
            seq_less(a@.skip(i as int), b@.skip(i as int)) == seq_less(a@, b@),
        decreases a.len() - i,
    {
        proof {
            let x = a@.skip(i as int);
            let y = b@.skip(i as int);
            assert(x.drop_first() == a@.skip(i + 1));
            assert(y.drop_first() == b@.skip(i + 1));
        }
        i += 1;
    }
    if i == a.len() {
        i < b.len()
    } else if i == b.len() {
        false
    } else {
        a[i] < b[i]
    }
}

/// Whether `a` sorts before `b` as strings do.
pub fn str_less(a: &str, b: &str) -> (r: bool)
    ensures
        r == seq_less(a@, b@),
{
    let x = chars_of(a);
    let y = chars_of(b);
    chars_less(&x, &y)
}

fn comp_rank_exec(c: &PathComp) -> (r: u8)
    ensures
        r as int == comp_rank(comp_view(*c)),
{
    match c {
        PathComp::RootDir => 1,
        PathComp::CurDir => 2,
        PathComp::ParentDir => 3,
        PathComp::Normal(_) => 4,
    }
}

fn comp_less_exec(a: &PathComp, b: &PathComp) -> (r: bool)
    ensures
        r == comp_less(comp_view(*a), comp_view(*b)),
{
    let ra = comp_rank_exec(a);
    let rb = comp_rank_exec(b);
    if ra != rb {
        return ra < rb;
    }
    match (a, b) {
        (PathComp::Normal(x), PathComp::Normal(y)) => str_less(x.as_str(), y.as_str()),
        _ => false,
    }
}

/// Whether `a` sorts before `b` as `Path`s do.
pub fn path_less_exec(a: &str, b: &str) -> (r: bool)
    ensures
        r == path_less(a@, b@),
{
    let x = components(a);
    let y = components(b);
    let ghost xv = comps_view(x@);
    let ghost yv = comps_view(y@);
    let mut i: usize = 0;
    assert(xv.skip(0) =~= xv);
    assert(yv.skip(0) =~= yv);
    while i < x.len() && i < y.len() && comp_eq(&x[i], &y[i])
        invariant
            i <= x.len(),
            i <= y.len(),
            xv == comps_view(x@),
            yv == comps_view(y@),
            comps_less(xv.skip(i as int), yv.skip(i as int)) == comps_less(xv, yv),
        decreases x.len() - i,
    {
        proof {
            assert(xv.skip(i as int).drop_first() == xv.skip(i + 1));
            assert(yv.skip(i as int).drop_first() == yv.skip(i + 1));
            assert(xv.skip(i as int)[0] == xv[i as int]);
            assert(yv.skip(i as int)[0] == yv[i as int]);
        }
        i += 1;
    }
    if i == x.len() {
        i < y.len()
    } else if i == y.len() {
        false
    } else {
        assert(xv.skip(i as int)[0] == xv[i as int]);
        assert(yv.skip(i as int)[0] == yv[i as int]);
        comp_less_exec(&x[i], &y[i])
    }
}

// ---------------------------------------------------------------------
// Lexical cleaning
// ---------------------------------------------------------------------

/// One step of lexical cleaning: `.` vanishes; `..` removes a preceding
/// normal name, vanishes after the root, and stays otherwise; any other
/// component stays.
pub open spec fn clean_step(out: Seq<SComp>, c: SComp) -> Seq<SComp> {
    match c {
        SComp::CurDir => out,
        SComp::ParentDir => if out.len() > 0 && out.last() is RootDir {
            out
        } else if out.len() > 0 && out.last() is Normal {
            out.drop_last()
        } else {
            out.push(c)
        },
        _ => out.push(c),
    }
}

/// The components left after cleaning, taken left to right.
pub open spec fn clean_comps(cs: Seq<SComp>) -> Seq<SComp>
    decreases cs.len(),
{
    if cs.len() == 0 {
        Seq::empty()
    } else {
        clean_step(clean_comps(cs.drop_last()), cs.last())
    }
}

/// The lexically cleaned form of a path: the components left after
/// cleaning written out, or `.` when none are left.
pub open spec fn path_cleaned(p: Seq<char>) -> Seq<char> {
    let cc = clean_comps(path_components(p));
    if cc.len() == 0 {
        dot()
    } else {
        render_path(cc)
    }
}

/// No root and no `..` among the components.
pub open spec fn plain_relative(cs: Seq<SComp>) -> bool {
    forall|i: int| 0 <= i < cs.len() ==> !(#[trigger] cs[i] is RootDir) && !(cs[i] is ParentDir)
}

pub open spec fn sep_pair(s: Seq<char>, i: int) -> bool {
    s[i] == '/' && s[i + 1] == '/'
}

/// No two separators in a row.
pub open spec fn no_double_sep(s: Seq<char>) -> bool {
    forall|i: int| 0 <= i < s.len() - 1 ==> !#[trigger] sep_pair(s, i)
}

/// A path that does not start at the root.
pub open spec fn unrooted(s: Seq<char>) -> bool {
    s.len() == 0 || s[0] != '/'
}

pub open spec fn all_good_normal(cs: Seq<SComp>) -> bool {
    forall|i: int| 0 <= i < cs.len() ==> (#[trigger] cs[i] is Normal && good_name(cs[i]->Normal_0))
}

proof fn lemma_clean_plain(cs: Seq<SComp>)
    requires
        forall|i: int| 0 <= i < cs.len() ==> (body_comp(#[trigger] cs[i]) || cs[i] is CurDir),
        plain_relative(cs),
    ensures
        all_good_normal(clean_comps(cs)),
    decreases cs.len(),
{
    if cs.len() > 0 {
        let pre = cs.drop_last();
        assert forall|i: int| 0 <= i < pre.len() implies (body_comp(#[trigger] pre[i]) || pre[i] is CurDir) by {
            assert(pre[i] == cs[i]);
        }
        assert forall|i: int| 0 <= i < pre.len() implies !(#[trigger] pre[i] is RootDir) && !(pre[i] is ParentDir) by {
            assert(pre[i] == cs[i]);
        }
        lemma_clean_plain(pre);
        let c = cs.last();
        assert(body_comp(cs[cs.len() - 1]) || cs[cs.len() - 1] is CurDir);
        assert(!(cs[cs.len() - 1] is RootDir) && !(cs[cs.len() - 1] is ParentDir));
        let out = clean_comps(pre);
        if !(c is CurDir) {
            assert forall|i: int| 0 <= i < out.push(c).len() implies (#[trigger] out.push(c)[i] is Normal
                && good_name(out.push(c)[i]->Normal_0)) by {
                if i < out.len() {
                    assert(out.push(c)[i] == out[i]);
                }
            }
        }
    }
}

proof fn lemma_render_body_normals(xs: Seq<SComp>)
    requires
        all_good_normal(xs),
    ensures
        unrooted(render_body(xs)),
        no_double_sep(render_body(xs)),
        xs.len() > 0 ==> render_body(xs).len() > 0,
    decreases xs.len(),
{
    if xs.len() > 0 {
        let t = comp_text(xs[0]);
        assert(xs[0] is Normal && good_name(xs[0]->Normal_0));
        assert(t.len() > 0 && !t.contains('/'));
        if xs.len() == 1 {
            assert(render_body(xs) == t);
            if t[0] == '/' {
                assert(t.contains('/'));
            }
            assert forall|i: int| 0 <= i < t.len() - 1 implies !#[trigger] sep_pair(t, i) by {
                if t[i] == '/' {
                    assert(t.contains('/'));
                }
            }
        } else {
            let rest = xs.drop_first();
            assert forall|i: int| 0 <= i < rest.len() implies (#[trigger] rest[i] is Normal
                && good_name(rest[i]->Normal_0)) by {
                assert(rest[i] == xs[i + 1]);
            }
            lemma_render_body_normals(rest);
            let r = render_body(rest);
            let s = t + seq!['/'] + r;
            assert(render_body(xs) == s);
            if t[0] == '/' {
                assert(t.contains('/'));
            }
            assert(s[0] == t[0]);
            assert forall|i: int| 0 <= i < s.len() - 1 implies !#[trigger] sep_pair(s, i) by {
                if i < t.len() {
                    if s[i] == '/' {
                        assert(s[i] == t[i]);
                        assert(t.contains('/'));
                    }
                } else if i == t.len() {
                    assert(s[i + 1] == r[0]);
                } else {
                    assert(s[i] == r[i - t.len() - 1]);
                    assert(s[i + 1] == r[i - t.len()]);
                    assert(!sep_pair(r, i - t.len() - 1));
                }
            }
        }
    }
}

/// Cleaning a path that has neither a root nor `..` gives a path without a
/// root and without two separators in a row.
pub proof fn lemma_cleaned_plain(p: Seq<char>)
    requires
        plain_relative(path_components(p)),
    ensures
        unrooted(path_cleaned(p)),
        no_double_sep(path_cleaned(p)),
{
    let cs = path_components(p);
    lemma_path_components_wf(p);
    assert forall|i: int| 0 <= i < cs.len() implies (body_comp(#[trigger] cs[i]) || cs[i] is CurDir) by {
        assert(!(cs[i] is RootDir));
    }
    lemma_clean_plain(cs);
    let cc = clean_comps(cs);
    if cc.len() == 0 {
        assert forall|i: int| 0 <= i < dot().len() - 1 implies !#[trigger] sep_pair(dot(), i) by {}
    } else {
        assert(cc[0] is Normal);
        lemma_render_body_normals(cc);
    }
}


/// `path_clean::clean`, through `PathClean::clean` on a `Path`: the
/// contract claims that the result is the lexically cleaned path of
/// `path_cleaned` (the crate's documented rules: repeated separators and
/// `.` vanish, `..` removes a preceding name or is dropped after the root).
#[verifier::external_body]
pub(crate) fn clean_path(p: &str) -> (r: String)
    ensures
        r@ == path_cleaned(p@),
{
    std::path::Path::new(p).clean().to_string_lossy().into_owned()
}


/// `Path::strip_prefix`: the components of `p` after those of `base`, when
/// `base`'s components begin `p`'s.
pub open spec fn strip_prefix_comps(p: Seq<char>, base: Seq<char>) -> Option<Seq<SComp>> {
    let pc = path_components(p);
    let bc = path_components(base);
    if bc.len() <= pc.len() && pc.take(bc.len() as int) == bc {
        Some(pc.skip(bc.len() as int))
    } else {
        None
    }
}

fn comp_clone(c: &PathComp) -> (r: PathComp)
    ensures
        comp_view(r) == comp_view(*c),
{
    match c {
        PathComp::RootDir => PathComp::RootDir,
        PathComp::CurDir => PathComp::CurDir,
        PathComp::ParentDir => PathComp::ParentDir,
        PathComp::Normal(s) => PathComp::Normal(s.clone()),
    }
}

/// `Path::strip_prefix`: the rest of `p` after `base`, written out from its
/// components.
pub fn strip_prefix(p: &str, base: &str) -> (r: Option<String>)
    ensures
        match strip_prefix_comps(p@, base@) {
            Some(rest) => r matches Some(s) && s@ == render_path(rest) && path_components(s@)
                == rest,
            None => r is None,
        },
{
    let x = components(p);
    let y = components(base);
    let ghost xv = comps_view(x@);
    let ghost yv = comps_view(y@);
    assert(xv.len() == x@.len() && yv.len() == y@.len());
    if y.len() > x.len() {
        assert(strip_prefix_comps(p@, base@) is None);
        return None;
    }
    let mut i: usize = 0;
    while i < y.len()
        invariant
            y.len() <= x.len(),
            i <= y.len(),
            xv == comps_view(x@),
            yv == comps_view(y@),
            xv == path_components(p@),
            yv == path_components(base@),
            forall|j: int| 0 <= j < i ==> xv[j] == yv[j],
        decreases y.len() - i,
    {
        assert(xv[i as int] == comp_view(x@[i as int]));
        assert(yv[i as int] == comp_view(y@[i as int]));
        if !comp_eq(&x[i], &y[i]) {
            proof {
                if xv.take(yv.len() as int) == yv {
                    assert(xv.take(yv.len() as int)[i as int] == xv[i as int]);
                }
                assert(strip_prefix_comps(p@, base@) is None);
            }
            return None;
        }
        i += 1;
    }
    assert(xv.take(yv.len() as int) =~= yv);
    let mut rest: Vec<PathComp> = Vec::new();
    let mut k = y.len();
    while k < x.len()
        invariant
            y.len() <= k <= x.len(),
            xv == comps_view(x@),
            comps_view(rest@) == xv.subrange(y.len() as int, k as int),
        decreases x.len() - k,
    {
        let c = comp_clone(&x[k]);
        assert(comp_view(c) == xv[k as int]);
        let ghost before = rest@;
        rest.push(c);
        assert(comps_view(rest@) =~= comps_view(before).push(comp_view(c)));
        assert(xv.subrange(y.len() as int, k + 1) =~= xv.subrange(y.len() as int, k as int).push(xv[k as int]));
        k += 1;
    }
    let ghost rv = comps_view(rest@);
    assert(rv =~= xv.skip(yv.len() as int));
    proof {
        lemma_path_components_wf(p@);
        assert forall|i: int| 0 <= i < rv.len() implies (body_comp(#[trigger] rv[i]) || (i == 0
            && (rv[i] is RootDir || rv[i] is CurDir))) by {
            assert(rv[i] == xv[i + yv.len()]);
        }
        lemma_components_of_render(rv);
        assert(strip_prefix_comps(p@, base@) == Some(rv));
    }
    let out = render(&rest);
    assert(out@ == render_path(rv));
    Some(out)
}


// ---------------------------------------------------------------------
// The path order is a strict order
// ---------------------------------------------------------------------

/// The order of texts is asymmetric and irreflexive.
pub proof fn lemma_seq_less_strict(a: Seq<char>, b: Seq<char>)
    ensures
        seq_less(a, b) ==> !seq_less(b, a) && a != b,
    decreases a.len(),
{
    if a.len() > 0 && b.len() > 0 && a[0] == b[0] {
        lemma_seq_less_strict(a.drop_first(), b.drop_first());
        if a == b {
            assert(a.drop_first() == b.drop_first());
        }
    }
}

/// The order of texts is transitive.
pub proof fn lemma_seq_less_trans(a: Seq<char>, b: Seq<char>, c: Seq<char>)
    requires
        seq_less(a, b),
        seq_less(b, c),
    ensures
        seq_less(a, c),
    decreases a.len(),
{
    if a.len() > 0 && b.len() > 0 && c.len() > 0 && a[0] == b[0] && b[0] == c[0] {
        lemma_seq_less_trans(a.drop_first(), b.drop_first(), c.drop_first());
    }
}

/// The order of components is asymmetric and irreflexive.
proof fn lemma_comp_less_strict(a: SComp, b: SComp)
    ensures
        comp_less(a, b) ==> !comp_less(b, a) && a != b,
{
    match (a, b) {
        (SComp::Normal(x), SComp::Normal(y)) => {
            lemma_seq_less_strict(x, y);
        },
        _ => {},
    }
}

/// The order of components is transitive.
proof fn lemma_comp_less_trans(a: SComp, b: SComp, c: SComp)
    requires
        comp_less(a, b),
        comp_less(b, c),
    ensures
        comp_less(a, c),
{
    match (a, b, c) {
        (SComp::Normal(x), SComp::Normal(y), SComp::Normal(z)) => {
            lemma_seq_less_trans(x, y, z);
        },
        _ => {},
    }
}

/// The order of component sequences is asymmetric and irreflexive.
pub proof fn lemma_comps_less_strict(a: Seq<SComp>, b: Seq<SComp>)
    ensures
        comps_less(a, b) ==> !comps_less(b, a) && a != b,
    decreases a.len(),
{
    if a.len() > 0 && b.len() > 0 {
        if a[0] == b[0] {
            lemma_comps_less_strict(a.drop_first(), b.drop_first());
            if a == b {
                assert(a.drop_first() == b.drop_first());
            }
        } else {
            lemma_comp_less_strict(a[0], b[0]);
        }
    }
}

/// The order of component sequences is transitive.
pub proof fn lemma_comps_less_trans(a: Seq<SComp>, b: Seq<SComp>, c: Seq<SComp>)
    requires
        comps_less(a, b),
        comps_less(b, c),
    ensures
        comps_less(a, c),
    decreases a.len(),
{
    if a.len() > 0 && b.len() > 0 && c.len() > 0 {
        if a[0] == b[0] && b[0] == c[0] {
            lemma_comps_less_trans(a.drop_first(), b.drop_first(), c.drop_first());
        } else if a[0] == b[0] {
        } else if b[0] == c[0] {
        } else {
            lemma_comp_less_trans(a[0], b[0], c[0]);
            lemma_comp_less_strict(a[0], c[0]);
            if a[0] == c[0] {
                lemma_comp_less_strict(a[0], b[0]);
            }
        }
    }
}


/// Two different texts are ordered one way or the other.
pub proof fn lemma_seq_less_total(a: Seq<char>, b: Seq<char>)
    ensures
        a == b || seq_less(a, b) || seq_less(b, a),
    decreases a.len(),
{
    if a.len() > 0 && b.len() > 0 && a[0] == b[0] {
        lemma_seq_less_total(a.drop_first(), b.drop_first());
        if a.drop_first() == b.drop_first() {
            assert(a =~= seq![a[0]] + a.drop_first());
            assert(b =~= seq![b[0]] + b.drop_first());
        }
    } else if a.len() > 0 && b.len() > 0 {
        assert((a[0] as int) != (b[0] as int));
    } else if a.len() == 0 && b.len() == 0 {
        assert(a =~= b);
    }
}

/// Two different components are ordered one way or the other.
proof fn lemma_comp_less_total(a: SComp, b: SComp)
    ensures
        a == b || comp_less(a, b) || comp_less(b, a),
{
    match (a, b) {
        (SComp::Normal(x), SComp::Normal(y)) => {
            lemma_seq_less_total(x, y);
        },
        _ => {},
    }
}

/// Two different component sequences are ordered one way or the other.
pub proof fn lemma_comps_less_total(a: Seq<SComp>, b: Seq<SComp>)
    ensures
        a == b || comps_less(a, b) || comps_less(b, a),
    decreases a.len(),
{
    if a.len() > 0 && b.len() > 0 {
        if a[0] == b[0] {
            lemma_comps_less_total(a.drop_first(), b.drop_first());
            if a.drop_first() == b.drop_first() {
                assert(a =~= seq![a[0]] + a.drop_first());
                assert(b =~= seq![b[0]] + b.drop_first());
            }
        } else {
            lemma_comp_less_total(a[0], b[0]);
        }
    } else if a.len() == 0 && b.len() == 0 {
        assert(a =~= b);
    }
}

} // verus!
