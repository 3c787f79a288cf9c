//! Text primitives shared by the parsers: line splitting, whitespace
//! trimming, prefix/suffix tests and substring search, each with a
//! specification over `Seq<char>`.
use vstd::prelude::*;

verus! {

/// `String::push` appends one character.
pub assume_specification[ String::push ](s: &mut String, ch: char)
    ensures
        final(s)@ == old(s)@.push(ch),
;

// ---------------------------------------------------------------------
// Specifications
// ---------------------------------------------------------------------

/// Index of the first occurrence of `c` in `s`, or `s.len()` when absent.
pub open spec fn index_of(s: Seq<char>, c: char) -> nat
    decreases s.len(),
{
    if s.len() == 0 {
        0
    } else if s[0] == c {
        0
    } else {
        1 + index_of(s.drop_first(), c)
    }
}

/// A line loses one trailing carriage return.
pub open spec fn strip_cr(l: Seq<char>) -> Seq<char> {
    if l.len() > 0 && l.last() == '\r' {
        l.drop_last()
    } else {
        l
    }
}

/// The lines of a text, as `str::lines` yields them: split at `'\n'`,
/// a `"\r"` before a `'\n'` is dropped, and a final empty line after the
/// last `'\n'` is not a line.
pub open spec fn lines_of(s: Seq<char>) -> Seq<Seq<char>>
    decreases s.len(),
{
    if s.len() == 0 {
        Seq::empty()
    } else {
        let k = index_of(s, '\n');
        proof {
            lemma_index_of_bound(s, '\n');
        }
        if k < s.len() {
            seq![strip_cr(s.take(k as int))] + lines_of(s.skip(k as int + 1))
        } else {
            seq![s]
        }
    }
}

/// Unicode `White_Space`, the set `char::is_whitespace` and `str::trim` use.
pub open spec fn is_ws(c: char) -> bool {
    ||| ('\u{9}' <= c && c <= '\u{d}')
    ||| c == ' '
    ||| c == '\u{85}'
    ||| c == '\u{a0}'
    ||| c == '\u{1680}'
    ||| ('\u{2000}' <= c && c <= '\u{200a}')
    ||| c == '\u{2028}'
    ||| c == '\u{2029}'
    ||| c == '\u{202f}'
    ||| c == '\u{205f}'
    ||| c == '\u{3000}'
}

/// Leading whitespace removed.
pub open spec fn trim_start(s: Seq<char>) -> Seq<char>
    decreases s.len(),
{
    if s.len() > 0 && is_ws(s[0]) {
        trim_start(s.drop_first())
    } else {
        s
    }
}

/// Trailing whitespace removed.
pub open spec fn trim_end(s: Seq<char>) -> Seq<char>
    decreases s.len(),
{
    if s.len() > 0 && is_ws(s.last()) {
        trim_end(s.drop_last())
    } else {
        s
    }
}

/// Leading and trailing whitespace removed, as `str::trim` does.
pub open spec fn trim(s: Seq<char>) -> Seq<char> {
    trim_end(trim_start(s))
}

pub open spec fn starts_with(s: Seq<char>, p: Seq<char>) -> bool {
    p.len() <= s.len() && s.take(p.len() as int) == p
}

pub open spec fn ends_with(s: Seq<char>, p: Seq<char>) -> bool {
    p.len() <= s.len() && s.skip(s.len() - p.len()) == p
}

/// `p` occurs in `s` at position `i`.
pub open spec fn occurs_at(s: Seq<char>, p: Seq<char>, i: int) -> bool {
    0 <= i && i + p.len() <= s.len() && s.subrange(i, i + p.len()) == p
}

pub open spec fn contains_seq(s: Seq<char>, p: Seq<char>) -> bool {
    exists|i: int| occurs_at(s, p, i)
}

/// Position of the first occurrence of `p` at or after `from`, searching
/// left to right; `None` when there is none.
pub open spec fn find_from(s: Seq<char>, p: Seq<char>, from: int) -> Option<int>
    decreases s.len() + 1 - from,
{
    if from < 0 || from + p.len() > s.len() {
        None
    } else if occurs_at(s, p, from) {
        Some(from)
    } else {
        find_from(s, p, from + 1)
    }
}

pub open spec fn find(s: Seq<char>, p: Seq<char>) -> Option<int> {
    find_from(s, p, 0)
}

/// Number of non-overlapping occurrences of a non-empty `p` at or after
/// `from`, scanning left to right as `str::matches(..).count()` does.
pub open spec fn count_from(s: Seq<char>, p: Seq<char>, from: int) -> nat
    decreases s.len() + 1 - from,
{
    if p.len() == 0 {
        0
    } else {
        match find_from(s, p, from) {
            Some(i) => if from <= i && i + p.len() <= s.len() {
                1 + count_from(s, p, i + p.len())
            } else {
                0
            },
            None => 0,
        }
    }
}

pub open spec fn count_matches(s: Seq<char>, p: Seq<char>) -> nat {
    count_from(s, p, 0)
}

// ---------------------------------------------------------------------
// Lemmas
// ---------------------------------------------------------------------

/// The first `c` lies within the text, is `c`, and no earlier character is.
pub proof fn lemma_index_of_bound(s: Seq<char>, c: char)
    ensures
        index_of(s, c) <= s.len(),
        index_of(s, c) < s.len() ==> s[index_of(s, c) as int] == c,
        forall|j: int| 0 <= j < index_of(s, c) ==> s[j] != c,
    decreases s.len(),
{
    if s.len() > 0 && s[0] != c {
        lemma_index_of_bound(s.drop_first(), c);
        assert forall|j: int| 0 <= j < index_of(s, c) implies s[j] != c by {
            if j > 0 {
                assert(s[j] == s.drop_first()[j - 1]);
            }
        }
    }
}

/// The first `c` is at `k` when `s[k] == c` and no earlier character is `c`.
pub proof fn lemma_index_of_at(s: Seq<char>, c: char, k: int)
    requires
        0 <= k <= s.len(),
        k < s.len() ==> s[k] == c,
        forall|j: int| 0 <= j < k ==> s[j] != c,
    ensures
        index_of(s, c) == k,
    decreases k,
{
    if k > 0 {
        assert forall|j: int| 0 <= j < k - 1 implies s.drop_first()[j] != c by {
            assert(s.drop_first()[j] == s[j + 1]);
        }
        if k - 1 < s.drop_first().len() {
            assert(s.drop_first()[k - 1] == s[k]);
        }
        lemma_index_of_at(s.drop_first(), c, k - 1);
    }
}

/// Lines split at a line break: the lines of a text that is empty or ends
/// with `'\n'`, followed by the lines of what comes after it.
pub proof fn lemma_lines_of_append(a: Seq<char>, t: Seq<char>)
    requires
        a.len() == 0 || a.last() == '\n',
    ensures
        lines_of(a + t) == lines_of(a) + lines_of(t),
    decreases a.len(),
{
    if a.len() == 0 {
        assert(a + t =~= t);
        assert(lines_of(a) + lines_of(t) =~= lines_of(t));
    } else {
        let s = a + t;
        lemma_index_of_bound(a, '\n');
        let k = index_of(a, '\n');
        if k == a.len() {
            assert(a[a.len() - 1] == '\n');
            assert(false);
        }
        assert forall|j: int| 0 <= j < k implies s[j] != '\n' by {
            assert(s[j] == a[j]);
        }
        assert(s[k as int] == a[k as int]);
        lemma_index_of_at(s, '\n', k as int);
        let rest = a.skip(k as int + 1);
        assert(s.take(k as int) =~= a.take(k as int));
        assert(s.skip(k as int + 1) =~= rest + t);
        if rest.len() > 0 {
            assert(rest.last() == a.last());
        }
        lemma_lines_of_append(rest, t);
        assert(lines_of(s) == seq![strip_cr(a.take(k as int))] + lines_of(rest + t));
        assert(lines_of(a) == seq![strip_cr(a.take(k as int))] + lines_of(rest));
        assert(seq![strip_cr(a.take(k as int))] + (lines_of(rest) + lines_of(t)) =~= (seq![
            strip_cr(a.take(k as int)),
        ] + lines_of(rest)) + lines_of(t));
    }
}

/// A line ended by `'\n'` at the start of a text is its first line (a
/// line without a trailing carriage return keeps all its characters).
pub proof fn lemma_lines_of_first(l: Seq<char>, b: Seq<char>)
    requires
        forall|j: int| 0 <= j < l.len() ==> l[j] != '\n',
        l.len() == 0 || l.last() != '\r',
    ensures
        lines_of(l + seq!['\n'] + b) == seq![l] + lines_of(b),
{
    let s = l + seq!['\n'] + b;
    assert forall|j: int| 0 <= j < l.len() implies s[j] != '\n' by {
        assert(s[j] == l[j]);
    }
    assert(s[l.len() as int] == '\n');
    lemma_index_of_at(s, '\n', l.len() as int);
    assert(s.take(l.len() as int) =~= l);
    assert(s.skip(l.len() as int + 1) =~= b);
    assert(strip_cr(l) == l);
}

/// With no occurrence from `from` on, the search finds none.
proof fn lemma_find_from_none(s: Seq<char>, p: Seq<char>, from: int)
    requires
        0 <= from,
        forall|i: int| from <= i ==> !occurs_at(s, p, i),
    ensures
        find_from(s, p, from) == None::<int>,
    decreases s.len() + 1 - from,
{
    if from + p.len() <= s.len() {
        lemma_find_from_none(s, p, from + 1);
    }
}

/// The first occurrence from `from` on is the one the search finds.
pub proof fn lemma_find_from_some(s: Seq<char>, p: Seq<char>, from: int, k: int)
    requires
        0 <= from <= k,
        occurs_at(s, p, k),
        forall|i: int| from <= i < k ==> !occurs_at(s, p, i),
    ensures
        find_from(s, p, from) == Some(k),
    decreases k - from,
{
    if from < k {
        lemma_find_from_some(s, p, from + 1, k);
    }
}

/// The first occurrence found really occurs and nothing earlier does.
pub proof fn lemma_find_from_facts(s: Seq<char>, p: Seq<char>, from: int)
    requires
        0 <= from,
    ensures
        find_from(s, p, from) matches Some(k) ==> from <= k && occurs_at(s, p, k) && (forall|
            i: int,
        | from <= i < k ==> !occurs_at(s, p, i)),
        find_from(s, p, from) is None ==> forall|i: int| from <= i ==> !occurs_at(s, p, i),
    decreases s.len() + 1 - from,
{
    if from + p.len() > s.len() {
        assert forall|i: int| from <= i implies !occurs_at(s, p, i) by {}
    } else if !occurs_at(s, p, from) {
        lemma_find_from_facts(s, p, from + 1);
    }
}

/// A text contains a pattern exactly when the search finds it.
proof fn lemma_contains_find(s: Seq<char>, p: Seq<char>)
    ensures
        contains_seq(s, p) <==> find(s, p) is Some,
{
    lemma_find_from_facts(s, p, 0);
    if contains_seq(s, p) {
        let i = choose|i: int| occurs_at(s, p, i);
        assert(0 <= i);
    }
}

// ---------------------------------------------------------------------
// Executable functions
// ---------------------------------------------------------------------

/// The characters of a string slice, in order.
pub fn chars_of(s: &str) -> (v: Vec<char>)
    ensures
        v@ == s@,
{
    broadcast use vstd::string::group_string_axioms;

    let mut v: Vec<char> = Vec::new();
    for c in it: s.chars()
        invariant
            v@ == it.seq().take(it.index() as int),
    {
        v.push(c);
    }
    v
}

/// A `String` holding `cs[a..b]`.
pub fn string_from_range(cs: &Vec<char>, a: usize, b: usize) -> (r: String)
    requires
        a <= b <= cs.len(),
    ensures
        r@ == cs@.subrange(a as int, b as int),
{
    let mut r = String::new();
    let mut i = a;
    while i < b
        invariant
            a <= i <= b <= cs.len(),
            r@ == cs@.subrange(a as int, i as int),
        decreases b - i,
    {
        r.push(cs[i]);
        i += 1;
        assert(r@ == cs@.subrange(a as int, i as int));
    }
    r
}

/// A `String` holding all of `cs`.
pub fn string_from_chars(cs: &Vec<char>) -> (r: String)
    ensures
        r@ == cs@,
{
    let r = string_from_range(cs, 0, cs.len());
    assert(cs@.subrange(0, cs@.len() as int) == cs@);
    r
}

/// `s` followed by `t`, as a new `String`.
pub fn concat(s: &str, t: &str) -> (r: String)
    ensures
        r@ == s@ + t@,
{
    let mut r = s.to_owned();
    r.append(t);
    r
}

/// The lines of `s`, as `str::lines` splits them.
pub fn split_lines(s: &str) -> (r: Vec<String>)
    ensures
        r.deep_view() == lines_of(s@),
{
    let cs = chars_of(s);
    let n = cs.len();
    let mut out: Vec<String> = Vec::new();
    let mut start: usize = 0;
    let mut i: usize = 0;
    assert(cs@.skip(0) == cs@);
    assert(out.deep_view() + lines_of(cs@) == lines_of(cs@));
    while i < n
        invariant
            n == cs@.len(),
            cs@ == s@,
            0 <= start <= i <= n,
            forall|j: int| start <= j < i ==> cs@[j] != '\n',
            out.deep_view() + lines_of(cs@.skip(start as int)) == lines_of(cs@),
        decreases n - i,
    {
        if cs[i] == '\n' {
            let ghost t = cs@.skip(start as int);
            let k = i - start;
            proof {
                assert forall|j: int| 0 <= j < k implies t[j] != '\n' by {
                    assert(t[j] == cs@[start + j]);
                }
                assert(t[k as int] == cs@[i as int]);
                lemma_index_of_at(t, '\n', k as int);
                assert(t.skip(k + 1) == cs@.skip(i + 1));
            }
            let mut end = i;
            if i > start && cs[i - 1] == '\r' {
                end = i - 1;
            }
            let line = string_from_range(&cs, start, end);
            proof {
                assert(t.take(k as int) == cs@.subrange(start as int, i as int));
                assert(line@ == strip_cr(t.take(k as int)));
                assert(out.deep_view().push(line@) + lines_of(cs@.skip(i + 1)) == out.deep_view()
                    + lines_of(t));
            }
            out.push(line);
            start = i + 1;
        }
        i += 1;
    }
    let ghost t = cs@.skip(start as int);
    if start < n {
        let line = string_from_range(&cs, start, n);
        proof {
            assert forall|j: int| 0 <= j < t.len() implies t[j] != '\n' by {
                assert(t[j] == cs@[start + j]);
            }
            lemma_index_of_at(t, '\n', t.len() as int);
            assert(line@ == t);
            assert(out.deep_view().push(line@) == out.deep_view() + lines_of(t));
        }
        out.push(line);
    } else {
        assert(t.len() == 0);
        assert(out.deep_view() + lines_of(t) == out.deep_view());
    }
    out
}


/// Whether `c` is Unicode whitespace.
pub fn is_ws_char(c: char) -> (b: bool)
    ensures
        b == is_ws(c),
{
    ('\u{9}' <= c && c <= '\u{d}') || c == ' ' || c == '\u{85}' || c == '\u{a0}' || c
        == '\u{1680}' || ('\u{2000}' <= c && c <= '\u{200a}') || c == '\u{2028}' || c
        == '\u{2029}' || c == '\u{202f}' || c == '\u{205f}' || c == '\u{3000}'
}

proof fn lemma_trim_start_at(s: Seq<char>, a: int)
    requires
        0 <= a <= s.len(),
        forall|j: int| 0 <= j < a ==> is_ws(s[j]),
        a < s.len() ==> !is_ws(s[a]),
    ensures
        trim_start(s) == s.skip(a),
    decreases a,
{
    if a == 0 {
        assert(s.skip(0) == s);
    } else {
        assert forall|j: int| 0 <= j < a - 1 implies is_ws(s.drop_first()[j]) by {
            assert(s.drop_first()[j] == s[j + 1]);
        }
        if a - 1 < s.drop_first().len() {
            assert(s.drop_first()[a - 1] == s[a]);
        }
        lemma_trim_start_at(s.drop_first(), a - 1);
        assert(s.drop_first().skip(a - 1) == s.skip(a));
    }
}

proof fn lemma_trim_end_at(s: Seq<char>, b: int)
    requires
        0 <= b <= s.len(),
        forall|j: int| b <= j < s.len() ==> is_ws(s[j]),
        b > 0 ==> !is_ws(s[b - 1]),
    ensures
        trim_end(s) == s.take(b),
    decreases s.len() - b,
{
    if b == s.len() {
        assert(s.take(b) == s);
    } else {
        assert forall|j: int| b <= j < s.drop_last().len() implies is_ws(s.drop_last()[j]) by {}
        lemma_trim_end_at(s.drop_last(), b);
        assert(s.drop_last().take(b) == s.take(b));
    }
}

/// Bounds `[a, b)` of `trim(cs[lo..hi])` inside `cs`.
pub fn trim_bounds(cs: &Vec<char>, lo: usize, hi: usize) -> (r: (usize, usize))
    requires
        lo <= hi <= cs.len(),
    ensures
        lo <= r.0 <= r.1 <= hi,
        cs@.subrange(r.0 as int, r.1 as int) == trim(cs@.subrange(lo as int, hi as int)),
{
    let ghost t = cs@.subrange(lo as int, hi as int);
    let mut a = lo;
    while a < hi && is_ws_char(cs[a])
        invariant
            lo <= a <= hi <= cs.len(),
            forall|j: int| lo <= j < a ==> is_ws(cs@[j]),
        decreases hi - a,
    {
        a += 1;
    }
    let mut b = hi;
    while b > a && is_ws_char(cs[b - 1])
        invariant
            lo <= a <= b <= hi <= cs.len(),
            forall|j: int| b <= j < hi ==> is_ws(cs@[j]),
        decreases b,
    {
        b -= 1;
    }
    proof {
        lemma_trim_start_at(t, a - lo);
        let u = t.skip(a - lo);
        assert(u == cs@.subrange(a as int, hi as int));
        lemma_trim_end_at(u, b - a);
        assert(u.take(b - a) == cs@.subrange(a as int, b as int));
    }
    (a, b)
}

/// `str::trim`: leading and trailing whitespace removed.
pub fn trim_str(s: &str) -> (r: String)
    ensures
        r@ == trim(s@),
{
    let cs = chars_of(s);
    let (a, b) = trim_bounds(&cs, 0, cs.len());
    assert(cs@.subrange(0, cs@.len() as int) == cs@);
    string_from_range(&cs, a, b)
}

/// Whether `p` occurs in `s` at position `i`.
pub fn occurs_at_exec(s: &Vec<char>, p: &Vec<char>, i: usize) -> (b: bool)
    ensures
        b == occurs_at(s@, p@, i as int),
{
    if i > s.len() || p.len() > s.len() - i {
        return false;
    }
    let mut j: usize = 0;
    while j < p.len()
        invariant
            0 <= j <= p.len(),
            i + p.len() <= s.len(),
            forall|k: int| 0 <= k < j ==> s@[i + k] == p@[k],
        decreases p.len() - j,
    {
        if s[i + j] != p[j] {
            assert(s@.subrange(i as int, i + p.len())[j as int] != p@[j as int]);
            return false;
        }
        j += 1;
    }
    assert(s@.subrange(i as int, i + p.len()) =~= p@);
    true
}

/// First occurrence of `p` in `s` at or after `from`.
pub fn find_from_exec(s: &Vec<char>, p: &Vec<char>, from: usize) -> (r: Option<usize>)
    ensures
        r matches Some(k) ==> find_from(s@, p@, from as int) == Some(k as int),
        r is None ==> find_from(s@, p@, from as int) is None,
{
    let mut k = from;
    while k <= s.len() && p.len() <= s.len() - k
        invariant
            from <= k,
            forall|i: int| from <= i < k ==> !occurs_at(s@, p@, i),
        decreases s.len() + 1 - k,
    {
        if occurs_at_exec(s, p, k) {
            proof {
                lemma_find_from_some(s@, p@, from as int, k as int);
            }
            return Some(k);
        }
        proof {
            if k == s.len() {
                assert(s@.subrange(k as int, k as int) =~= p@);
            }
        }
        k += 1;
    }
    proof {
        assert forall|i: int| from <= i implies !occurs_at(s@, p@, i) by {}
        lemma_find_from_none(s@, p@, from as int);
    }
    None
}

/// Number of non-overlapping occurrences of a non-empty `p` in `s`.
pub fn count_matches_exec(s: &Vec<char>, p: &Vec<char>) -> (r: usize)
    requires
        p.len() > 0,
    ensures
        r == count_matches(s@, p@),
{
    let mut count: usize = 0;
    let mut pos: usize = 0;
    loop
        invariant
            p.len() > 0,
            count <= pos,
            count + count_from(s@, p@, pos as int) == count_matches(s@, p@),
        decreases s.len() + 1 - pos,
    {
        match find_from_exec(s, p, pos) {
            Some(i) => {
                proof {
                    lemma_find_from_facts(s@, p@, pos as int);
                }
                count += 1;
                pos = i + p.len();
            },
            None => {
                return count;
            },
        }
    }
}

/// Whether `s` starts with `p`.
pub fn starts_with_exec(s: &Vec<char>, p: &Vec<char>) -> (b: bool)
    ensures
        b == starts_with(s@, p@),
{
    let r = occurs_at_exec(s, p, 0);
    proof {
        if p@.len() <= s@.len() {
            assert(s@.subrange(0, p@.len() as int) == s@.take(p@.len() as int));
        }
    }
    r
}

/// Whether `s` ends with `p`.
pub fn ends_with_exec(s: &Vec<char>, p: &Vec<char>) -> (b: bool)
    ensures
        b == ends_with(s@, p@),
{
    if p.len() > s.len() {
        return false;
    }
    let r = occurs_at_exec(s, p, s.len() - p.len());
    proof {
        assert(s@.subrange(s@.len() - p@.len(), s@.len() as int) == s@.skip(s@.len() - p@.len()));
    }
    r
}

/// Whether two string slices hold the same characters.
pub fn str_eq(a: &str, b: &str) -> (r: bool)
    ensures
        r == (a@ == b@),
{
    let x = chars_of(a);
    let y = chars_of(b);
    if x.len() != y.len() {
        return false;
    }
    let r = occurs_at_exec(&x, &y, 0);
    proof {
        if r {
            assert(x@.subrange(0, x@.len() as int) == x@);
        } else {
            assert(x@.subrange(0, x@.len() as int) == x@);
        }
    }
    r
}

/// Whether `p` occurs in `s`.
pub fn contains_str(s: &str, p: &str) -> (r: bool)
    ensures
        r == contains_seq(s@, p@),
{
    let x = chars_of(s);
    let y = chars_of(p);
    let f = find_from_exec(&x, &y, 0);
    proof {
        lemma_contains_find(s@, p@);
    }
    f.is_some()
}
} // verus!
