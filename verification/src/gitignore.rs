//! `.gitignore` rules, matched by the `ignore` crate.
//!
//! The matcher is built from the root the patterns are relative to and the
//! pattern lines the builder accepted; what it answers for a path is named
//! by `gitignore_verdict` over those plain values.
use vstd::prelude::*;
use ignore::gitignore::{Gitignore, GitignoreBuilder};
use crate::error::AppError;
use crate::paths::{no_double_sep, unrooted};
use crate::text::{chars_of, concat, lines_of, split_lines, string_from_range};

verus! {

#[verifier::external_type_specification]
#[verifier::external_body]
pub struct ExGitignoreBuilder(GitignoreBuilder);

#[verifier::external_type_specification]
#[verifier::external_body]
pub struct ExGitignore(Gitignore);

#[verifier::external_type_specification]
#[verifier::external_body]
pub struct ExIgnoreError(ignore::Error);

/// What a matcher says of a path.
#[derive(Debug, Clone, Copy, PartialEq, Eq, Structural)]
pub enum MatchKind {
    /// The last rule that applies ignores the path.
    Ignore,
    /// The last rule that applies is a `!` exception.
    Whitelist,
    /// No rule applies.
    NoMatch,
}

/// The root a builder was made with.
pub uninterp spec fn builder_root(b: GitignoreBuilder) -> Seq<char>;

/// The pattern lines a builder has accepted, in the order they came.
pub uninterp spec fn builder_lines(b: GitignoreBuilder) -> Seq<Seq<char>>;

/// The root of the builder a matcher was built from.
pub uninterp spec fn matcher_root(g: Gitignore) -> Seq<char>;

/// The pattern lines of the builder a matcher was built from.
pub uninterp spec fn matcher_lines(g: Gitignore) -> Seq<Seq<char>>;

/// Whether the builder accepts a pattern line (`GitignoreBuilder::add_line`).
pub uninterp spec fn gitignore_line_ok(line: Seq<char>) -> bool;

/// Whether a builder holding these lines builds (`GitignoreBuilder::build`).
pub uninterp spec fn gitignore_builds(lines: Seq<Seq<char>>) -> bool;

/// What `Gitignore::matched_path_or_any_parents` answers for `path` on the
/// matcher of `root` and `lines`.
pub uninterp spec fn gitignore_verdict(
    root: Seq<char>,
    lines: Seq<Seq<char>>,
    path: Seq<char>,
    is_dir: bool,
) -> MatchKind;

/// `GitignoreBuilder::new`: a builder for patterns relative to `root`,
/// holding no pattern yet.
#[verifier::external_body]
fn new_builder(root: &str) -> (b: GitignoreBuilder)
    ensures
        builder_root(b) == root@,
        builder_lines(b) == Seq::<Seq<char>>::empty(),
{
    GitignoreBuilder::new(root)
}

/// `GitignoreBuilder::add_line`: whether the line was accepted is
/// `gitignore_line_ok`; an accepted line is added after the others, a
/// refused one leaves the builder as it was.
#[verifier::external_body]
fn builder_add_line(b: &mut GitignoreBuilder, line: &str) -> (ok: bool)
    ensures
        ok == gitignore_line_ok(line@),
        builder_root(*final(b)) == builder_root(*old(b)),
        ok ==> builder_lines(*final(b)) == builder_lines(*old(b)).push(line@),
        !ok ==> builder_lines(*final(b)) == builder_lines(*old(b)),
{
    match b.add_line(None, line) {
        Ok(_) => true,
        Err(_) => false,
    }
}

/// `GitignoreBuilder::build`: it succeeds as `gitignore_builds` says of the
/// builder's lines (always when there are none), and the matcher keeps the
/// builder's root and lines.
#[verifier::external_body]
fn builder_build(b: &GitignoreBuilder) -> (r: Result<Gitignore, ignore::Error>)
    ensures
        r is Ok <==> gitignore_builds(builder_lines(*b)),
        builder_lines(*b).len() == 0 ==> r is Ok,
        r matches Ok(g) ==> matcher_root(g) == builder_root(*b) && matcher_lines(g)
            == builder_lines(*b),
{
    b.build()
}

/// `Gitignore::matched_path_or_any_parents`; the crate panics on a path
/// that is rooted once the matcher's root is stripped from it, which a path
/// with no leading separator and no two separators in a row never is.  A
/// matcher without lines matches nothing.
#[verifier::external_body]
fn matcher_verdict(g: &Gitignore, path: &str, is_dir: bool) -> (r: MatchKind)
    requires
        unrooted(path@),
        no_double_sep(path@),
    ensures
        r == gitignore_verdict(matcher_root(*g), matcher_lines(*g), path@, is_dir),
        matcher_lines(*g).len() == 0 ==> r == MatchKind::NoMatch,
{
    match g.matched_path_or_any_parents(path, is_dir) {
        ignore::Match::None => MatchKind::NoMatch,
        ignore::Match::Ignore(_) => MatchKind::Ignore,
        ignore::Match::Whitelist(_) => MatchKind::Whitelist,
    }
}

/// The text of an `ignore::Error`, through its `Display`.
#[verifier::external_body]
fn ignore_error_text(e: &ignore::Error) -> String {
    format!("{e}")
}

/// A line without its leading byte-order marks.
pub open spec fn strip_bom(l: Seq<char>) -> Seq<char>
    decreases l.len(),
{
    if l.len() > 0 && l[0] == '\u{feff}' {
        strip_bom(l.drop_first())
    } else {
        l
    }
}

/// The lines of a `.gitignore` text, the first without its byte-order
/// marks, as the crate reads a file.
pub open spec fn gitignore_file_lines(text: Seq<char>) -> Seq<Seq<char>> {
    let ls = lines_of(text);
    if ls.len() == 0 {
        ls
    } else {
        ls.update(0, strip_bom(ls[0]))
    }
}

/// The lines a builder keeps of `ls`, fed to it in order.
pub open spec fn accepted_lines(ls: Seq<Seq<char>>) -> Seq<Seq<char>>
    decreases ls.len(),
{
    if ls.len() == 0 {
        Seq::empty()
    } else {
        let pre = accepted_lines(ls.drop_last());
        if gitignore_line_ok(ls.last()) {
            pre.push(ls.last())
        } else {
            pre
        }
    }
}

/// The pattern lines that a `.gitignore` with this content (or none)
/// gives a matcher.
pub open spec fn rules_lines(text: Option<Seq<char>>) -> Seq<Seq<char>> {
    match text {
        Some(t) => accepted_lines(gitignore_file_lines(t)),
        None => Seq::empty(),
    }
}

/// What rules with these pattern lines say of a path: with no line at all
/// nothing matches.
pub open spec fn rules_verdict(root: Seq<char>, lines: Seq<Seq<char>>, path: Seq<char>, is_dir: bool) -> MatchKind {
    if lines.len() == 0 {
        MatchKind::NoMatch
    } else {
        gitignore_verdict(root, lines, path, is_dir)
    }
}

/// Whether a builder holding these pattern lines builds: always when it
/// holds none.
pub open spec fn rules_build(lines: Seq<Seq<char>>) -> bool {
    lines.len() == 0 || gitignore_builds(lines)
}

pub open spec fn build_error_prefix() -> Seq<char> {
    "Failed to build .gitignore matcher: "@
}

pub open spec fn opt_view(t: Option<&str>) -> Option<Seq<char>> {
    match t {
        Some(s) => Some(s@),
        None => None,
    }
}

fn strip_bom_exec(s: &str) -> (r: String)
    ensures
        r@ == strip_bom(s@),
{
    let cs = chars_of(s);
    let mut i: usize = 0;
    assert(cs@.skip(0) =~= cs@);
    while i < cs.len() && cs[i] == '\u{feff}'
        invariant
            i <= cs.len(),
            strip_bom(cs@.skip(i as int)) == strip_bom(s@),
            cs@ == s@,
        decreases cs.len() - i,
    {
        assert(cs@.skip(i as int).drop_first() == cs@.skip(i + 1));
        i += 1;
    }
    string_from_range(&cs, i, cs.len())
}

/// The pattern lines of a `.gitignore` text.
pub fn gitignore_lines(text: &str) -> (r: Vec<String>)
    ensures
        r.deep_view() == gitignore_file_lines(text@),
{
    let ls = split_lines(text);
    if ls.len() == 0 {
        return ls;
    }
    let mut out: Vec<String> = Vec::new();
    out.push(strip_bom_exec(ls[0].as_str()));
    let ghost g = gitignore_file_lines(text@);
    assert(out.deep_view() =~= g.take(1));
    let mut i: usize = 1;
    while i < ls.len()
        invariant
            1 <= i <= ls.len(),
            ls.deep_view() == lines_of(text@),
            g == gitignore_file_lines(text@),
            out.deep_view() == g.take(i as int),
        decreases ls.len() - i,
    {
        let l = ls[i].clone();
        assert(g[i as int] == ls.deep_view()[i as int]);
        let ghost before = out.deep_view();
        out.push(l);
        assert(out.deep_view() =~= before.push(l@));
        assert(out.deep_view() =~= g.take(i + 1));
        i += 1;
    }
    assert(out.deep_view() =~= gitignore_file_lines(text@));
    out
}

/// A `.gitignore` matcher.
pub struct IgnoreRules {
    matcher: Gitignore,
}

impl IgnoreRules {
    /// The root the patterns are relative to.
    pub closed spec fn root(&self) -> Seq<char> {
        matcher_root(self.matcher)
    }

    /// The pattern lines the matcher holds.
    pub closed spec fn lines(&self) -> Seq<Seq<char>> {
        matcher_lines(self.matcher)
    }

    /// Builds the matcher for patterns relative to `root` from the content
    /// of a `.gitignore` (`None` when there is no file to read): its lines
    /// are fed to the builder in order, and lines it refuses are skipped.
    pub fn build(root: &str, text: Option<&str>) -> (r: Result<IgnoreRules, AppError>)
        ensures
            r is Ok <==> rules_build(rules_lines(opt_view(text))),
            r matches Ok(g) ==> g.root() == root@ && g.lines() == rules_lines(opt_view(text)),
            r matches Err(e) ==> (e matches AppError::Config(m) && m@.len()
                >= build_error_prefix().len() && m@.take(build_error_prefix().len() as int)
                == build_error_prefix()),
    {
        let mut b = new_builder(root);
        match text {
            Some(t) => {
                let ls = gitignore_lines(t);
                let ghost all = gitignore_file_lines(t@);
                let mut i: usize = 0;
                assert(all.take(0) =~= Seq::<Seq<char>>::empty());
                while i < ls.len()
                    invariant
                        i <= ls.len(),
                        ls.deep_view() == all,
                        builder_root(b) == root@,
                        builder_lines(b) == accepted_lines(all.take(i as int)),
                    decreases ls.len() - i,
                {
                    let line = ls[i].as_str();
                    assert(all.take(i + 1).drop_last() =~= all.take(i as int));
                    assert(all.take(i + 1).last() == line@);
                    builder_add_line(&mut b, line);
                    i += 1;
                }
                assert(all.take(i as int) =~= all);
            },
            None => {},
        }
        match builder_build(&b) {
            Ok(g) => Ok(IgnoreRules { matcher: g }),
            Err(e) => {
                let m = concat("Failed to build .gitignore matcher: ", ignore_error_text(&e).as_str());
                assert(m@.take(build_error_prefix().len() as int) =~= build_error_prefix());
                Err(AppError::Config(m))
            },
        }
    }

    /// What the rules say of a file path (not a directory).
    pub fn verdict(&self, path: &str) -> (m: MatchKind)
        requires
            unrooted(path@),
            no_double_sep(path@),
        ensures
            m == rules_verdict(self.root(), self.lines(), path@, false),
    {
        matcher_verdict(&self.matcher, path, false)
    }
}

} // verus!
