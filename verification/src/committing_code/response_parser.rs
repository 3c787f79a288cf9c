//! Reading the model's replies: the `^^^` file blocks of a code reply and
//! the `%%%files` list of an extra-files reply.
use vstd::prelude::*;
use crate::error::AppError;
use crate::text::{chars_of, lemma_lines_of_first, lines_of, split_lines, starts_with, starts_with_exec, str_eq, string_from_range, trim, trim_str};

verus! {

/// One file change: new content for `path`, or its deletion (`None`).
#[derive(Debug, Clone, PartialEq, Eq)]
pub struct FileUpdate {
    pub path: String,
    pub content: Option<String>,
}

pub open spec fn opt_string_view(o: Option<String>) -> Option<Seq<char>> {
    match o {
        Some(s) => Some(s@),
        None => None,
    }
}

/// A file update as plain values: the path and the new content, if any.
pub open spec fn update_view(u: FileUpdate) -> (Seq<char>, Option<Seq<char>>) {
    (u.path@, opt_string_view(u.content))
}

pub open spec fn updates_view(us: Seq<FileUpdate>) -> Seq<(Seq<char>, Option<Seq<char>>)> {
    us.map_values(|u: FileUpdate| update_view(u))
}

/// Lines joined by `'\n'` (`[&str]::join("\n")`).
pub open spec fn join_lines(xs: Seq<Seq<char>>) -> Seq<char>
    decreases xs.len(),
{
    if xs.len() == 0 {
        Seq::empty()
    } else if xs.len() == 1 {
        xs[0]
    } else {
        xs[0] + seq!['\n'] + join_lines(xs.drop_first())
    }
}

/// A line that opens a file block: `^^^` followed by anything but `end`
/// or `delete`.
pub open spec fn is_block_header(l: Seq<char>) -> bool {
    starts_with(l, "^^^"@) && l != "^^^end"@ && l != "^^^delete"@
}

/// The index of the first `^^^end` line at or after `j`, or the number of
/// lines when there is none.
pub open spec fn end_index(ls: Seq<Seq<char>>, j: int) -> int
    decreases ls.len() - j,
{
    if j >= ls.len() {
        ls.len() as int
    } else if ls[j] == "^^^end"@ {
        j
    } else {
        end_index(ls, j + 1)
    }
}

/// The file updates that lines `i..` describe, in order, or `Err` when a
/// header names no file.  A header followed by a `^^^delete` line deletes
/// the file; otherwise the lines up to the next `^^^end` (or to the end of
/// the reply) are the content, and reading goes on after that `^^^end`.
/// Lines outside blocks are ignored.
pub open spec fn parse_updates(ls: Seq<Seq<char>>, i: int) -> Result<Seq<(Seq<char>, Option<Seq<char>>)>, ()>
    decreases ls.len() + 1 - i,
{
    if i < 0 || i >= ls.len() {
        Ok(Seq::empty())
    } else if is_block_header(ls[i]) {
        proof {
            lemma_end_index_bounds(ls, i + 1);
        }
        let path = ls[i].skip(3);
        if path.len() == 0 {
            Err(())
        } else if i + 1 < ls.len() && ls[i + 1] == "^^^delete"@ {
            prepend_updates(seq![(path, None)], parse_updates(ls, i + 2))
        } else {
            let k = end_index(ls, i + 1);
            if k < i + 1 {
                Err(())
            } else {
                prepend_updates(
                    seq![(path, Some(join_lines(ls.subrange(i + 1, k))))],
                    parse_updates(ls, k + 1),
                )
            }
        }
    } else {
        parse_updates(ls, i + 1)
    }
}

pub open spec fn prepend_updates(
    p: Seq<(Seq<char>, Option<Seq<char>>)>,
    r: Result<Seq<(Seq<char>, Option<Seq<char>>)>, ()>,
) -> Result<Seq<(Seq<char>, Option<Seq<char>>)>, ()> {
    match r {
        Ok(s) => Ok(p + s),
        Err(e) => Err(e),
    }
}

pub open spec fn missing_filename_msg() -> Seq<char> {
    "Found '^^^' without a filename."@
}

/// The end of a block lies between its start and the end of the lines.
pub proof fn lemma_end_index_bounds(ls: Seq<Seq<char>>, j: int)
    requires
        0 <= j,
    ensures
        j <= end_index(ls, j) <= ls.len() || (j > ls.len() && end_index(ls, j) == ls.len()),
    decreases ls.len() - j,
{
    if j < ls.len() && ls[j] != "^^^end"@ {
        lemma_end_index_bounds(ls, j + 1);
    }
}

/// Joining one more line adds a newline and the line (or just the line
/// when there was none).
pub proof fn lemma_join_snoc(xs: Seq<Seq<char>>, x: Seq<char>)
    ensures
        join_lines(xs.push(x)) == (if xs.len() == 0 {
            x
        } else {
            join_lines(xs) + seq!['\n'] + x
        }),
    decreases xs.len(),
{
    if xs.len() == 0 {
        assert(xs.push(x) =~= seq![x]);
    } else if xs.len() == 1 {
        assert(xs.push(x).drop_first() =~= seq![x]);
        assert(join_lines(seq![x]) == x);
        assert(join_lines(xs) == xs[0]);
    } else {
        lemma_join_snoc(xs.drop_first(), x);
        assert(xs.push(x).drop_first() =~= xs.drop_first().push(x));
        assert(join_lines(xs.push(x)) == xs[0] + seq!['\n'] + join_lines(xs.drop_first().push(x)));
        assert(xs[0] + seq!['\n'] + (join_lines(xs.drop_first()) + seq!['\n'] + x) =~= (xs[0]
            + seq!['\n'] + join_lines(xs.drop_first())) + seq!['\n'] + x);
    }
}

proof fn lemma_end_index_past_body(ls: Seq<Seq<char>>, j: int, e: int)
    requires
        1 <= j <= e < ls.len(),
        ls[e] == "^^^end"@,
        forall|i: int| j <= i < e ==> ls[i] != "^^^end"@,
    ensures
        end_index(ls, j) == e,
    decreases e - j,
{
    if j < e {
        lemma_end_index_past_body(ls, j + 1, e);
    }
}

/// A block's content is its lines exactly as the reply holds them, joined
/// by newlines: for a header `^^^p` (naming a file), any lines without a
/// `^^^end` line (not starting with `^^^delete`), and a closing `^^^end`,
/// the update is to write `p` with those lines, none of them altered.
pub proof fn lemma_block_content_verbatim(p: Seq<char>, body: Seq<Seq<char>>)
    requires
        p.len() > 0,
        "^^^"@ + p != "^^^end"@,
        "^^^"@ + p != "^^^delete"@,
        forall|i: int| 0 <= i < body.len() ==> body[i] != "^^^end"@,
        body.len() > 0 ==> body[0] != "^^^delete"@,
    ensures
        parse_updates(seq!["^^^"@ + p] + body + seq!["^^^end"@], 0) == Ok::<
            Seq<(Seq<char>, Option<Seq<char>>)>,
            (),
        >(seq![(p, Some(join_lines(body)))]),
{
    reveal_strlit("^^^");
    reveal_strlit("^^^end");
    reveal_strlit("^^^delete");
    let h = "^^^"@ + p;
    let ls = seq![h] + body + seq!["^^^end"@];
    let e: int = body.len() as int + 1;
    assert(ls[0] == h);
    assert(ls[e] == "^^^end"@);
    assert forall|i: int| 1 <= i < e implies ls[i] != "^^^end"@ by {
        assert(ls[i] == body[i - 1]);
    }
    assert(h.take(3) =~= "^^^"@);
    assert(starts_with(h, "^^^"@));
    assert(is_block_header(ls[0]));
    assert(ls[0].skip(3) =~= p);
    if body.len() > 0 {
        assert(ls[1] == body[0]);
    } else {
        assert("^^^end"@ != "^^^delete"@) by {
            assert("^^^end"@.len() != "^^^delete"@.len());
        }
    }
    lemma_end_index_past_body(ls, 1, e);
    assert(ls.subrange(1, e) =~= body);
    assert(parse_updates(ls, e + 1) == Ok::<Seq<(Seq<char>, Option<Seq<char>>)>, ()>(Seq::empty()));
    assert(seq![(p, Some(join_lines(body)))] + Seq::<(Seq<char>, Option<Seq<char>>)>::empty()
        =~= seq![(p, Some(join_lines(body)))]);
}

/// A header followed by a `^^^delete` line deletes the file it names.
pub proof fn lemma_delete_block(p: Seq<char>)
    requires
        p.len() > 0,
        "^^^"@ + p != "^^^end"@,
        "^^^"@ + p != "^^^delete"@,
    ensures
        parse_updates(seq!["^^^"@ + p, "^^^delete"@], 0) == Ok::<Seq<(Seq<char>, Option<Seq<char>>)>, ()>(
            seq![(p, None)],
        ),
{
    reveal_strlit("^^^");
    let h = "^^^"@ + p;
    let ls = seq![h, "^^^delete"@];
    assert(h.take(3) =~= "^^^"@);
    assert(is_block_header(ls[0]));
    assert(ls[0].skip(3) =~= p);
    assert(parse_updates(ls, 2) == Ok::<Seq<(Seq<char>, Option<Seq<char>>)>, ()>(Seq::empty()));
    assert(seq![(p, None::<Seq<char>>)] + Seq::<(Seq<char>, Option<Seq<char>>)>::empty() =~= seq![(p, None)]);
}

/// A line that `lines_of` keeps whole: no line break in it and no
/// carriage return at its end.
pub open spec fn plain_line(l: Seq<char>) -> bool {
    (forall|j: int| 0 <= j < l.len() ==> l[j] != '\n') && (l.len() == 0 || l.last() != '\r')
}

proof fn lemma_lines_of_joined(ls: Seq<Seq<char>>, rest: Seq<char>)
    requires
        ls.len() > 0,
        forall|i: int| 0 <= i < ls.len() ==> plain_line(#[trigger] ls[i]),
    ensures
        lines_of(join_lines(ls) + seq!['\n'] + rest) == ls + lines_of(rest),
    decreases ls.len(),
{
    let l0 = ls[0];
    assert(plain_line(l0));
    if ls.len() == 1 {
        assert(join_lines(ls) == l0);
        lemma_lines_of_first(l0, rest);
        assert(seq![l0] =~= ls);
    } else {
        let tail = ls.drop_first();
        assert forall|i: int| 0 <= i < tail.len() implies plain_line(#[trigger] tail[i]) by {
            assert(tail[i] == ls[i + 1]);
        }
        lemma_lines_of_joined(tail, rest);
        let r2 = join_lines(tail) + seq!['\n'] + rest;
        assert(join_lines(ls) + seq!['\n'] + rest =~= l0 + seq!['\n'] + r2);
        lemma_lines_of_first(l0, r2);
        assert(seq![l0] + (tail + lines_of(rest)) =~= ls + lines_of(rest));
    }
}

/// A reply made of one block reads back verbatim: for a header `^^^p`
/// and content lines that hold no `^^^end` line (and do not open with
/// `^^^delete`), the reply `^^^p` / the content / `^^^end` gives one update
/// writing `p`, and its content is exactly the reply's text between the
/// header line and the `^^^end` line, every line unchanged.
pub proof fn lemma_reply_block_verbatim(text: Seq<char>, p: Seq<char>, body: Seq<Seq<char>>)
    requires
        p.len() > 0,
        plain_line("^^^"@ + p),
        "^^^"@ + p != "^^^end"@,
        "^^^"@ + p != "^^^delete"@,
        body.len() > 0,
        forall|i: int| 0 <= i < body.len() ==> plain_line(#[trigger] body[i]) && body[i] != "^^^end"@,
        body[0] != "^^^delete"@,
        text == "^^^"@ + p + seq!['\n'] + join_lines(body) + seq!['\n'] + "^^^end"@,
    ensures
        parse_updates(lines_of(text), 0) == Ok::<Seq<(Seq<char>, Option<Seq<char>>)>, ()>(
            seq![(p, Some(text.subrange(p.len() as int + 4, text.len() - 7)))],
        ),
        text.subrange(p.len() as int + 4, text.len() - 7) == join_lines(body),
{
    reveal_strlit("^^^");
    reveal_strlit("^^^end");
    let h = "^^^"@ + p;
    let e = "^^^end"@;
    assert(e.len() == 6);
    assert(plain_line(e)) by {
        assert forall|j: int| 0 <= j < e.len() implies e[j] != '\n' by {
            assert(e[j] == e[j]);
        }
    }
    let rest = e;
    lemma_lines_of_joined(body, rest);
    lemma_lines_of_end(e);
    let inner = join_lines(body) + seq!['\n'] + rest;
    assert(text =~= h + seq!['\n'] + inner);
    lemma_lines_of_first(h, inner);
    assert(lines_of(text) =~= seq![h] + body + seq![e]);
    lemma_block_content_verbatim(p, body);
    assert(text.subrange(p.len() as int + 4, text.len() - 7) =~= join_lines(body));
}

/// A text without line breaks is a single line (when it holds a
/// character).
proof fn lemma_lines_of_end(e: Seq<char>)
    requires
        e.len() > 0,
        plain_line(e),
    ensures
        lines_of(e) == seq![e],
{
    crate::text::lemma_index_of_bound(e, '\n');
    if crate::text::index_of(e, '\n') < e.len() {
        assert(e[crate::text::index_of(e, '\n') as int] == '\n');
    }
}

fn line_is(l: &String, lit: &str) -> (b: bool)
    ensures
        b == (l@ == lit@),
{
    str_eq(l.as_str(), lit)
}

/// The file updates of a code reply, in the order they appear.
pub fn parse_llm_response(text: &str) -> (r: Result<Vec<FileUpdate>, AppError>)
    ensures
        match parse_updates(lines_of(text@), 0) {
            Ok(us) => r matches Ok(v) && updates_view(v@) == us,
            Err(_) => r matches Err(AppError::ResponseParsing(m)) && m@ == missing_filename_msg(),
        },
{
    let ls = split_lines(text);
    let ghost all = ls.deep_view();
    let carets = chars_of("^^^");
    let mut out: Vec<FileUpdate> = Vec::new();
    let mut i: usize = 0;
    assert(updates_view(out@) + Seq::empty() =~= Seq::empty());
    while i < ls.len()
        invariant
            all == ls.deep_view(),
            all == lines_of(text@),
            carets@ == "^^^"@,
            i <= ls.len(),
            parse_updates(all, 0) == prepend_updates(updates_view(out@), parse_updates(all, i as int)),
        decreases ls.len() - i,
    {
        let line = &ls[i];
        let lc = chars_of(line.as_str());
        assert(all[i as int] == line@);
        if starts_with_exec(&lc, &carets) && !line_is(line, "^^^end") && !line_is(line, "^^^delete") {
            proof {
                reveal_strlit("^^^");
            }
            let path = string_from_range(&lc, 3, lc.len());
            assert(path@ =~= all[i as int].skip(3));
            if lc.len() == 3 {
                return Err(AppError::ResponseParsing("Found '^^^' without a filename.".to_owned()));
            }
            if i + 1 < ls.len() && line_is(&ls[i + 1], "^^^delete") {
                assert(all[i + 1] == ls[i + 1 as int]@);
                let ghost before = out@;
                out.push(FileUpdate { path, content: None });
                assert(updates_view(out@) =~= updates_view(before) + seq![(all[i as int].skip(3), None::<Seq<char>>)]);
                assert(updates_view(before) + (seq![(all[i as int].skip(3), None::<Seq<char>>)]
                    + match parse_updates(all, i + 2) { Ok(s) => s, Err(_) => Seq::empty() })
                    =~= updates_view(out@) + match parse_updates(all, i + 2) { Ok(s) => s, Err(_) => Seq::empty() });
                i += 2;
            } else {
                let mut j = i + 1;
                let mut content = String::new();
                assert(all.subrange(i + 1, j as int) =~= Seq::<Seq<char>>::empty());
                while j < ls.len() && !line_is(&ls[j], "^^^end")
                    invariant
                        all == ls.deep_view(),
                        i + 1 <= j <= ls.len(),
                        content@ == join_lines(all.subrange(i + 1, j as int)),
                        end_index(all, i + 1) == end_index(all, j as int),
                    decreases ls.len() - j,
                {
                    assert(all[j as int] == ls[j as int]@);
                    let ghost prev = all.subrange(i + 1, j as int);
                    if j > i + 1 {
                        content.push('\n');
                    }
                    content.append(ls[j].as_str());
                    proof {
                        lemma_join_snoc(prev, all[j as int]);
                        assert(all.subrange(i + 1, j + 1) =~= prev.push(all[j as int]));
                    }
                    j += 1;
                }
                proof {
                    if j < ls.len() {
                        assert(all[j as int] == ls[j as int]@);
                    }
                }
                assert(end_index(all, i + 1) == j);
                let ghost before = out@;
                let ghost u = (all[i as int].skip(3), Some(join_lines(all.subrange(i + 1, j as int))));
                out.push(FileUpdate { path, content: Some(content) });
                assert(updates_view(out@) =~= updates_view(before) + seq![u]);
                let next = if j < ls.len() {
                    j + 1
                } else {
                    j
                };
                assert(parse_updates(all, next as int) == parse_updates(all, j + 1));
                assert(updates_view(before) + (seq![u] + match parse_updates(all, j + 1) { Ok(s) => s, Err(_) => Seq::empty() })
                    =~= updates_view(out@) + match parse_updates(all, j + 1) { Ok(s) => s, Err(_) => Seq::empty() });
                i = next;
            }
        } else {
            i += 1;
        }
    }
    assert(updates_view(out@) + Seq::empty() =~= updates_view(out@));
    Ok(out)
}

/// The paths listed between `%%%files` and `%%%end` lines, lines `i..`
/// onwards; `inside` says whether a list is open.  Lines are trimmed and
/// blank ones skipped; a list may open and close more than once.
pub open spec fn extra_files_from(ls: Seq<Seq<char>>, i: int, inside: bool) -> Seq<Seq<char>>
    decreases ls.len() - i,
{
    if i < 0 || i >= ls.len() {
        Seq::empty()
    } else {
        let t = trim(ls[i]);
        if t == "%%%files"@ {
            extra_files_from(ls, i + 1, true)
        } else if t == "%%%end"@ {
            extra_files_from(ls, i + 1, false)
        } else if inside && t.len() > 0 {
            seq![t] + extra_files_from(ls, i + 1, inside)
        } else {
            extra_files_from(ls, i + 1, inside)
        }
    }
}

/// The files an extra-files reply asks for, in order.
pub fn parse_extra_files_response(text: &str) -> (r: Result<Vec<String>, AppError>)
    ensures
        r matches Ok(v) && v.deep_view() == extra_files_from(lines_of(text@), 0, false),
{
    let ls = split_lines(text);
    let ghost all = ls.deep_view();
    let mut files: Vec<String> = Vec::new();
    let mut inside = false;
    let mut i: usize = 0;
    while i < ls.len()
        invariant
            all == ls.deep_view(),
            all == lines_of(text@),
            i <= ls.len(),
            extra_files_from(all, 0, false) == files.deep_view() + extra_files_from(all, i as int, inside),
        decreases ls.len() - i,
    {
        assert(all[i as int] == ls[i as int]@);
        let t = trim_str(ls[i].as_str());
        let ghost before = files.deep_view();
        if str_eq(t.as_str(), "%%%files") {
            inside = true;
        } else if str_eq(t.as_str(), "%%%end") {
            inside = false;
        } else if inside && !t.as_str().is_empty() {
            let ghost tv = t@;
            files.push(t);
            assert(files.deep_view() =~= before.push(tv));
            assert(before + (seq![tv] + extra_files_from(all, i + 1, inside)) =~= files.deep_view()
                + extra_files_from(all, i + 1, inside));
        }
        i += 1;
    }
    assert(files.deep_view() + Seq::empty() =~= files.deep_view());
    Ok(files)
}

} // verus!
