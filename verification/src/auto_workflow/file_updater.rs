//! The file blocks of an auto-workflow reply: `^^^name`, a newline, the
//! content, `^^^end`; a block whose content is `^^^delete` deletes the
//! file.
use vstd::prelude::*;
use crate::committing_code::response_parser::FileUpdate;
use crate::committing_code::response_parser::updates_view;
use crate::text::{
    chars_of, find_from, find_from_exec, lemma_find_from_facts, string_from_range, trim,
    trim_str, str_eq,
};

verus! {

pub open spec fn caret_tag() -> Seq<char> {
    seq!['^', '^', '^']
}

pub open spec fn end_tag() -> Seq<char> {
    seq!['^', '^', '^', 'e', 'n', 'd']
}

pub open spec fn newline() -> Seq<char> {
    seq!['\n']
}

/// The blocks found from position `pos` on, in order: each starts at the
/// next `^^^`, names the file up to the next newline (trimmed), and holds
/// the text up to the next `^^^end`.  Reading stops at the first `^^^`
/// that does not open a complete block, as no later one can.
pub open spec fn blocks_from(s: Seq<char>, pos: int) -> Seq<(Seq<char>, Option<Seq<char>>)>
    decreases s.len() + 1 - pos,
{
    if pos < 0 {
        Seq::empty()
    } else {
        match find_from(s, caret_tag(), pos) {
            None => Seq::empty(),
            Some(a) => match find_from(s, newline(), a + 3) {
                None => Seq::empty(),
                Some(nl) => match find_from(s, end_tag(), nl + 1) {
                    None => Seq::empty(),
                    Some(e) => {
                        proof {
                            lemma_find_from_facts(s, caret_tag(), pos);
                            lemma_find_from_facts(s, newline(), a + 3);
                            lemma_find_from_facts(s, end_tag(), nl + 1);
                        }
                        if e + 6 <= pos {
                            Seq::empty()
                        } else {
                            let name = trim(s.subrange(a + 3, nl));
                            let body = s.subrange(nl + 1, e);
                            let content = if trim(body) == "^^^delete"@ {
                                None
                            } else {
                                Some(body)
                            };
                            seq![(name, content)] + blocks_from(s, e + 6)
                        }
                    },
                },
            },
        }
    }
}

/// The file changes an auto-workflow reply asks for, in order, for the
/// caller to carry out: each block's content is written to its file, and a
/// `^^^delete` block deletes the file.
pub fn apply_file_updates(response: &str) -> (r: Vec<FileUpdate>)
    ensures
        updates_view(r@) == blocks_from(response@, 0),
{
    proof {
        reveal_strlit("^^^");
        reveal_strlit("^^^end");
        reveal_strlit("\n");
    }
    let s = chars_of(response);
    let carets = chars_of("^^^");
    let nlv = chars_of("\n");
    let endv = chars_of("^^^end");
    assert(carets@ =~= caret_tag());
    assert(nlv@ =~= newline());
    assert(endv@ =~= end_tag());
    let mut out: Vec<FileUpdate> = Vec::new();
    let mut pos: usize = 0;
    assert(updates_view(out@) + blocks_from(s@, 0) =~= blocks_from(s@, 0));
    loop
        invariant
            s@ == response@,
            carets@ == caret_tag(),
            nlv@ == newline(),
            endv@ == end_tag(),
            pos <= s.len() + 6,
            updates_view(out@) + blocks_from(s@, pos as int) == blocks_from(s@, 0),
        ensures
            updates_view(out@) == blocks_from(s@, 0),
        decreases s.len() + 7 - pos,
    {
        let ghost before = out@;
        let a = match find_from_exec(&s, &carets, pos) {
            None => {
                assert(blocks_from(s@, pos as int) =~= Seq::empty());
                assert(updates_view(out@) + Seq::empty() =~= updates_view(out@));
                break;
            },
            Some(a) => a,
        };
        proof {
            lemma_find_from_facts(s@, caret_tag(), pos as int);
        }
        let nl = match find_from_exec(&s, &nlv, a + 3) {
            None => {
                assert(blocks_from(s@, pos as int) =~= Seq::empty());
                assert(updates_view(out@) + Seq::empty() =~= updates_view(out@));
                break;
            },
            Some(nl) => nl,
        };
        proof {
            lemma_find_from_facts(s@, newline(), a + 3);
        }
        let e = match find_from_exec(&s, &endv, nl + 1) {
            None => {
                assert(blocks_from(s@, pos as int) =~= Seq::empty());
                assert(updates_view(out@) + Seq::empty() =~= updates_view(out@));
                break;
            },
            Some(e) => e,
        };
        proof {
            lemma_find_from_facts(s@, end_tag(), nl + 1);
        }
        let name_raw = string_from_range(&s, a + 3, nl);
        let name = trim_str(name_raw.as_str());
        let body = string_from_range(&s, nl + 1, e);
        let trimmed = trim_str(body.as_str());
        let ghost bv = body@;
        let content = if str_eq(trimmed.as_str(), "^^^delete") {
            None
        } else {
            Some(body)
        };
        let ghost u = (name@, if trim(bv) == "^^^delete"@ { None } else { Some(bv) });
        out.push(FileUpdate { path: name, content });
        assert(updates_view(out@) =~= updates_view(before) + seq![u]);
        assert(blocks_from(s@, pos as int) == seq![u] + blocks_from(s@, e + 6));
        assert(updates_view(before) + (seq![u] + blocks_from(s@, e + 6)) =~= updates_view(out@)
            + blocks_from(s@, e + 6));
        pos = e + 6;
    }
    out
}

/// Whether a reply holds at least one complete file block.
pub fn has_pending_updates(response: &str) -> (b: bool)
    ensures
        b == (blocks_from(response@, 0).len() > 0),
{
    let us = apply_file_updates(response);
    us.len() > 0
}

} // verus!
