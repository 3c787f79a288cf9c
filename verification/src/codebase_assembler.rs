//! The whole codebase as one text: every file the walk found, in `Path`'s
//! order, except the tool's own binary.
use vstd::prelude::*;
use crate::committing_code::prompts::append_file_block;
use crate::committing_code::workflow::with_files;
use crate::committing_code::response_parser::opt_string_view;
use crate::paths::{file_name_of, path_components, SComp};
use crate::sorting::{path_sorted, sort_paths};
use crate::text::str_eq;
use crate::paths::components;
use crate::paths::PathComp;

verus! {

/// The tool's own binary, never part of the codebase.
pub open spec fn is_tool_binary(p: Seq<char>) -> bool {
    file_name_of(p) == Some("code-commit"@)
}

/// The files of the codebase to read: all but the tool's binary, in
/// `Path`'s order.
pub fn files_to_assemble(paths: &Vec<String>) -> (r: Vec<String>)
    ensures
        path_sorted(r.deep_view()),
        r.deep_view().to_multiset() == paths.deep_view().filter(|p: Seq<char>| !is_tool_binary(p)).to_multiset(),
{
    let ghost pv = paths.deep_view();
    let mut kept: Vec<String> = Vec::new();
    let mut i: usize = 0;
    assert(pv.take(0).filter(|p: Seq<char>| !is_tool_binary(p)) =~= Seq::<Seq<char>>::empty());
    while i < paths.len()
        invariant
            pv == paths.deep_view(),
            i <= paths.len(),
            kept.deep_view() == pv.take(i as int).filter(|p: Seq<char>| !is_tool_binary(p)),
        decreases paths.len() - i,
    {
        let p = &paths[i];
        assert(pv[i as int] == p@);
        let cs = components(p.as_str());
        let n = cs.len();
        let skip = n > 0 && match &cs[n - 1] {
            PathComp::Normal(x) => str_eq(x.as_str(), "code-commit"),
            _ => false,
        };
        assert(pv.take(i + 1).drop_last() =~= pv.take(i as int));
        assert(skip == is_tool_binary(p@));
        if !skip {
            let ghost before = kept.deep_view();
            kept.push(p.clone());
            assert(kept.deep_view() =~= before.push(p@));
        }
        proof {
            pv.take(i as int).lemma_filter_push(p@, |p: Seq<char>| !is_tool_binary(p));
            assert(pv.take(i + 1) =~= pv.take(i as int).push(p@));
        }
        i += 1;
    }
    assert(pv.take(i as int) =~= pv);
    sort_paths(&kept)
}

/// The codebase made of the files to assemble, as read (`None` for a file
/// that could not be read, which is left out).
pub fn assemble_codebase(paths: &Vec<String>, contents: &Vec<Option<String>>) -> (r: String)
    requires
        contents.len() == paths.len(),
    ensures
        r@ == with_files(Seq::empty(), paths.deep_view(), contents@.map_values(|c: Option<String>| opt_string_view(c))),
{
    let ghost pv = paths.deep_view();
    let ghost cv = contents@.map_values(|c: Option<String>| opt_string_view(c));
    let mut out = String::new();
    let mut i: usize = 0;
    assert(pv.take(0) =~= Seq::<Seq<char>>::empty());
    assert(cv.take(0) =~= Seq::<Option<Seq<char>>>::empty());
    while i < contents.len()
        invariant
            contents.len() == paths.len(),
            pv == paths.deep_view(),
            cv == contents@.map_values(|c: Option<String>| opt_string_view(c)),
            i <= contents.len(),
            out@ == with_files(Seq::empty(), pv.take(i as int), cv.take(i as int)),
        decreases contents.len() - i,
    {
        assert(pv.take(i + 1).drop_last() =~= pv.take(i as int));
        assert(cv.take(i + 1).drop_last() =~= cv.take(i as int));
        assert(pv.take(i + 1).last() == paths@[i as int]@);
        assert(cv.take(i + 1).last() == opt_string_view(contents@[i as int]));
        match &contents[i] {
            Some(c) => {
                append_file_block(&mut out, paths[i].as_str(), c.as_str());
            },
            None => {},
        }
        i += 1;
    }
    assert(pv.take(i as int) =~= pv);
    assert(cv.take(i as int) =~= cv);
    out
}

} // verus!
