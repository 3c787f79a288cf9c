//! The request to the context model and the codebase made of the files it
//! chose.
use vstd::prelude::*;
use crate::committing_code::prompts::{append_file_block, file_block};
use crate::context_builder::path_filter::{context_error, PathFilter};
use crate::error::AppError;
use crate::prompts::CONTEXT_BUILDER_CONTEXT_QUERY;

verus! {

/// The request to the context model: its instructions, the request the
/// context is for, and the project's summary.
pub open spec fn context_query_prompt(next_prompt: Seq<char>, summary: Seq<char>) -> Seq<char> {
    CONTEXT_BUILDER_CONTEXT_QUERY@ + "\n\n=== Next Agent Full Prompt ===\n"@ + next_prompt
        + "\n\n=== Codebase Summary ===\n"@ + summary
}

/// The request to the context model.
pub fn build_context_query(next_prompt: &str, summary: &str) -> (r: String)
    ensures
        r@ == context_query_prompt(next_prompt@, summary@),
{
    let mut r = CONTEXT_BUILDER_CONTEXT_QUERY.to_owned();
    r.append("\n\n=== Next Agent Full Prompt ===\n");
    r.append(next_prompt);
    r.append("\n\n=== Codebase Summary ===\n");
    r.append(summary);
    r
}

/// How many of the chosen files, from the first, may be read into the
/// context, and the refusal of the one after them, if any.
pub fn readable_prefix(filter: &PathFilter, paths: &Vec<String>) -> (r: (usize, Option<AppError>))
    ensures
        r.0 <= paths.len(),
        forall|i: int| 0 <= i < r.0 ==> context_error(filter.root(), filter.lines(), #[trigger] paths@[i]@) is None,
        r.0 < paths.len() ==> (context_error(filter.root(), filter.lines(), paths@[r.0 as int]@) matches Some(m)
            && r.1 matches Some(AppError::FileUpdate(x)) && x@ == m),
        r.0 == paths.len() ==> r.1 is None,
{
    let mut i: usize = 0;
    while i < paths.len()
        invariant
            i <= paths.len(),
            forall|k: int| 0 <= k < i ==> context_error(filter.root(), filter.lines(), #[trigger] paths@[k]@) is None,
        decreases paths.len() - i,
    {
        match filter.validate(paths[i].as_str()) {
            Err(e) => {
                return (i, Some(e));
            },
            Ok(()) => {},
        }
        i += 1;
    }
    (i, None)
}

/// The codebase made of the files read so far, or the first failure.
pub open spec fn context_text(paths: Seq<Seq<char>>, contents: Seq<Result<Seq<char>, Seq<char>>>) -> Result<Seq<char>, Seq<char>>
    decreases contents.len(),
{
    if contents.len() == 0 {
        Ok(Seq::empty())
    } else {
        match context_text(paths, contents.drop_last()) {
            Err(m) => Err(m),
            Ok(pre) => {
                let p = paths[contents.len() - 1];
                match contents.last() {
                    Ok(c) => Ok(pre + file_block(p, c)),
                    Err(e) => Err("Failed to read file for codebase "@ + p + ": "@ + e),
                }
            },
        }
    }
}

pub open spec fn results_view(rs: Seq<Result<String, String>>) -> Seq<Result<Seq<char>, Seq<char>>> {
    rs.map_values(|r: Result<String, String>| match r {
        Ok(c) => Ok(c@),
        Err(e) => Err(e@),
    })
}

proof fn lemma_context_err(paths: Seq<Seq<char>>, cs: Seq<Result<Seq<char>, Seq<char>>>, q: int)
    requires
        0 <= q <= cs.len(),
        context_text(paths, cs.take(q)) is Err,
    ensures
        context_text(paths, cs) == context_text(paths, cs.take(q)),
    decreases cs.len() - q,
{
    if q < cs.len() {
        assert(cs.take(q + 1).drop_last() =~= cs.take(q));
        lemma_context_err(paths, cs, q + 1);
    } else {
        assert(cs.take(q) =~= cs);
    }
}

/// The codebase made of the chosen files: `contents` holds what reading
/// the first of them gave (those `readable_prefix` allows), `refusal` the
/// refusal of the next one.  A file that could not be read stops the
/// building first; the refusal stops it after the files read.
pub fn assemble_context(paths: &Vec<String>, contents: &Vec<Result<String, String>>, refusal: Option<AppError>) -> (r: Result<String, AppError>)
    requires
        contents.len() <= paths.len(),
    ensures
        match context_text(paths.deep_view(), results_view(contents@)) {
            Err(m) => r matches Err(AppError::FileUpdate(x)) && x@ == m,
            Ok(s) => match refusal {
                Some(e) => r == Err::<String, AppError>(e),
                None => r matches Ok(x) && x@ == s,
            },
        },
{
    let ghost pv = paths.deep_view();
    let ghost cv = results_view(contents@);
    let mut out = String::new();
    let mut i: usize = 0;
    assert(cv.take(0) =~= Seq::<Result<Seq<char>, Seq<char>>>::empty());
    while i < contents.len()
        invariant
            contents.len() <= paths.len(),
            pv == paths.deep_view(),
            cv == results_view(contents@),
            i <= contents.len(),
            context_text(pv, cv.take(i as int)) == Ok::<Seq<char>, Seq<char>>(out@),
        decreases contents.len() - i,
    {
        assert(cv.take(i + 1).drop_last() =~= cv.take(i as int));
        assert(pv[i as int] == paths@[i as int]@);
        match &contents[i] {
            Ok(c) => {
                append_file_block(&mut out, paths[i].as_str(), c.as_str());
            },
            Err(e) => {
                let mut m = "Failed to read file for codebase ".to_owned();
                m.append(paths[i].as_str());
                m.append(": ");
                m.append(e.as_str());
                proof {
                    lemma_context_err(pv, cv, i + 1);
                }
                return Err(AppError::FileUpdate(m));
            },
        }
        i += 1;
    }
    assert(cv.take(i as int) =~= cv);
    match refusal {
        Some(e) => Err(e),
        None => Ok(out),
    }
}

} // verus!
