//! Reading the context model's reply: the `%%%files` list of the files to
//! put in the context.
use vstd::prelude::*;
use crate::error::AppError;
use crate::text::{lines_of, split_lines, str_eq, trim, trim_str};

verus! {

pub open spec fn unclosed_list_msg() -> Seq<char> {
    "Found '%%%files' but no matching '%%%end'."@
}

pub open spec fn no_list_msg() -> Seq<char> {
    "Could not find '%%%files'...'%%%end' block in context LLM response."@
}

pub open spec fn stray_end_msg() -> Seq<char> {
    "Found '%%%end' without a preceding '%%%files'."@
}

/// The paths of the list, reading lines `i..` with a list open or not:
/// the first `%%%end` closes it (an error when none is open); lines are
/// trimmed and blank ones skipped.
pub open spec fn context_files_from(ls: Seq<Seq<char>>, i: int, inside: bool) -> Result<Seq<Seq<char>>, Seq<char>>
    decreases ls.len() - i,
{
    if i < 0 || i >= ls.len() {
        if inside {
            Err(unclosed_list_msg())
        } else {
            Err(no_list_msg())
        }
    } else {
        let t = trim(ls[i]);
        if t == "%%%files"@ {
            context_files_from(ls, i + 1, true)
        } else if t == "%%%end"@ {
            if inside {
                Ok(Seq::empty())
            } else {
                Err(stray_end_msg())
            }
        } else if inside && t.len() > 0 {
            match context_files_from(ls, i + 1, inside) {
                Ok(rest) => Ok(seq![t] + rest),
                Err(m) => Err(m),
            }
        } else {
            context_files_from(ls, i + 1, inside)
        }
    }
}

pub open spec fn prefix_files(p: Seq<Seq<char>>, r: Result<Seq<Seq<char>>, Seq<char>>) -> Result<Seq<Seq<char>>, Seq<char>> {
    match r {
        Ok(s) => Ok(p + s),
        Err(m) => Err(m),
    }
}

/// The files the context reply lists, in order.
pub fn parse_context_llm_response(text: &str) -> (r: Result<Vec<String>, AppError>)
    ensures
        match context_files_from(lines_of(text@), 0, false) {
            Ok(fs) => r matches Ok(v) && v.deep_view() == fs,
            Err(m) => r matches Err(AppError::ResponseParsing(x)) && x@ == m,
        },
{
    let ls = split_lines(text);
    let ghost all = ls.deep_view();
    let mut files: Vec<String> = Vec::new();
    let mut inside = false;
    let mut i: usize = 0;
    assert(files.deep_view() + Seq::<Seq<char>>::empty() =~= Seq::<Seq<char>>::empty());
    while i < ls.len()
        invariant
            all == ls.deep_view(),
            all == lines_of(text@),
            i <= ls.len(),
            !inside ==> files.len() == 0,
            context_files_from(all, 0, false) == prefix_files(
                files.deep_view(),
                context_files_from(all, i as int, inside),
            ),
        decreases ls.len() - i,
    {
        assert(all[i as int] == ls[i as int]@);
        let t = trim_str(ls[i].as_str());
        if str_eq(t.as_str(), "%%%files") {
            inside = true;
        } else if str_eq(t.as_str(), "%%%end") {
            if inside {
                assert(files.deep_view() + Seq::<Seq<char>>::empty() =~= files.deep_view());
                return Ok(files);
            } else {
                return Err(
                    AppError::ResponseParsing(
                        "Found '%%%end' without a preceding '%%%files'.".to_owned(),
                    ),
                );
            }
        } else if inside && !t.as_str().is_empty() {
            let ghost before = files.deep_view();
            let ghost tv = t@;
            files.push(t);
            assert(files.deep_view() =~= before.push(tv));
            proof {
                let rest = context_files_from(all, i + 1, inside);
                match rest {
                    Ok(s) => {
                        assert(before + (seq![tv] + s) =~= files.deep_view() + s);
                    },
                    Err(_) => {},
                }
            }
        }
        i += 1;
    }
    if inside {
        Err(AppError::ResponseParsing("Found '%%%files' but no matching '%%%end'.".to_owned()))
    } else {
        Err(
            AppError::ResponseParsing(
                "Could not find '%%%files'...'%%%end' block in context LLM response.".to_owned(),
            ),
        )
    }
}

} // verus!
