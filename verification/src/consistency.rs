//! The consistency check: the model is shown the codebase that its
//! request calls for and reports where code, documentation and
//! specifications disagree.
use vstd::prelude::*;
use crate::prompts::{CONSISTENCY_CHECK, PROJECT_STRUCTURE};

verus! {

/// The request the context is built for.
pub open spec fn consistency_agent_prompt(query: Seq<char>) -> Seq<char> {
    PROJECT_STRUCTURE@ + "\n"@ + CONSISTENCY_CHECK@ + "\n[supervisor query]\n"@ + query
}

/// The request for the report: the agent prompt and the codebase.
pub open spec fn consistency_prompt(agent_prompt: Seq<char>, codebase: Seq<char>) -> Seq<char> {
    agent_prompt + "\n[codebase]\n"@ + codebase
}

/// The request the context is built for.
pub fn build_consistency_agent_prompt(query: &str) -> (r: String)
    ensures
        r@ == consistency_agent_prompt(query@),
{
    let mut r = PROJECT_STRUCTURE.to_owned();
    r.append("\n");
    r.append(CONSISTENCY_CHECK);
    r.append("\n[supervisor query]\n");
    r.append(query);
    r
}

/// The request for the report.
pub fn build_consistency_prompt(agent_prompt: &str, codebase: &str) -> (r: String)
    ensures
        r@ == consistency_prompt(agent_prompt@, codebase@),
{
    let mut r = agent_prompt.to_owned();
    r.append("\n[codebase]\n");
    r.append(codebase);
    r
}

} // verus!
