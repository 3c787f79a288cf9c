//! The committing-code workflow as a state machine.  The caller performs
//! each action (asking the model, writing files and building, reading
//! files) and hands back what came of it; the session decides what comes
//! next: at most `MAX_ATTEMPTS` rounds of changes, each failed build
//! followed by a request for missing files and a repair request that shows
//! the build output and every change made so far.
use vstd::prelude::*;
use crate::committing_code::file_updater::{first_refusal, plan_updates, protection_error, update_paths, PathProtection};
use crate::committing_code::prompts::{
    agent_prompt, append_file_block, build_agent_prompt, build_extra_code_prompt, build_initial_prompt,
    build_repair_prompt, codebase_files, extra_code_prompt, extract_filenames_from_codebase,
    file_block, initial_prompt, record_change, repair_prompt, sorted_changes, Change,
    FileReplacements,
};
use crate::committing_code::response_parser::{
    extra_files_from, opt_string_view, parse_extra_files_response, parse_llm_response, parse_updates,
    updates_view, FileUpdate,
};
use crate::error::AppError;
use crate::paths::path_cleaned;
use crate::text::{lines_of, str_eq};

verus! {

/// Rounds of changes before the workflow gives up.
pub const MAX_ATTEMPTS: u32 = 4;

/// What the caller is to do next.
pub enum CommitAction {
    /// Ask the model, logging under `log_prefix`.
    Query { prompt: String, log_prefix: String },
    /// Carry out these changes (checked, their paths cleaned), run the
    /// build, and hand its result back.
    ApplyAndBuild { updates: Vec<FileUpdate> },
    /// Read these files of the project and hand back what was read.
    ReadFiles { paths: Vec<String> },
    /// The workflow is over: the reply whose changes passed the build, or
    /// the error that ended it.
    Finish(Result<String, AppError>),
}

/// What the session waits for.
#[derive(Debug, Clone, Copy, PartialEq, Eq, Structural)]
pub enum Phase {
    /// The model's reply with changes.
    CodeReply,
    /// The result of the build.
    BuildResult,
    /// The model's list of files it needs.
    ExtraFilesReply,
    /// The content of those files.
    ExtraFileContents,
    /// Nothing: the workflow is over.
    Done,
}

/// The running workflow.
pub struct CommitSession {
    agent_prompt: String,
    query: String,
    codebase: String,
    attempt: u32,
    changes: FileReplacements,
    last_reply: String,
    build_output: String,
    wanted: Vec<String>,
    phase: Phase,
}

/// The name of a round, for logs.
pub open spec fn attempt_text(a: u32) -> Seq<char> {
    if a == 1 {
        "1"@
    } else if a == 2 {
        "2"@
    } else if a == 3 {
        "3"@
    } else {
        "4"@
    }
}

fn attempt_str(a: u32) -> (r: &'static str)
    ensures
        r@ == attempt_text(a),
{
    if a == 1 {
        "1"
    } else if a == 2 {
        "2"
    } else if a == 3 {
        "3"
    } else {
        "4"
    }
}

/// The changes after recording `us` one after the other.
pub open spec fn record_all(es: Seq<Change>, us: Seq<(Seq<char>, Option<Seq<char>>)>) -> Seq<Change>
    decreases us.len(),
{
    if us.len() == 0 {
        es
    } else {
        record_change(record_all(es, us.drop_last()), us.last().0, us.last().1)
    }
}

/// The files an extra-files reply asks for that are to be read: those the
/// codebase does not hold already and that the protection rules allow.
pub open spec fn wanted_files(
    root: Seq<char>,
    lines: Seq<Seq<char>>,
    existing: Seq<Seq<char>>,
    asked: Seq<Seq<char>>,
) -> Seq<Seq<char>>
    decreases asked.len(),
{
    if asked.len() == 0 {
        Seq::empty()
    } else {
        let pre = wanted_files(root, lines, existing, asked.drop_last());
        let p = asked.last();
        if !existing.contains(p) && protection_error(root, lines, p) is None {
            pre.push(p)
        } else {
            pre
        }
    }
}

/// The codebase with the files that could be read appended.
pub open spec fn with_files(codebase: Seq<char>, paths: Seq<Seq<char>>, contents: Seq<Option<Seq<char>>>) -> Seq<char>
    decreases paths.len(),
{
    if paths.len() == 0 {
        codebase
    } else {
        let pre = with_files(codebase, paths.drop_last(), contents.drop_last());
        match contents.last() {
            Some(c) => pre + file_block(paths.last(), c),
            None => pre,
        }
    }
}

impl CommitSession {
    pub closed spec fn phase(&self) -> Phase {
        self.phase
    }

    /// The round under way, from 1.
    pub closed spec fn attempt(&self) -> u32 {
        self.attempt
    }

    /// The codebase the model is shown.
    pub closed spec fn codebase(&self) -> Seq<char> {
        self.codebase@
    }

    /// The changes made so far, by path.
    pub closed spec fn changes(&self) -> Seq<Change> {
        self.changes@
    }

    /// The supervisor's query.
    pub closed spec fn query(&self) -> Seq<char> {
        self.query@
    }

    /// The output of the last failed build.
    pub closed spec fn build_output(&self) -> Seq<char> {
        self.build_output@
    }

    /// The reply whose changes are being built.
    pub closed spec fn last_reply(&self) -> Seq<char> {
        self.last_reply@
    }

    /// The files asked to be read.
    pub closed spec fn wanted(&self) -> Seq<Seq<char>> {
        self.wanted.deep_view()
    }

    /// What holds of every session: a round between 1 and `MAX_ATTEMPTS`,
    /// the changes listed by path, and a request for more files only while
    /// a round is left.
    pub closed spec fn wf(&self) -> bool {
        &&& 1 <= self.attempt <= MAX_ATTEMPTS
        &&& sorted_changes(self.changes@)
        &&& (self.phase == Phase::ExtraFilesReply || self.phase == Phase::ExtraFileContents)
            ==> self.attempt < MAX_ATTEMPTS
    }

    /// What the session waits for.
    pub fn waiting_for(&self) -> (p: Phase)
        ensures
            p == self.phase(),
    {
        self.phase
    }

    /// How many files the session asked to be read.
    pub fn wanted_count(&self) -> (n: usize)
        ensures
            n == self.wanted().len(),
    {
        self.wanted.len()
    }

    /// Starts the workflow on a codebase: the first request shows the
    /// instructions, the query and the codebase.
    pub fn start(system_prompts: &str, query: &str, codebase: String) -> (r: (CommitSession, CommitAction))
        ensures
            r.0.wf(),
            r.0.phase() == Phase::CodeReply,
            r.0.attempt() == 1,
            r.0.codebase() == codebase@,
            r.0.query() == query@,
            r.0.changes() == Seq::<Change>::empty(),
            r.1 matches CommitAction::Query { prompt, log_prefix } && prompt@ == initial_prompt(
                agent_prompt(system_prompts@, query@),
                codebase@,
            ) && log_prefix@ == "1-initial-query"@,
    {
        let ap = build_agent_prompt(system_prompts, query);
        let prompt = build_initial_prompt(ap.as_str(), codebase.as_str());
        let session = CommitSession {
            agent_prompt: ap,
            query: query.to_owned(),
            codebase,
            attempt: 1,
            changes: FileReplacements::new(),
            last_reply: String::new(),
            build_output: String::new(),
            wanted: Vec::new(),
            phase: Phase::CodeReply,
        };
        (session, CommitAction::Query { prompt, log_prefix: "1-initial-query".to_owned() })
    }

    /// The model's reply with changes: every change is recorded, then all
    /// of them are checked against the protection rules; if each passes
    /// they are to be carried out and built, otherwise (or if the reply
    /// cannot be read) the workflow ends with the error.
    pub fn on_code_reply(&mut self, reply: String, protection: &PathProtection) -> (r: CommitAction)
        requires
            old(self).wf(),
            old(self).phase() == Phase::CodeReply,
        ensures
            final(self).wf(),
            final(self).attempt() == old(self).attempt(),
            final(self).codebase() == old(self).codebase(),
            final(self).query() == old(self).query(),
            match parse_updates(lines_of(reply@), 0) {
                Err(_) => r matches CommitAction::Finish(Err(AppError::ResponseParsing(_)))
                    && final(self).phase() == Phase::Done,
                Ok(us) => {
                    &&& final(self).changes() == record_all(old(self).changes(), us)
                    &&& match first_refusal(protection.root(), protection.lines(), us.map_values(|u: (Seq<char>, Option<Seq<char>>)| u.0)) {
                        Some(m) => r matches CommitAction::Finish(Err(AppError::FileUpdate(x))) && x@ == m
                            && final(self).phase() == Phase::Done,
                        None => r matches CommitAction::ApplyAndBuild { updates } && updates.len() == us.len()
                            && (forall|i: int| 0 <= i < us.len() ==> (#[trigger] updates@[i]).path@
                            == path_cleaned(us[i].0) && opt_string_view(updates@[i].content) == us[i].1)
                            && final(self).phase() == Phase::BuildResult && final(self).last_reply() == reply@,
                    }
                },
            },
    {
        let updates = match parse_llm_response(reply.as_str()) {
            Ok(us) => us,
            Err(e) => {
                self.phase = Phase::Done;
                return CommitAction::Finish(Err(e));
            },
        };
        let ghost us = updates_view(updates@);
        let ghost start = self.changes@;
        let mut i: usize = 0;
        assert(us.take(0) =~= Seq::<(Seq<char>, Option<Seq<char>>)>::empty());
        while i < updates.len()
            invariant
                us == updates_view(updates@),
                i <= updates.len(),
                self.attempt == old(self).attempt,
                self.codebase@ == old(self).codebase@,
                self.query@ == old(self).query@,
                self.phase == old(self).phase,
                sorted_changes(self.changes@),
                self.changes@ == record_all(start, us.take(i as int)),
            decreases updates.len() - i,
        {
            let u = &updates[i];
            let content = match &u.content {
                Some(c) => Some(c.clone()),
                None => None,
            };
            assert(us.take(i + 1).drop_last() =~= us.take(i as int));
            assert(us.take(i + 1).last() == (u.path@, opt_string_view(u.content)));
            self.changes.record(u.path.as_str(), content);
            i += 1;
        }
        assert(us.take(i as int) =~= us);
        assert(update_paths(updates@) =~= us.map_values(|u: (Seq<char>, Option<Seq<char>>)| u.0));
        match plan_updates(protection, &updates) {
            Ok(planned) => {
                self.last_reply = reply;
                self.phase = Phase::BuildResult;
                CommitAction::ApplyAndBuild { updates: planned }
            },
            Err(e) => {
                self.phase = Phase::Done;
                CommitAction::Finish(Err(e))
            },
        }
    }

    /// The result of the build (its output, or the output of the failure):
    /// success ends the workflow with the reply that was built; a failure
    /// leads to a request for missing files while a round is left, and
    /// ends the workflow otherwise.
    pub fn on_build(&mut self, result: Result<String, String>) -> (r: CommitAction)
        requires
            old(self).wf(),
            old(self).phase() == Phase::BuildResult,
        ensures
            final(self).wf(),
            final(self).attempt() == old(self).attempt(),
            final(self).codebase() == old(self).codebase(),
            final(self).changes() == old(self).changes(),
            match result {
                Ok(_) => r matches CommitAction::Finish(Ok(text)) && text@ == old(self).last_reply()
                    && final(self).phase() == Phase::Done,
                Err(out) => if old(self).attempt() < MAX_ATTEMPTS {
                    &&& r matches CommitAction::Query { prompt, log_prefix }
                    &&& prompt@ == extra_code_prompt(codebase_files(lines_of(old(self).codebase())), out@)
                    &&& log_prefix@ == attempt_text(old(self).attempt()) + "-extra-code"@
                    &&& final(self).phase() == Phase::ExtraFilesReply
                    &&& final(self).build_output() == out@
                } else {
                    r matches CommitAction::Finish(Err(AppError::MaxAttemptsReached))
                        && final(self).phase() == Phase::Done
                },
            },
    {
        match result {
            Ok(_) => {
                self.phase = Phase::Done;
                let text = self.last_reply.clone();
                CommitAction::Finish(Ok(text))
            },
            Err(out) => {
                if self.attempt < MAX_ATTEMPTS {
                    let files = extract_filenames_from_codebase(self.codebase.as_str());
                    let prompt = build_extra_code_prompt(&files, out.as_str());
                    let mut log_prefix = attempt_str(self.attempt).to_owned();
                    log_prefix.append("-extra-code");
                    self.build_output = out;
                    self.phase = Phase::ExtraFilesReply;
                    CommitAction::Query { prompt, log_prefix }
                } else {
                    self.phase = Phase::Done;
                    CommitAction::Finish(Err(AppError::MaxAttemptsReached))
                }
            },
        }
    }

    /// The model's list of the files it needs: those the codebase does not
    /// hold already and that the protection rules allow are to be read.
    pub fn on_extra_files_reply(&mut self, reply: &str, protection: &PathProtection) -> (r: CommitAction)
        requires
            old(self).wf(),
            old(self).phase() == Phase::ExtraFilesReply,
        ensures
            final(self).wf(),
            final(self).attempt() == old(self).attempt(),
            final(self).codebase() == old(self).codebase(),
            final(self).changes() == old(self).changes(),
            final(self).build_output() == old(self).build_output(),
            final(self).phase() == Phase::ExtraFileContents,
            final(self).wanted() == wanted_files(
                protection.root(),
                protection.lines(),
                codebase_files(lines_of(old(self).codebase())),
                extra_files_from(lines_of(reply@), 0, false),
            ),
            r matches CommitAction::ReadFiles { paths } && paths.deep_view() == final(self).wanted(),
    {
        let asked = match parse_extra_files_response(reply) {
            Ok(v) => v,
            Err(_) => Vec::new(),
        };
        let existing = extract_filenames_from_codebase(self.codebase.as_str());
        let ghost av = asked.deep_view();
        let ghost ev = existing.deep_view();
        let mut out: Vec<String> = Vec::new();
        let mut i: usize = 0;
        assert(av.take(0) =~= Seq::<Seq<char>>::empty());
        while i < asked.len()
            invariant
                av == asked.deep_view(),
                ev == existing.deep_view(),
                i <= asked.len(),
                out.deep_view() == wanted_files(protection.root(), protection.lines(), ev, av.take(i as int)),
            decreases asked.len() - i,
        {
            let p = &asked[i];
            assert(av.take(i + 1).drop_last() =~= av.take(i as int));
            assert(av.take(i + 1).last() == p@);
            let mut known = false;
            let mut j: usize = 0;
            while j < existing.len()
                invariant
                    ev == existing.deep_view(),
                    j <= existing.len(),
                    known == (exists|t: int| 0 <= t < j && ev[t] == p@),
                decreases existing.len() - j,
            {
                assert(ev[j as int] == existing[j as int]@);
                if str_eq(existing[j].as_str(), p.as_str()) {
                    known = true;
                }
                j += 1;
            }
            proof {
                if ev.contains(p@) {
                    let t = choose|t: int| 0 <= t < ev.len() && ev[t] == p@;
                    assert(known);
                }
            }
            if !known && protection.validate(p.as_str()).is_ok() {
                let ghost before = out.deep_view();
                out.push(p.clone());
                assert(out.deep_view() =~= before.push(p@));
            }
            i += 1;
        }
        assert(av.take(i as int) =~= av);
        let paths = clone_strings(&out);
        self.wanted = out;
        self.phase = Phase::ExtraFileContents;
        CommitAction::ReadFiles { paths }
    }

    /// What was read of the wanted files (`None` for a file that could not
    /// be read): each one read is added to the codebase, and the next round
    /// starts with a repair request.
    pub fn on_extra_file_contents(&mut self, contents: Vec<Option<String>>) -> (r: CommitAction)
        requires
            old(self).wf(),
            old(self).phase() == Phase::ExtraFileContents,
            contents.len() == old(self).wanted().len(),
        ensures
            final(self).wf(),
            final(self).attempt() == old(self).attempt() + 1,
            final(self).changes() == old(self).changes(),
            final(self).query() == old(self).query(),
            final(self).phase() == Phase::CodeReply,
            final(self).codebase() == with_files(
                old(self).codebase(),
                old(self).wanted(),
                contents@.map_values(|c: Option<String>| opt_string_view(c)),
            ),
            r matches CommitAction::Query { prompt, log_prefix } && prompt@ == repair_prompt(
                old(self).query(),
                old(self).build_output(),
                final(self).codebase(),
                old(self).changes(),
            ) && log_prefix@ == attempt_text(final(self).attempt()) + "-repair"@,
    {
        let ghost cv = contents@.map_values(|c: Option<String>| opt_string_view(c));
        let ghost wv = self.wanted.deep_view();
        let ghost cb0 = self.codebase@;
        let mut i: usize = 0;
        assert(wv.take(0) =~= Seq::<Seq<char>>::empty());
        assert(cv.take(0) =~= Seq::<Option<Seq<char>>>::empty());
        while i < contents.len()
            invariant
                contents.len() == self.wanted.len(),
                wv == self.wanted.deep_view(),
                self.attempt == old(self).attempt,
                self.attempt < MAX_ATTEMPTS,
                self.changes@ == old(self).changes@,
                sorted_changes(self.changes@),
                self.query@ == old(self).query@,
                self.build_output@ == old(self).build_output@,
                self.phase == old(self).phase,
                cv == contents@.map_values(|c: Option<String>| opt_string_view(c)),
                i <= contents.len(),
                self.codebase@ == with_files(cb0, wv.take(i as int), cv.take(i as int)),
            decreases contents.len() - i,
        {
            assert(wv.take(i + 1).drop_last() =~= wv.take(i as int));
            assert(cv.take(i + 1).drop_last() =~= cv.take(i as int));
            assert(wv.take(i + 1).last() == self.wanted@[i as int]@);
            assert(cv.take(i + 1).last() == opt_string_view(contents@[i as int]));
            match &contents[i] {
                Some(c) => {
                    append_file_block(&mut self.codebase, self.wanted[i].as_str(), c.as_str());
                },
                None => {},
            }
            i += 1;
        }
        assert(wv.take(i as int) =~= wv);
        assert(cv.take(i as int) =~= cv);
        self.attempt = self.attempt + 1;
        self.phase = Phase::CodeReply;
        let prompt = build_repair_prompt(
            self.query.as_str(),
            self.build_output.as_str(),
            &self.changes,
            self.codebase.as_str(),
        );
        let mut log_prefix = attempt_str(self.attempt).to_owned();
        log_prefix.append("-repair");
        CommitAction::Query { prompt, log_prefix }
    }
}

fn clone_strings(v: &Vec<String>) -> (r: Vec<String>)
    ensures
        r.deep_view() == v.deep_view(),
{
    let mut out: Vec<String> = Vec::new();
    let mut i: usize = 0;
    while i < v.len()
        invariant
            i <= v.len(),
            out.deep_view() == v.deep_view().take(i as int),
        decreases v.len() - i,
    {
        let ghost before = out.deep_view();
        out.push(v[i].clone());
        assert(out.deep_view() =~= before.push(v[i as int]@));
        assert(v.deep_view().take(i + 1) =~= v.deep_view().take(i as int).push(v[i as int]@));
        i += 1;
    }
    assert(v.deep_view().take(i as int) =~= v.deep_view());
    out
}

} // verus!
