//! Command-line arguments: which model, which workflow, and the flags.
use vstd::prelude::*;
use crate::error::AppError;
use crate::text::{concat, str_eq};

verus! {

/// The language model to query.
#[derive(Debug, Clone, Copy, PartialEq, Eq, Structural, Hash)]
pub enum Model {
    Gemini3Pro,
    Gemini2_5Pro,
    Gpt5,
}

/// The workflow a run performs.
#[derive(Debug, Clone, Copy, PartialEq, Eq, Structural, Hash)]
pub enum Workflow {
    CommitCode,
    ConsistencyCheck,
    Rollup,
    Auto,
}

impl Default for Model {
    fn default() -> (r: Self)
        ensures
            r == Model::Gemini3Pro,
    {
        Model::Gemini3Pro
    }
}

impl Default for Workflow {
    fn default() -> (r: Self)
        ensures
            r == Workflow::CommitCode,
    {
        Workflow::CommitCode
    }
}

/// The parsed command line.
#[derive(Debug, Clone, Copy, PartialEq, Eq, Structural)]
pub struct CliArgs {
    pub model: Model,
    pub workflow: Workflow,
    pub force: bool,
    pub light_roll: bool,
}

/// What the scan of the arguments has gathered so far.
pub struct ArgScan {
    pub model: Model,
    pub workflow: Option<Workflow>,
    pub force: bool,
    pub light_roll: bool,
}

/// The model a `--model` value names.
pub open spec fn model_named(s: Seq<char>) -> Option<Model> {
    if s == "gemini-3-pro"@ {
        Some(Model::Gemini3Pro)
    } else if s == "gemini-2.5-pro"@ {
        Some(Model::Gemini2_5Pro)
    } else if s == "gpt-5"@ {
        Some(Model::Gpt5)
    } else {
        None
    }
}

pub open spec fn is_consistency_flag(a: Seq<char>) -> bool {
    a == "--consistency-check"@ || a == "--consistency"@ || a == "--cc"@
}

/// The workflow a workflow-selecting flag names.
pub open spec fn workflow_flag(a: Seq<char>) -> Option<Workflow> {
    if is_consistency_flag(a) {
        Some(Workflow::ConsistencyCheck)
    } else if a == "--rollup"@ {
        Some(Workflow::Rollup)
    } else if a == "--aw"@ {
        Some(Workflow::Auto)
    } else {
        None
    }
}

pub open spec fn multiple_workflows_msg() -> Seq<char> {
    "It is an error to trigger more than one workflow at a time."@
}

/// Scanning the arguments left to right from state `st`: the state reached
/// at the end, or the message of the first error met.
pub open spec fn scan_args(args: Seq<Seq<char>>, st: ArgScan) -> Result<ArgScan, Seq<char>>
    decreases args.len(),
{
    if args.len() == 0 {
        Ok(st)
    } else {
        let a = args[0];
        if a == "--model"@ {
            if args.len() < 2 {
                Err("Missing value for --model argument"@)
            } else {
                match model_named(args[1]) {
                    Some(m) => scan_args(args.skip(2), ArgScan { model: m, ..st }),
                    None => Err("Unsupported model: "@ + args[1]),
                }
            }
        } else if workflow_flag(a) is Some {
            if st.workflow is Some {
                Err(multiple_workflows_msg())
            } else {
                scan_args(args.skip(1), ArgScan { workflow: workflow_flag(a), ..st })
            }
        } else if a == "--light-roll"@ || a == "--lr"@ {
            scan_args(args.skip(1), ArgScan { light_roll: true, ..st })
        } else if a == "--force"@ || a == "--f"@ {
            scan_args(args.skip(1), ArgScan { force: true, ..st })
        } else {
            Err("Unknown argument: "@ + a)
        }
    }
}

pub open spec fn initial_scan() -> ArgScan {
    ArgScan { model: Model::Gemini3Pro, workflow: None, force: false, light_roll: false }
}

/// The command line the arguments (program name excluded) denote, or the
/// configuration error they raise.
pub open spec fn spec_parse_args(args: Seq<Seq<char>>) -> Result<CliArgs, Seq<char>> {
    match scan_args(args, initial_scan()) {
        Err(m) => Err(m),
        Ok(st) => {
            let wf = match st.workflow {
                Some(w) => w,
                None => Workflow::CommitCode,
            };
            if st.force && wf != Workflow::CommitCode {
                Err(
                    "The --force or --f flag can only be used with the 'committing-code' workflow."@,
                )
            } else if st.light_roll && wf != Workflow::Rollup {
                Err("The --light-roll flag can only be used with the --rollup workflow."@)
            } else {
                Ok(CliArgs { model: st.model, workflow: wf, force: st.force, light_roll: st.light_roll })
            }
        },
    }
}

impl Model {
    /// The model a `--model` value names; any other value is a
    /// configuration error.
    pub fn from_str(s: &str) -> (r: Result<Model, AppError>)
        ensures
            match model_named(s@) {
                Some(m) => r == Ok::<Model, AppError>(m),
                None => r matches Err(AppError::Config(msg)) && msg@ == "Unsupported model: "@
                    + s@,
            },
    {
        if str_eq(s, "gemini-3-pro") {
            Ok(Model::Gemini3Pro)
        } else if str_eq(s, "gemini-2.5-pro") {
            Ok(Model::Gemini2_5Pro)
        } else if str_eq(s, "gpt-5") {
            Ok(Model::Gpt5)
        } else {
            Err(AppError::Config(concat("Unsupported model: ", s)))
        }
    }
}

/// Parses the arguments that follow the program name.
pub fn parse_args(args: &Vec<String>) -> (r: Result<CliArgs, AppError>)
    ensures
        match spec_parse_args(args.deep_view()) {
            Ok(c) => r == Ok::<CliArgs, AppError>(c),
            Err(m) => r matches Err(AppError::Config(msg)) && msg@ == m,
        },
{
    let ghost all = args.deep_view();
    let mut model = Model::Gemini3Pro;
    let mut workflow: Option<Workflow> = None;
    let mut force = false;
    let mut light_roll = false;
    let mut i: usize = 0;
    assert(all.skip(0) == all);
    while i < args.len()
        invariant
            all == args.deep_view(),
            i <= args.len(),
            scan_args(all.skip(i as int), ArgScan { model, workflow, force, light_roll })
                == scan_args(all, initial_scan()),
        decreases args.len() - i,
    {
        let ghost rest = all.skip(i as int);
        let arg = args[i].as_str();
        assert(rest[0] == arg@);
        if str_eq(arg, "--model") {
            if i + 1 >= args.len() {
                return Err(AppError::Config("Missing value for --model argument".to_owned()));
            }
            assert(rest[1] == args[i + 1]@);
            model = Model::from_str(args[i + 1].as_str())?;
            assert(rest.skip(2) == all.skip(i + 2));
            i += 2;
        } else if str_eq(arg, "--consistency-check") || str_eq(arg, "--consistency") || str_eq(
            arg,
            "--cc",
        ) || str_eq(arg, "--rollup") || str_eq(arg, "--aw") {
            if workflow.is_some() {
                return Err(
                    AppError::Config(
                        "It is an error to trigger more than one workflow at a time.".to_owned(),
                    ),
                );
            }
            if str_eq(arg, "--consistency-check") || str_eq(arg, "--consistency") || str_eq(
                arg,
                "--cc",
            ) {
                workflow = Some(Workflow::ConsistencyCheck);
            } else if str_eq(arg, "--rollup") {
                workflow = Some(Workflow::Rollup);
            } else {
                workflow = Some(Workflow::Auto);
            }
            assert(rest.skip(1) == all.skip(i + 1));
            i += 1;
        } else if str_eq(arg, "--light-roll") || str_eq(arg, "--lr") {
            light_roll = true;
            assert(rest.skip(1) == all.skip(i + 1));
            i += 1;
        } else if str_eq(arg, "--force") || str_eq(arg, "--f") {
            force = true;
            assert(rest.skip(1) == all.skip(i + 1));
            i += 1;
        } else {
            return Err(AppError::Config(concat("Unknown argument: ", arg)));
        }
    }
    assert(all.skip(i as int).len() == 0);
    let final_workflow = match workflow {
        Some(w) => w,
        None => Workflow::CommitCode,
    };
    if force && final_workflow != Workflow::CommitCode {
        return Err(
            AppError::Config(
                "The --force or --f flag can only be used with the 'committing-code' workflow.".to_owned(),
            ),
        );
    }
    if light_roll && final_workflow != Workflow::Rollup {
        return Err(
            AppError::Config(
                "The --light-roll flag can only be used with the --rollup workflow.".to_owned(),
            ),
        );
    }
    Ok(CliArgs { model, workflow: final_workflow, force, light_roll })
}

/// A flag that selects no workflow.
pub open spec fn is_force_flag(a: Seq<char>) -> bool {
    a == "--force"@ || a == "--f"@
}

pub open spec fn is_light_roll_flag(a: Seq<char>) -> bool {
    a == "--light-roll"@ || a == "--lr"@
}

/// Every argument is a workflow flag, `--force`/`--f`,
/// `--light-roll`/`--lr`, or `--model` followed by a model's name.
pub open spec fn tokens_ok(args: Seq<Seq<char>>) -> bool
    decreases args.len(),
{
    if args.len() == 0 {
        true
    } else if args[0] == "--model"@ {
        args.len() >= 2 && model_named(args[1]) is Some && tokens_ok(args.skip(2))
    } else {
        (workflow_flag(args[0]) is Some || is_force_flag(args[0]) || is_light_roll_flag(args[0]))
            && tokens_ok(args.skip(1))
    }
}

/// The workflows the flags name, in order (a `--model` value is no flag).
pub open spec fn workflow_tokens(args: Seq<Seq<char>>) -> Seq<Workflow>
    decreases args.len(),
{
    if args.len() == 0 {
        Seq::empty()
    } else if args[0] == "--model"@ {
        if args.len() >= 2 {
            workflow_tokens(args.skip(2))
        } else {
            Seq::empty()
        }
    } else {
        match workflow_flag(args[0]) {
            Some(w) => seq![w] + workflow_tokens(args.skip(1)),
            None => workflow_tokens(args.skip(1)),
        }
    }
}

/// Whether `--force` or `--f` is given (a `--model` value is no flag).
pub open spec fn force_given(args: Seq<Seq<char>>) -> bool
    decreases args.len(),
{
    if args.len() == 0 {
        false
    } else if args[0] == "--model"@ {
        args.len() >= 2 && force_given(args.skip(2))
    } else {
        is_force_flag(args[0]) || force_given(args.skip(1))
    }
}

/// Whether `--light-roll` or `--lr` is given (a `--model` value is no
/// flag).
pub open spec fn light_roll_given(args: Seq<Seq<char>>) -> bool
    decreases args.len(),
{
    if args.len() == 0 {
        false
    } else if args[0] == "--model"@ {
        args.len() >= 2 && light_roll_given(args.skip(2))
    } else {
        is_light_roll_flag(args[0]) || light_roll_given(args.skip(1))
    }
}

/// The model the last `--model` names.
pub open spec fn last_model(args: Seq<Seq<char>>) -> Option<Model>
    decreases args.len(),
{
    if args.len() == 0 {
        None
    } else if args[0] == "--model"@ {
        if args.len() >= 2 {
            match last_model(args.skip(2)) {
                Some(m) => Some(m),
                None => model_named(args[1]),
            }
        } else {
            None
        }
    } else {
        last_model(args.skip(1))
    }
}

proof fn lemma_scan_args(args: Seq<Seq<char>>, st: ArgScan)
    ensures
        scan_args(args, st) is Ok <==> tokens_ok(args) && workflow_tokens(args).len() + (if st.workflow is Some {
            1int
        } else {
            0int
        }) <= 1,
        scan_args(args, st) matches Ok(s2) ==> {
            &&& s2.model == (match last_model(args) {
                Some(m) => m,
                None => st.model,
            })
            &&& s2.workflow == (if workflow_tokens(args).len() == 1 {
                Some(workflow_tokens(args)[0])
            } else {
                st.workflow
            })
            &&& s2.force == (st.force || force_given(args))
            &&& s2.light_roll == (st.light_roll || light_roll_given(args))
        },
    decreases args.len(),
{
    reveal_strlit("--model");
    reveal_strlit("--consistency-check");
    reveal_strlit("--consistency");
    reveal_strlit("--cc");
    reveal_strlit("--rollup");
    reveal_strlit("--aw");
    reveal_strlit("--light-roll");
    reveal_strlit("--lr");
    reveal_strlit("--force");
    reveal_strlit("--f");
    assert("--model"@.len() == 7 && "--force"@.len() == 7 && "--f"@.len() == 3);
    assert("--light-roll"@.len() == 12 && "--lr"@.len() == 4 && "--cc"@.len() == 4 && "--aw"@.len() == 4);
    assert("--rollup"@.len() == 8 && "--consistency"@.len() == 13 && "--consistency-check"@.len() == 19);
    assert("--model"@[2] == 'm' && "--force"@[2] == 'f' && "--lr"@[2] == 'l' && "--cc"@[2] == 'c'
        && "--aw"@[2] == 'a');
    if args.len() > 0 {
        let a = args[0];
        if a == "--model"@ {
            if args.len() >= 2 {
                match model_named(args[1]) {
                    Some(m) => lemma_scan_args(args.skip(2), ArgScan { model: m, ..st }),
                    None => {},
                }
            }
        } else if workflow_flag(a) is Some {
            lemma_scan_args(args.skip(1), ArgScan { workflow: workflow_flag(a), ..st });
        } else if is_light_roll_flag(a) {
            lemma_scan_args(args.skip(1), ArgScan { light_roll: true, ..st });
        } else if is_force_flag(a) {
            lemma_scan_args(args.skip(1), ArgScan { force: true, ..st });
        }
    }
}

/// The command line in words: it is accepted exactly when every argument
/// is a known flag or `--model` with a model's name, at most one workflow
/// is named, `--force` comes with no workflow flag, and `--light-roll`
/// only with `--rollup`.  Then the model is the last one named (else
/// Gemini 3 Pro), the workflow the one named (else committing code), and
/// each flag is set exactly when given.
pub proof fn lemma_parse_args_law(args: Seq<Seq<char>>)
    ensures
        spec_parse_args(args) is Ok <==> {
            &&& tokens_ok(args)
            &&& workflow_tokens(args).len() <= 1
            &&& force_given(args) ==> workflow_tokens(args).len() == 0
            &&& light_roll_given(args) ==> workflow_tokens(args) == seq![Workflow::Rollup]
        },
        spec_parse_args(args) matches Ok(c) ==> {
            &&& c.model == (match last_model(args) {
                Some(m) => m,
                None => Model::Gemini3Pro,
            })
            &&& c.workflow == (if workflow_tokens(args).len() == 1 {
                workflow_tokens(args)[0]
            } else {
                Workflow::CommitCode
            })
            &&& c.force == force_given(args)
            &&& c.light_roll == light_roll_given(args)
        },
{
    lemma_scan_args(args, initial_scan());
    let wt = workflow_tokens(args);
    if wt.len() == 1 {
        assert(wt[0] != Workflow::CommitCode) by {
            lemma_workflow_tokens_named(args);
        }
        if wt[0] == Workflow::Rollup {
            assert(wt =~= seq![Workflow::Rollup]);
        }
    }
}

/// A workflow flag never names the committing-code workflow.
proof fn lemma_workflow_tokens_named(args: Seq<Seq<char>>)
    ensures
        forall|i: int| 0 <= i < workflow_tokens(args).len() ==> #[trigger] workflow_tokens(args)[i]
            != Workflow::CommitCode,
    decreases args.len(),
{
    if args.len() > 0 {
        if args[0] == "--model"@ {
            if args.len() >= 2 {
                lemma_workflow_tokens_named(args.skip(2));
            }
        } else {
            lemma_workflow_tokens_named(args.skip(1));
            match workflow_flag(args[0]) {
                Some(w) => {
                    let rest = workflow_tokens(args.skip(1));
                    assert forall|i: int| 0 <= i < workflow_tokens(args).len() implies #[trigger] workflow_tokens(
                        args,
                    )[i] != Workflow::CommitCode by {
                        if i > 0 {
                            assert(workflow_tokens(args)[i] == rest[i - 1]);
                        }
                    }
                },
                None => {},
            }
        }
    }
}

} // verus!
