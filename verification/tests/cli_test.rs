use code_commit::cli::{parse_args, CliArgs, Model, Workflow};
use code_commit::error::AppError;

fn to_string_vec(args: &[&str]) -> Vec<String> {
    args.iter().map(|s| s.to_string()).collect()
}

#[test]
fn test_no_args() {
    let args = to_string_vec(&[]);
    let result = parse_args(&args).unwrap();
    assert_eq!(
        result,
        CliArgs { model: Model::Gemini3Pro, workflow: Workflow::CommitCode, force: false, light_roll: false }
    );
}

#[test]
fn test_model_arg() {
    let args_gpt5 = to_string_vec(&["--model", "gpt-5"]);
    let result_gpt5 = parse_args(&args_gpt5).unwrap();
    assert_eq!(
        result_gpt5,
        CliArgs { model: Model::Gpt5, workflow: Workflow::CommitCode, force: false, light_roll: false }
    );

    let args_gemini25 = to_string_vec(&["--model", "gemini-2.5-pro"]);
    let result_gemini25 = parse_args(&args_gemini25).unwrap();
    assert_eq!(
        result_gemini25,
        CliArgs { model: Model::Gemini2_5Pro, workflow: Workflow::CommitCode, force: false, light_roll: false }
    );

    let args_gemini3 = to_string_vec(&["--model", "gemini-3-pro"]);
    let result_gemini3 = parse_args(&args_gemini3).unwrap();
    assert_eq!(
        result_gemini3,
        CliArgs { model: Model::Gemini3Pro, workflow: Workflow::CommitCode, force: false, light_roll: false }
    );
}

#[test]
fn test_invalid_model() {
    let args = to_string_vec(&["--model", "gpt-4"]);
    let result = parse_args(&args);
    assert!(result.is_err());
}

#[test]
fn test_model_missing_value() {
    let args = to_string_vec(&["--model"]);
    let result = parse_args(&args);
    assert!(result.is_err());
}

#[test]
fn test_consistency_check_workflow() {
    let args = to_string_vec(&["--consistency-check"]);
    let result = parse_args(&args).unwrap();
    assert_eq!(result.workflow, Workflow::ConsistencyCheck);

    let args = to_string_vec(&["--consistency"]);
    let result = parse_args(&args).unwrap();
    assert_eq!(result.workflow, Workflow::ConsistencyCheck);

    let args = to_string_vec(&["--cc"]);
    let result = parse_args(&args).unwrap();
    assert_eq!(result.workflow, Workflow::ConsistencyCheck);
}

#[test]
fn test_rollup_workflow() {
    let args = to_string_vec(&["--rollup"]);
    let result = parse_args(&args).unwrap();
    assert_eq!(result.workflow, Workflow::Rollup);
    assert!(!result.light_roll);
}

#[test]
fn test_auto_workflow() {
    let args = to_string_vec(&["--aw"]);
    let result = parse_args(&args).unwrap();
    assert_eq!(result.workflow, Workflow::Auto);
}

#[test]
fn test_force_flag() {
    let args = to_string_vec(&["--force"]);
    let result = parse_args(&args).unwrap();
    assert_eq!(result.workflow, Workflow::CommitCode);
    assert!(result.force);

    let args = to_string_vec(&["--f"]);
    let result = parse_args(&args).unwrap();
    assert_eq!(result.workflow, Workflow::CommitCode);
    assert!(result.force);
}

#[test]
fn test_force_with_consistency_is_error() {
    let args = to_string_vec(&["--f", "--cc"]);
    assert!(parse_args(&args).is_err());
}

#[test]
fn test_force_with_rollup_is_error() {
    let args = to_string_vec(&["--f", "--rollup"]);
    assert!(parse_args(&args).is_err());
}

#[test]
fn test_force_with_aw_is_error() {
    let args = to_string_vec(&["--f", "--aw"]);
    assert!(parse_args(&args).is_err());
}

#[test]
fn test_multiple_workflows_is_error() {
    let args = to_string_vec(&["--cc", "--consistency"]);
    assert!(parse_args(&args).is_err());

    let args = to_string_vec(&["--cc", "--rollup"]);
    assert!(parse_args(&args).is_err());

    let args = to_string_vec(&["--rollup", "--consistency"]);
    assert!(parse_args(&args).is_err());

    let args = to_string_vec(&["--aw", "--cc"]);
    assert!(parse_args(&args).is_err());
}

#[test]
fn test_unknown_argument() {
    let args = to_string_vec(&["--unknown-arg"]);
    assert!(parse_args(&args).is_err());
}

#[test]
fn test_model_and_force() {
    let args = to_string_vec(&["--model", "gpt-5", "--f"]);
    let result = parse_args(&args).unwrap();
    assert_eq!(
        result,
        CliArgs { model: Model::Gpt5, workflow: Workflow::CommitCode, force: true, light_roll: false }
    );

    let args = to_string_vec(&["--f", "--model", "gpt-5"]);
    let result = parse_args(&args).unwrap();
    assert_eq!(
        result,
        CliArgs { model: Model::Gpt5, workflow: Workflow::CommitCode, force: true, light_roll: false }
    );
}

#[test]
fn test_light_roll_with_rollup() {
    let args = to_string_vec(&["--rollup", "--light-roll"]);
    let result = parse_args(&args).unwrap();
    assert_eq!(result.workflow, Workflow::Rollup);
    assert!(result.light_roll);

    let args = to_string_vec(&["--light-roll", "--rollup"]);
    let result = parse_args(&args).unwrap();
    assert_eq!(result.workflow, Workflow::Rollup);
    assert!(result.light_roll);

    let args = to_string_vec(&["--rollup", "--lr"]);
    let result = parse_args(&args).unwrap();
    assert_eq!(result.workflow, Workflow::Rollup);
    assert!(result.light_roll);
}

#[test]
fn test_light_roll_without_rollup_is_error() {
    let args = to_string_vec(&["--light-roll"]);
    assert!(parse_args(&args).is_err());

    let args = to_string_vec(&["--lr"]);
    assert!(parse_args(&args).is_err());
}

#[test]
fn test_light_roll_with_other_workflow_is_error() {
    let args = to_string_vec(&["--light-roll", "--cc"]);
    assert!(parse_args(&args).is_err());

    let args = to_string_vec(&["--lr", "--cc"]);
    assert!(parse_args(&args).is_err());
}

#[test]
fn cli_error_messages_name_the_problem() {
    let r = parse_args(&to_string_vec(&["--model", "gpt-4"]));
    assert_eq!(r, Err(AppError::Config("Unsupported model: gpt-4".to_string())));
    let r = parse_args(&to_string_vec(&["--bogus"]));
    assert_eq!(r, Err(AppError::Config("Unknown argument: --bogus".to_string())));
    let r = parse_args(&to_string_vec(&["--model"]));
    assert_eq!(r, Err(AppError::Config("Missing value for --model argument".to_string())));
    let r = parse_args(&to_string_vec(&["--cc", "--aw"]));
    assert_eq!(
        r,
        Err(AppError::Config("It is an error to trigger more than one workflow at a time.".to_string()))
    );
    let r = parse_args(&to_string_vec(&["--f", "--cc"]));
    assert_eq!(
        r,
        Err(AppError::Config(
            "The --force or --f flag can only be used with the 'committing-code' workflow.".to_string()
        ))
    );
    let r = parse_args(&to_string_vec(&["--lr"]));
    assert_eq!(
        r,
        Err(AppError::Config("The --light-roll flag can only be used with the --rollup workflow.".to_string()))
    );
}

#[test]
fn model_from_str_names() {
    assert_eq!(Model::from_str("gpt-5"), Ok(Model::Gpt5));
    assert_eq!(Model::from_str("gemini-3-pro"), Ok(Model::Gemini3Pro));
    assert!(Model::from_str("gemini-3").is_err());
}
