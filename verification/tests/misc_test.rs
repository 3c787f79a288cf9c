use code_commit::build_report::{build_outcome, build_result, int_to_string};
use code_commit::codebase_assembler::{assemble_codebase, files_to_assemble};
use code_commit::committing_code::file_updater::PathProtection;
use code_commit::committing_code::git_status::check_for_uncommitted_changes;
use code_commit::consistency::{build_consistency_agent_prompt, build_consistency_prompt};
use code_commit::context_builder::context::{assemble_context, build_context_query, readable_prefix};
use code_commit::context_builder::path_filter::PathFilter;
use code_commit::context_builder::summary_builder::{build_summary, summary_root_files, ModuleListing};
use code_commit::error::AppError;
use code_commit::init::{cargo_toml_with_name, create_in_dir, files_to_write, run_init_command};
use code_commit::paths::{join, path_parent, paths_equal, strip_prefix};
use code_commit::prompts::{CONSISTENCY_CHECK, CONTEXT_BUILDER_CONTEXT_QUERY, PROJECT_STRUCTURE};
use code_commit::sorting::{sort_paths, sort_strings};

#[test]
fn build_outcome_reports_exit_code_and_streams() {
    assert_eq!(
        build_outcome(Some(0), "Hello World\n", ""),
        Ok("EXIT CODE: 0\n\nSTDOUT:\nHello World\n\n\nSTDERR:\n".to_string())
    );
    let f = build_outcome(Some(1), "", "Some Error\n").unwrap_err();
    assert!(f.output.contains("EXIT CODE: 1"));
    assert!(f.output.contains("STDERR:\nSome Error"));
    let f = build_outcome(None, "", "").unwrap_err();
    assert!(f.output.starts_with("EXIT CODE: Signal terminated\n"));
    assert_eq!(int_to_string(-2147483648), "-2147483648");
    assert_eq!(int_to_string(127), "127");
    let r = build_result(true, "a", "b");
    assert!(r.success);
    assert_eq!(r.output, "STDOUT:\na\n\nSTDERR:\nb");
}

#[test]
fn uncommitted_changes_to_allowed_files_are_listed_once_sorted() {
    let protection = PathProtection::new(Some("target/\n")).unwrap();
    let out = " M src/main.rs\n M build.sh\n M agent-config/key.txt\n?? b.txt\nR  old.txt -> new.txt\n M src/main.rs\n";
    match check_for_uncommitted_changes(out, &protection) {
        Err(AppError::Config(msg)) => {
            assert!(msg.starts_with("Uncommitted changes found in files that can be modified by the LLM:\n- b.txt\n- new.txt\n- old.txt\n- src/main.rs\n\n"));
            assert!(!msg.contains("build.sh"));
            assert!(!msg.contains("agent-config/key.txt"));
            assert!(msg.ends_with("use the --force or --f flag."));
        }
        other => panic!("Expected Config error, got {other:?}"),
    }
    assert!(check_for_uncommitted_changes("", &protection).is_ok());
    assert!(check_for_uncommitted_changes(" M build.sh\n?? UserSpecification.md\n M target/x\n", &protection).is_ok());
}

#[test]
fn context_query_and_assembly() {
    assert_eq!(
        build_context_query("NEXT", "SUM"),
        format!("{CONTEXT_BUILDER_CONTEXT_QUERY}\n\n=== Next Agent Full Prompt ===\nNEXT\n\n=== Codebase Summary ===\nSUM")
    );
    let filter = PathFilter::new_for_base_dir("/tmp/ctx", Some("secret.txt")).unwrap();
    let paths = vec!["a.rs".to_string(), "b.rs".to_string(), "secret.txt".to_string(), "c.rs".to_string()];
    let (n, refusal) = readable_prefix(&filter, &paths);
    assert_eq!(n, 2);
    assert!(refusal.is_some());
    let contents = vec![Ok("A".to_string()), Ok("B\n".to_string())];
    let r = assemble_context(&paths, &contents, refusal);
    assert!(matches!(r, Err(AppError::FileUpdate(ref m)) if m.contains("matches a rule in .gitignore")));
    let r = assemble_context(&paths, &contents, None).unwrap();
    assert_eq!(r, "--- a.rs ---\nA\n\n--- b.rs ---\nB\n\n");
    let r = assemble_context(&paths, &vec![Ok("A".to_string()), Err("gone".to_string())], None);
    assert_eq!(r, Err(AppError::FileUpdate("Failed to read file for codebase b.rs: gone".to_string())));
}

fn no_reads() -> Vec<Option<Result<String, String>>> {
    vec![None, None, None, None, None]
}

#[test]
fn test_build_summary_mandatory_file_ignored() {
    let filter = PathFilter::new(Some("/target\nCargo.toml")).unwrap();
    let mut reads = no_reads();
    reads[0] = Some(Ok("/target\nCargo.toml".to_string()));
    reads[2] = Some(Ok("[package]".to_string()));
    let result = build_summary(&filter, &reads, &vec![], &vec![], &vec![]);
    match result {
        Err(AppError::Config(msg)) => assert!(msg.contains("Mandatory file 'Cargo.toml' is ignored by .gitignore")),
        other => panic!("Expected a Config error, got {other:?}"),
    }
}

#[test]
fn test_build_summary_no_src_directory() {
    let filter = PathFilter::new(Some("")).unwrap();
    let mut reads = no_reads();
    reads[0] = Some(Ok("".to_string()));
    reads[2] = Some(Ok("[package]".to_string()));
    let top = vec!["./Cargo.toml".to_string(), "./.gitignore".to_string()];
    let summary = build_summary(&filter, &reads, &top, &vec![], &vec![]).unwrap();
    assert!(summary.contains("--- Cargo.toml ---\n[package]\n\n"));
    assert!(!summary.contains("src/"));
    assert!(!summary.contains("=== src"));
}

#[test]
fn test_missing_optional_root_files() {
    let filter = PathFilter::new(Some("")).unwrap();
    let mut reads = no_reads();
    reads[0] = Some(Ok("".to_string()));
    reads[2] = Some(Ok("[package]".to_string()));
    let summary = build_summary(&filter, &reads, &vec![], &vec![], &vec![]).unwrap();
    assert!(summary.contains("--- .gitignore ---\n\n\n"));
    assert!(summary.contains("--- Cargo.toml ---\n[package]\n\n"));
    assert!(!summary.contains("--- build.sh ---"));
    assert!(!summary.contains("--- LLMInstructions.md ---"));
    assert!(!summary.contains("--- UserSpecification.md ---"));
}

#[test]
fn summary_lists_files_and_described_modules_in_order() {
    let filter = PathFilter::new(None).unwrap();
    assert_eq!(summary_root_files(), vec![".gitignore", "build.sh", "Cargo.toml", "LLMInstructions.md", "UserSpecification.md"]);
    let modules = vec![
        ModuleListing {
            name: "zeta".to_string(),
            files: vec!["src/zeta/b.rs".to_string(), "src/zeta/a.rs".to_string()],
            internal_dependencies: Some(Ok("ID".to_string())),
            public_api: Some(Ok("API".to_string())),
        },
        ModuleListing {
            name: "alpha".to_string(),
            files: vec!["src/alpha/x.rs".to_string()],
            internal_dependencies: None,
            public_api: Some(Ok("API".to_string())),
        },
    ];
    let s = build_summary(&filter, &no_reads(), &vec!["./b".to_string(), "./a".to_string()], &vec!["src/main.rs".to_string()], &modules).unwrap();
    assert_eq!(
        s,
        "=== Project Root ===\n\n--- FILENAMES ---\n./a\n./b\nsrc/main.rs\n--- END FILENAMES ---\n\n=== src/zeta ===\n\n--- src/zeta/InternalDependencies.md ---\nID\n\n--- src/zeta/PublicAPI.md ---\nAPI\n\n--- FILENAMES ---\nsrc/zeta/a.rs\nsrc/zeta/b.rs\n--- END FILENAMES ---\n\n"
    );
}

#[test]
fn init_skeleton() {
    assert_eq!(
        cargo_toml_with_name("demo"),
        "[package]\nname = \"demo\"\nversion = \"0.1.0\"\nedition = \"2021\"\n\n[dependencies]\n"
    );
    let plan = create_in_dir("/tmp/p", "demo");
    assert_eq!(plan.dirs, vec!["/tmp/p/agent-config", "/tmp/p/agent-config/logs", "/tmp/p/src"]);
    assert_eq!(plan.files.len(), 6);
    assert_eq!(plan.files[0].0, "/tmp/p/.gitignore");
    assert!(plan.files[0].1.contains("/agent-config"));
    assert_eq!(plan.files[2].1, cargo_toml_with_name("demo"));
    assert_eq!(plan.files[5], ("/tmp/p/agent-config/query.txt".to_string(), String::new()));
    assert_eq!(run_init_command("x").dirs[0], "./agent-config");
}

#[test]
fn consistency_prompts() {
    let ap = build_consistency_agent_prompt("my query");
    assert_eq!(ap, format!("{PROJECT_STRUCTURE}\n{CONSISTENCY_CHECK}\n[supervisor query]\nmy query"));
    assert_eq!(build_consistency_prompt(&ap, "CB"), format!("{ap}\n[codebase]\nCB"));
}

#[test]
fn codebase_assembly_skips_the_tool_and_unreadable_files() {
    let paths = vec!["./src/b.rs".to_string(), "./code-commit".to_string(), "./a.txt".to_string()];
    let files = files_to_assemble(&paths);
    assert_eq!(files, vec!["./a.txt".to_string(), "./src/b.rs".to_string()]);
    let text = assemble_codebase(&files, &vec![Some("A".to_string()), None]);
    assert_eq!(text, "--- ./a.txt ---\nA\n\n");
}

#[test]
fn path_helpers() {
    assert_eq!(join("a", "b"), "a/b");
    assert_eq!(join("a/", "b"), "a/b");
    assert_eq!(join("a", "/b"), "/b");
    assert_eq!(path_parent("a/b/c"), Some("a/b".to_string()));
    assert_eq!(path_parent("/"), None);
    assert_eq!(strip_prefix("/x/y/z", "/x"), Some("y/z".to_string()));
    assert_eq!(strip_prefix("x/y", "y"), None);
    assert!(paths_equal("a/./b/", "a/b"));
    assert!(!paths_equal("./a", "a"));
    assert_eq!(sort_paths(&vec!["b".to_string(), "a/b".to_string(), "a".to_string()]), vec!["a", "a/b", "b"]);
    assert_eq!(sort_strings(&vec!["b".to_string(), "B".to_string(), "a".to_string()]), vec!["B", "a", "b"]);
}

#[test]
fn init_writes_only_missing_files() {
    let plan = create_in_dir("p", "demo");
    let mut exists = vec![false; plan.files.len()];
    exists[0] = true;
    exists[2] = true;
    let written = files_to_write(&plan, &exists);
    assert_eq!(written.len(), plan.files.len() - 2);
    assert_eq!(written[0].0, "p/build.sh");
    assert!(written.iter().all(|(p, _)| p != "p/.gitignore" && p != "p/Cargo.toml"));
    let all = vec![true; plan.files.len()];
    assert!(files_to_write(&plan, &all).is_empty());
    let none = vec![false; plan.files.len()];
    assert_eq!(files_to_write(&plan, &none), plan.files);
}

#[test]
fn whitespace_only_status_is_clean_whatever_its_lines() {
    let protection = PathProtection::new(None).unwrap();
    assert!(check_for_uncommitted_changes("  \n\n", &protection).is_ok());
}
