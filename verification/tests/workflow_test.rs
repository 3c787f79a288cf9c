use code_commit::committing_code::file_updater::PathProtection;
use code_commit::committing_code::prompts::{extract_filenames_from_codebase, FileReplacements};
use code_commit::committing_code::workflow::{CommitAction, CommitSession};
use code_commit::error::AppError;
use std::collections::{HashMap, VecDeque};

struct Mock {
    replies: VecDeque<String>,
    builds: VecDeque<Result<String, String>>,
    prompts: Vec<String>,
    prefixes: Vec<String>,
    files: HashMap<String, String>,
}

impl Mock {
    fn new(replies: Vec<&str>, builds: Vec<Result<&str, &str>>) -> Self {
        Mock {
            replies: replies.into_iter().map(|s| s.to_string()).collect(),
            builds: builds
                .into_iter()
                .map(|b| b.map(|s| s.to_string()).map_err(|s| s.to_string()))
                .collect(),
            prompts: Vec::new(),
            prefixes: Vec::new(),
            files: HashMap::new(),
        }
    }

    fn run(&mut self, codebase: &str, gitignore: Option<&str>) -> Result<String, AppError> {
        let protection = PathProtection::new_for_base_dir("/tmp/wf", gitignore).unwrap();
        let (mut session, mut action) = CommitSession::start("", "Fix the bug", codebase.to_string());
        let mut expect_code = true;
        loop {
            action = match action {
                CommitAction::Query { prompt, log_prefix } => {
                    self.prompts.push(prompt);
                    self.prefixes.push(log_prefix);
                    let reply = self.replies.pop_front().expect("model asked too often");
                    if expect_code {
                        session.on_code_reply(reply, &protection)
                    } else {
                        session.on_extra_files_reply(&reply, &protection)
                    }
                }
                CommitAction::ApplyAndBuild { updates } => {
                    for u in updates {
                        match u.content {
                            Some(c) => {
                                self.files.insert(u.path, c);
                            }
                            None => {
                                self.files.remove(&u.path);
                            }
                        }
                    }
                    let b = self.builds.pop_front().expect("built too often");
                    expect_code = false;
                    session.on_build(b)
                }
                CommitAction::ReadFiles { paths } => {
                    let contents = paths.iter().map(|p| self.files.get(p).cloned()).collect();
                    expect_code = true;
                    session.on_extra_file_contents(contents)
                }
                CommitAction::Finish(r) => return r,
            };
        }
    }
}

#[test]
fn test_happy_path_success_first_try() {
    let mut m = Mock::new(vec!["^^^src/main.rs\nfn main() { println!(\"fixed\"); }\n^^^end"], vec![Ok("EXIT CODE: 0")]);
    let r = m.run("fn main() {}", None).unwrap();
    assert!(r.contains("fixed"));
    assert!(m.files["src/main.rs"].contains("println!(\"fixed\")"));
    assert_eq!(m.prefixes, vec!["1-initial-query".to_string()]);
}

#[test]
fn test_happy_path_success_with_repair() {
    let mut m = Mock::new(
        vec![
            "^^^src/main.rs\nfn main() { broken }\n^^^end",
            "",
            "^^^src/main.rs\nfn main() { println!(\"repaired\"); }\n^^^end",
        ],
        vec![Err("EXIT CODE: 1\nerror"), Ok("EXIT CODE: 0")],
    );
    let r = m.run("fn main() {}", None).unwrap();
    assert!(r.contains("repaired"));
    assert!(m.files["src/main.rs"].contains("println!(\"repaired\")"));
    assert_eq!(m.prefixes, vec!["1-initial-query", "1-extra-code", "2-repair"]);
}

#[test]
fn test_happy_path_success_with_extra_code() {
    let mut m = Mock::new(
        vec![
            "^^^src/main.rs\nuse helper::help;\nfn main() { help(); }\n^^^end",
            "%%%files\nsrc/helper.rs\n%%%end",
            "^^^src/main.rs\nmod helper;\nuse helper::help;\nfn main() { help(); }\n^^^end",
        ],
        vec![Err("error: unresolved import"), Ok("EXIT CODE: 0")],
    );
    m.files.insert("src/helper.rs".to_string(), "pub fn help() {}".to_string());
    assert!(m.run("--- src/main.rs ---\nfn main() {}", None).is_ok());
    assert!(m.prompts.len() >= 3);
    assert!(m.prompts[2].contains("src/helper.rs"));
    assert!(m.prompts[2].contains("pub fn help() {}"));
}

#[test]
fn test_happy_path_success_max_repairs() {
    let bad = "^^^src/main.rs\ncompile_error!(\"fail\");\n^^^end";
    let good = "^^^src/main.rs\nfn main() {}\n^^^end";
    let mut m = Mock::new(vec![bad, "", bad, "", bad, "", good], vec![Err("fail"), Err("fail"), Err("fail"), Ok("EXIT CODE: 0")]);
    assert!(m.run("fn main() {}", None).is_ok());
}

#[test]
fn test_fail_after_max_repairs() {
    let bad = "^^^src/main.rs\ncompile_error!(\"fail\");\n^^^end";
    let mut m = Mock::new(vec![bad, "", bad, "", bad, "", bad], vec![Err("fail"), Err("fail"), Err("fail"), Err("fail")]);
    assert!(matches!(m.run("fn main() {}", None), Err(AppError::MaxAttemptsReached)));
    assert_eq!(m.prompts.len(), 7);
}

#[test]
fn test_happy_path_file_deletion_and_creation() {
    let mut m = Mock::new(
        vec!["^^^src/delete_me.rs\n^^^delete\n^^^src/new_file.rs\nfn new() {}\n^^^end"],
        vec![Ok("EXIT CODE: 0")],
    );
    m.files.insert("src/delete_me.rs".to_string(), "fn old() {}".to_string());
    assert!(m.run("--- src/delete_me.rs ---\nfn old() {}", None).is_ok());
    assert!(!m.files.contains_key("src/delete_me.rs"));
    assert!(m.files.contains_key("src/new_file.rs"));
}

#[test]
fn test_repair_propt_shows_deletion() {
    let mut m = Mock::new(
        vec!["^^^src/delete_me.rs\n^^^delete", "", "^^^src/main.rs\nfn main() {}\n^^^end"],
        vec![Err("error"), Ok("EXIT CODE: 0")],
    );
    assert!(m.run("--- src/delete_me.rs ---\nfn old() {}", None).is_ok());
    assert!(m.prompts[2].contains("--- FILE REMOVED src/delete_me.rs ---"));
}

#[test]
fn test_repair_prompt_accumulates_updates() {
    let mut m = Mock::new(
        vec![
            "^^^src/file1.rs\nfn f1() {}\n^^^end",
            "",
            "^^^src/file2.rs\nfn f2() {}\n^^^end",
            "",
            "^^^src/main.rs\nfn main() {}\n^^^end",
        ],
        vec![Err("e1"), Err("e2"), Ok("EXIT CODE: 0")],
    );
    assert!(m.run("fn main() {}", None).is_ok());
    assert!(m.prompts[2].contains("--- FILE REPLACEMENT src/file1.rs ---"));
    assert!(!m.prompts[2].contains("src/file2.rs"));
    assert!(m.prompts[4].contains("--- FILE REPLACEMENT src/file1.rs ---"));
    assert!(m.prompts[4].contains("--- FILE REPLACEMENT src/file2.rs ---"));
}

#[test]
fn test_extra_code_query_ignores_existing_and_protected_files() {
    let mut m = Mock::new(
        vec![
            "^^^src/main.rs\nfn main() { error }\n^^^end",
            "%%%files\nsrc/main.rs\nsecret.txt\nsrc/other.rs\n%%%end",
            "^^^src/main.rs\nfn main() {}\n^^^end",
        ],
        vec![Err("error"), Ok("EXIT CODE: 0")],
    );
    m.files.insert("src/other.rs".to_string(), "fn other() {}".to_string());
    m.files.insert("secret.txt".to_string(), "secret".to_string());
    assert!(m.run("--- src/main.rs ---\nfn main() {}", Some("secret.txt")).is_ok());
    let repair_prompt = &m.prompts[2];
    assert!(repair_prompt.contains("--- src/other.rs ---"));
    assert!(repair_prompt.contains("fn other() {}"));
    assert!(!repair_prompt.contains("--- secret.txt ---"));
    assert!(!repair_prompt.contains("secret"));
    assert_eq!(repair_prompt.match_indices("--- src/main.rs ---").count(), 1);
}

#[test]
fn test_repair_prompt_latest_version_only() {
    let mut m = Mock::new(
        vec![
            "^^^src/foo.rs\nfn foo() { \"Version 1\" }\n^^^end",
            "",
            "^^^src/foo.rs\nfn foo() { \"Version 2\" }\n^^^end",
            "",
            "^^^src/main.rs\nfn main() {}\n^^^end",
        ],
        vec![Err("fail 1"), Err("fail 2"), Ok("EXIT CODE: 0")],
    );
    assert!(m.run("fn main() {}", None).is_ok());
    let p = &m.prompts[4];
    assert!(p.contains("--- FILE REPLACEMENT src/foo.rs ---"));
    assert!(p.contains("Version 2"));
    assert!(!p.contains("Version 1"));
    assert_eq!(p.match_indices("--- FILE REPLACEMENT src/foo.rs ---").count(), 1);
}

#[test]
fn test_extra_code_query_allows_files_only_in_filenames_section() {
    let mut m = Mock::new(
        vec![
            "^^^src/main.rs\nfn main() { error }\n^^^end",
            "%%%files\nsrc/lib.rs\n%%%end",
            "^^^src/main.rs\nfn main() {}\n^^^end",
        ],
        vec![Err("error"), Ok("EXIT CODE: 0")],
    );
    m.files.insert("src/lib.rs".to_string(), "pub fn lib_fn() {}".to_string());
    let codebase = "--- FILENAMES ---\nsrc/lib.rs\n--- END FILENAMES ---\n\n--- src/main.rs ---\nfn main() {}";
    assert!(m.run(codebase, None).is_ok());
    assert!(m.prompts[2].contains("--- src/lib.rs ---"));
    assert!(m.prompts[2].contains("pub fn lib_fn() {}"));
}

#[test]
fn test_extra_code_query_skips_missing_files() {
    let mut m = Mock::new(
        vec![
            "^^^src/main.rs\nfn main() { error }\n^^^end",
            "%%%files\nsrc/does_not_exist.rs\n%%%end",
            "^^^src/main.rs\nfn main() {}\n^^^end",
        ],
        vec![Err("error"), Ok("EXIT CODE: 0")],
    );
    assert!(m.run("--- src/main.rs ---\nfn main() {}", None).is_ok());
    assert!(!m.prompts[2].contains("--- src/does_not_exist.rs ---"));
}

#[test]
fn protected_change_ends_the_workflow_before_any_write() {
    let mut m = Mock::new(vec!["^^^a.rs\nx\n^^^end\n^^^build.sh\nrm -rf /\n^^^end"], vec![]);
    let r = m.run("", None);
    assert_eq!(
        r,
        Err(AppError::FileUpdate("Modification of critical file 'build.sh' is not allowed.".to_string()))
    );
    assert!(m.files.is_empty());
}

#[test]
fn filenames_of_a_codebase() {
    let cb = "--- FILENAMES ---\nsrc/lib.rs\n--- END FILENAMES ---\n--- a.rs ---\nx\n--- FILE REPLACEMENT b.rs ---\n--- FILE REMOVED c.rs ---\n--- --- d.rs --- ---\n";
    assert_eq!(extract_filenames_from_codebase(cb), vec!["a.rs".to_string(), "d.rs".to_string()]);
}

#[test]
fn replacements_are_listed_by_path_and_keep_the_first_spelling() {
    let mut r = FileReplacements::new();
    r.record("src/b.rs", Some("b".to_string()));
    r.record("src/./a.rs", Some("a1".to_string()));
    r.record("src/a.rs", None);
    r.record("src//c.rs", Some("c\n".to_string()));
    assert_eq!(
        r.format(),
        "--- FILE REMOVED src/./a.rs ---\n\n--- FILE REPLACEMENT src/b.rs ---\nb\n\n--- FILE REPLACEMENT src//c.rs ---\nc\n\n"
    );
}
