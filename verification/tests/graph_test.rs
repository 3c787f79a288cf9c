use code_commit::auto_workflow::discovery::{find_next_task, next_stage, ModuleProgress};
use code_commit::auto_workflow::graph::{build_dependency_graph, parse_dependencies, DepsFile, ModuleNode};
use code_commit::auto_workflow::types::Stage;
use code_commit::error::AppError;

const ROOT: &str = "/tmp/graph-test";

fn spec_of(name: &str) -> String {
    format!("{ROOT}/src/{name}/UserSpecification.md")
}

fn deps_file(deps: &[&str]) -> DepsFile {
    let mut dep_content = String::from("# Module Dependencies\n\n");
    for dep in deps {
        dep_content.push_str(&format!("src/{dep}\n"));
    }
    DepsFile::Content(dep_content)
}

#[test]
fn test_dependency_graph_levels() {
    let modules = vec![spec_of("A"), spec_of("B"), spec_of("C"), spec_of("D")];
    let files = vec![deps_file(&["B"]), deps_file(&["C"]), deps_file(&[]), deps_file(&[])];
    let nodes = build_dependency_graph(ROOT, &modules, &files).expect("Build graph");
    let find_level = |name: &str| {
        nodes.iter().find(|n| n.path.ends_with(&format!("src/{name}"))).map(|n| n.level).unwrap()
    };
    assert_eq!(find_level("C"), 0);
    assert_eq!(find_level("D"), 0);
    assert_eq!(find_level("B"), 1);
    assert_eq!(find_level("A"), 2);
}

#[test]
fn test_cycle_detection() {
    let modules = vec![spec_of("A"), spec_of("B")];
    let files = vec![deps_file(&["B"]), deps_file(&["A"])];
    let result = build_dependency_graph(ROOT, &modules, &files);
    assert!(result.is_err());
    let err = result.err().unwrap().message();
    assert!(err.contains("Dependency cycle"));
}

#[test]
fn missing_and_unreadable_dependency_files() {
    let modules = vec![spec_of("A"), spec_of("B")];
    let files = vec![DepsFile::Missing, deps_file(&[])];
    let r = build_dependency_graph(ROOT, &modules, &files);
    assert_eq!(
        r.err(),
        Some(AppError::Config(format!("Module {ROOT}/src/A is missing ModuleDependencies.md")))
    );
    let files = vec![deps_file(&[]), DepsFile::Unreadable("denied".to_string())];
    let r = build_dependency_graph(ROOT, &modules, &files);
    assert_eq!(
        r.err(),
        Some(AppError::FileUpdate(format!("Failed to read dependencies for {ROOT}/src/B: denied")))
    );
}

#[test]
fn dependencies_that_are_not_modules_are_dropped() {
    let modules = vec![spec_of("A")];
    let files = vec![deps_file(&["Z", "A"])];
    let r = build_dependency_graph(ROOT, &modules, &files);
    // A depends on itself: a cycle.
    assert!(r.is_err());
    let files = vec![deps_file(&["Z"])];
    let nodes = build_dependency_graph(ROOT, &modules, &files).unwrap();
    assert_eq!(nodes.len(), 1);
    assert!(nodes[0].dependencies.is_empty());
    assert_eq!(nodes[0].level, 0);
}

#[test]
fn dependency_lines_skip_comments_and_blanks() {
    let ds = parse_dependencies("# Deps\n\n  src/a  \n#src/b\nsrc/c\n");
    assert_eq!(ds, vec!["src/a".to_string(), "src/c".to_string()]);
}

fn progress(spec: &str, records: [Option<&str>; 4]) -> ModuleProgress {
    ModuleProgress {
        spec: Some(spec.to_string()),
        records: records.iter().map(|r| r.map(|s| s.to_string())).collect(),
    }
}

fn graph(specs: &[&str], deps: &[&[&str]]) -> Vec<ModuleNode> {
    let modules: Vec<String> = specs.iter().map(|s| format!("{ROOT}/{s}/UserSpecification.md")).collect();
    let files: Vec<DepsFile> = deps
        .iter()
        .map(|ds| {
            let mut c = String::from("# Deps\n");
            for d in ds.iter() {
                c.push_str(&format!("\n{d}"));
            }
            DepsFile::Content(c)
        })
        .collect();
    build_dependency_graph(ROOT, &modules, &files).unwrap()
}

#[test]
fn test_find_next_task_stage_priority() {
    let nodes = graph(&["A", "B"], &[&[], &[]]);
    let mut ps = Vec::new();
    for n in &nodes {
        if n.path.ends_with("A") {
            ps.push(progress("# Spec", [Some("# Spec"), None, None, None]));
        } else {
            ps.push(progress("# Spec", [None, None, None, None]));
        }
    }
    let task = find_next_task(&nodes, &ps).unwrap().expect("Should find task");
    assert!(task.spec_path.ends_with("A/UserSpecification.md"));
    assert_eq!(task.stage, Stage::Implemented);
}

#[test]
fn test_find_next_task_level_priority() {
    let nodes = graph(&["src/A", "src/B"], &[&["src/B"], &[]]);
    let ps: Vec<ModuleProgress> = nodes.iter().map(|_| progress("# Spec", [None, None, None, None])).collect();
    let task = find_next_task(&nodes, &ps).unwrap().expect("Should find task");
    assert!(task.spec_path.ends_with("src/B/UserSpecification.md"));
}

#[test]
fn test_phase1_progression() {
    let nodes = graph(&["src/test_module"], &[&[]]);
    let spec = "# Test Module Spec";
    let mut recs: [Option<&str>; 4] = [None, None, None, None];
    let expected = [Stage::SelfConsistent, Stage::Implemented, Stage::Documented, Stage::HappyPathTested];
    for (i, st) in expected.iter().enumerate() {
        let task = find_next_task(&nodes, &vec![progress(spec, recs)]).unwrap().expect("Should have task");
        assert_eq!(task.stage, *st);
        assert!(task.spec_path.ends_with("src/test_module/UserSpecification.md"));
        recs[i] = Some(spec);
    }
    assert!(find_next_task(&nodes, &vec![progress(spec, recs)]).unwrap().is_none());
}

#[test]
fn test_phase1_spec_change_invalidates_steps() {
    let nodes = graph(&["src/mod"], &[&[]]);
    let original = "# Original";
    let recs = [Some(original), Some(original), Some(original), Some(original)];
    assert!(find_next_task(&nodes, &vec![progress(original, recs)]).unwrap().is_none());
    let task = find_next_task(&nodes, &vec![progress("# New", recs)]).unwrap().expect("Should have task");
    assert_eq!(task.stage, Stage::SelfConsistent);
}

#[test]
fn unreadable_spec_is_an_error() {
    let nodes = graph(&["src/m"], &[&[]]);
    let ps = vec![ModuleProgress { spec: None, records: vec![None, None, None, None] }];
    assert_eq!(
        find_next_task(&nodes, &ps).err(),
        Some(AppError::FileUpdate(format!("Could not read spec at {ROOT}/src/m/UserSpecification.md")))
    );
}

#[test]
fn next_stage_compares_with_the_current_text() {
    let recs = vec![Some("a".to_string()), Some("old".to_string()), None, None];
    assert_eq!(next_stage("a", &recs), Some(Stage::Implemented));
    let recs = vec![Some("a".to_string()), Some("a".to_string()), Some("a".to_string()), Some("a".to_string())];
    assert_eq!(next_stage("a", &recs), None);
}
