use code_commit::committing_code::response_parser::{parse_extra_files_response, parse_llm_response, FileUpdate};
use code_commit::context_builder::response_parser::parse_context_llm_response;
use code_commit::error::AppError;

#[test]
fn parses_single_file_replacement_minimal() {
    let input = "\
Preface text that the parser should ignore
^^^src/main.rs
fn main() {}
^^^end
Trailing notes are ignored too
";
    let updates = parse_llm_response(input).expect("parser should succeed");
    assert_eq!(updates.len(), 1);
    let FileUpdate { path, content } = &updates[0];
    assert_eq!(path, "src/main.rs");
    assert_eq!(content.as_deref(), Some("fn main() {}"));
}

#[test]
fn parses_two_files_in_order() {
    let input = "\
^^^src/a.rs
pub fn a() {}
^^^end
^^^src/b.rs
pub fn b() {}
^^^end
";
    let updates = parse_llm_response(input).expect("parser should succeed");
    assert_eq!(updates.len(), 2);
    assert_eq!(updates[0].path, "src/a.rs");
    assert_eq!(updates[0].content.as_deref(), Some("pub fn a() {}"));
    assert_eq!(updates[1].path, "src/b.rs");
    assert_eq!(updates[1].content.as_deref(), Some("pub fn b() {}"));
}

#[test]
fn creates_empty_file_block() {
    let input = "\
^^^src/lib.rs
^^^end
";
    let updates = parse_llm_response(input).expect("parser should succeed");
    assert_eq!(updates.len(), 1);
    assert_eq!(updates[0].path, "src/lib.rs");
    assert_eq!(updates[0].content.as_deref(), Some(""));
}

#[test]
fn parses_delete_file_block() {
    let input = "\
^^^some/old_file.txt
^^^delete
";
    let updates = parse_llm_response(input).expect("parser should succeed");
    assert_eq!(updates.len(), 1);
    let FileUpdate { path, content } = &updates[0];
    assert_eq!(path, "some/old_file.txt");
    assert!(content.is_none());
}

#[test]
fn preserves_trailing_blank_line_before_end() {
    let input = "\
^^^src/x.rs
line1

^^^end
";
    let updates = parse_llm_response(input).expect("parser should succeed");
    assert_eq!(updates.len(), 1);
    assert_eq!(updates[0].path, "src/x.rs");
    assert_eq!(updates[0].content.as_deref(), Some("line1\n"));
}

#[test]
fn preserves_internal_newlines() {
    let input = "\
^^^src/multi.rs
line1
line2
line3
^^^end
";
    let updates = parse_llm_response(input).expect("parser should succeed");
    assert_eq!(updates.len(), 1);
    assert_eq!(updates[0].path, "src/multi.rs");
    assert_eq!(updates[0].content.as_deref(), Some("line1\nline2\nline3"));
}

#[test]
fn preserves_duplicate_updates_for_same_path() {
    let input = "\
^^^src/dup.rs
first
^^^end
^^^src/dup.rs
second
^^^end
";
    let updates = parse_llm_response(input).expect("parser should succeed");
    assert_eq!(updates.len(), 2);
    assert_eq!(updates[0].path, "src/dup.rs");
    assert_eq!(updates[0].content.as_deref(), Some("first"));
    assert_eq!(updates[1].path, "src/dup.rs");
    assert_eq!(updates[1].content.as_deref(), Some("second"));
}

#[test]
fn unterminated_block_consumes_to_end() {
    let input = "\
^^^src/unterminated.rs
this block never ends
(no ^^^end)
and the parser will grab all remaining lines
";
    let updates = parse_llm_response(input).expect("parser should succeed");
    assert_eq!(updates.len(), 1);
    let content = updates[0].content.as_deref().unwrap();
    assert!(content.contains("this block never ends"));
    assert!(content.contains("grab all remaining lines"));
}

#[test]
fn ignores_stray_delete_and_end_lines() {
    let input = "\
^^^delete
some random line
^^^end
^^^src/file.rs
ok
^^^end
";
    let updates = parse_llm_response(input).expect("parser should succeed");
    assert_eq!(updates.len(), 1);
    assert_eq!(updates[0].path, "src/file.rs");
    assert_eq!(updates[0].content.as_deref(), Some("ok"));
}

#[test]
fn embedded_end_text_does_not_terminate() {
    let input = "\
^^^src/embedded.rs
println!(\"^^^end\");
still inside the block
^^^end
";
    let updates = parse_llm_response(input).expect("parser should succeed");
    assert_eq!(updates.len(), 1);
    let content = updates[0].content.as_deref().unwrap();
    assert!(content.contains("println!(\"^^^end\");"));
    assert!(content.contains("still inside the block"));
}

#[test]
fn parses_path_verbatim_even_if_suspicious() {
    let input = "\
^^^../etc/passwd
x
^^^end
";
    let updates = parse_llm_response(input).expect("parser should succeed");
    assert_eq!(updates.len(), 1);
    assert_eq!(updates[0].path, "../etc/passwd");
    assert_eq!(updates[0].content.as_deref(), Some("x"));
}

#[test]
fn header_without_filename_is_an_error() {
    let r = parse_llm_response("^^^\ncontent\n^^^end\n");
    assert_eq!(r, Err(AppError::ResponseParsing("Found '^^^' without a filename.".to_string())));
}

#[test]
fn parses_files_block() {
    let input = "
Some text
%%%files
src/foo.rs
src/bar/baz.rs
%%%end
More text
";
    let files = parse_extra_files_response(input).expect("should parse");
    assert_eq!(files.len(), 2);
    assert_eq!(files[0], "src/foo.rs");
    assert_eq!(files[1], "src/bar/baz.rs");
}

#[test]
fn handles_empty_block() {
    let input = "%%%files\n%%%end";
    let files = parse_extra_files_response(input).expect("should parse");
    assert!(files.is_empty());
}

#[test]
fn ignores_whitespace() {
    let input = "%%%files  \n  src/a.rs  \n  %%%end";
    let files = parse_extra_files_response(input).expect("should parse");
    assert_eq!(files.len(), 1);
    assert_eq!(files[0], "src/a.rs");
}

#[test]
fn extra_files_from_several_lists() {
    let input = "a.rs\n%%%files\nb.rs\n%%%end\nc.rs\n%%%files\nd.rs\n";
    let files = parse_extra_files_response(input).unwrap();
    assert_eq!(files, vec!["b.rs".to_string(), "d.rs".to_string()]);
}

#[test]
fn parses_basic_file_list() {
    let input = "\
%%%files
build.sh
Cargo.toml
src/main.rs
%%%end
";
    let files = parse_context_llm_response(input).expect("parser should succeed");
    assert_eq!(files, vec!["build.sh".to_string(), "Cargo.toml".to_string(), "src/main.rs".to_string()]);
}

#[test]
fn trims_and_ignores_blank_lines() {
    let input = "\
%%%files

  src/lib.rs  

src/thing.rs

%%%end
";
    let files = parse_context_llm_response(input).expect("parser should succeed");
    assert_eq!(files, vec!["src/lib.rs".to_string(), "src/thing.rs".to_string()]);
}

#[test]
fn empty_list_is_valid() {
    let input = "\
%%%files
%%%end
";
    let files = parse_context_llm_response(input).expect("parser should succeed");
    assert!(files.is_empty());
}

#[test]
fn context_list_errors() {
    assert_eq!(
        parse_context_llm_response("no list here"),
        Err(AppError::ResponseParsing(
            "Could not find '%%%files'...'%%%end' block in context LLM response.".to_string()
        ))
    );
    assert_eq!(
        parse_context_llm_response("%%%end\n%%%files\na\n%%%end"),
        Err(AppError::ResponseParsing("Found '%%%end' without a preceding '%%%files'.".to_string()))
    );
    assert_eq!(
        parse_context_llm_response("%%%files\na.rs\n"),
        Err(AppError::ResponseParsing("Found '%%%files' but no matching '%%%end'.".to_string()))
    );
}
