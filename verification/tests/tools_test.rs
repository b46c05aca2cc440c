use chrono_h::error::Error;
use chrono_h::tools::ToolSet;

#[test]
fn test_read_file_with_offset() {
    let content = "line1\nline2\nline3\nline4\nline5";
    let result = ToolSet::select_lines(content, Some(1), Some(2));
    assert_eq!(result, "line2\nline3");
}

#[test]
fn read_without_offset_or_limit_gives_every_line() {
    let content = "line1\nline2\nline3";
    assert_eq!(ToolSet::select_lines(content, None, None), content);
}

#[test]
fn read_drops_carriage_returns_and_final_line_ending() {
    assert_eq!(ToolSet::select_lines("a\r\nb\r\n", None, None), "a\nb");
    assert_eq!(ToolSet::select_lines("a\rb", None, None), "a\rb");
    assert_eq!(ToolSet::select_lines("a\n\nb\n", None, None), "a\n\nb");
}

#[test]
fn read_window_edges() {
    let content = "one\ntwo\nthree";
    assert_eq!(ToolSet::select_lines(content, Some(7), None), "");
    assert_eq!(ToolSet::select_lines(content, Some(2), Some(10)), "three");
    assert_eq!(ToolSet::select_lines(content, None, Some(0)), "");
    assert_eq!(ToolSet::select_lines("", Some(0), Some(3)), "");
    assert_eq!(ToolSet::select_lines(content, None, Some(usize::MAX)), content);
}

#[test]
fn test_edit_file_precise() {
    let result = ToolSet::edited_content("hello world", "world", "rust").unwrap();
    assert_eq!(result, "hello rust");
}

#[test]
fn edit_replaces_every_occurrence_without_overlap() {
    assert_eq!(ToolSet::edited_content("a-b-a", "a", "x").unwrap(), "x-b-x");
    assert_eq!(ToolSet::edited_content("aaa", "aa", "b").unwrap(), "ba");
    assert_eq!(ToolSet::edited_content("héllo wörld", "ö", "o").unwrap(), "héllo world");
}

#[test]
fn edit_with_empty_target_inserts_everywhere() {
    assert_eq!(ToolSet::edited_content("ab", "", "X").unwrap(), "XaXbX");
    assert_eq!(ToolSet::edited_content("", "", "X").unwrap(), "X");
}

#[test]
fn edit_with_same_text_leaves_file_unchanged() {
    assert_eq!(ToolSet::edited_content("x y x", "x", "x").unwrap(), "x y x");
}

#[test]
fn edit_with_missing_target_fails() {
    match ToolSet::edited_content("hello world", "rust", "go") {
        Err(Error::Validation(m)) => assert_eq!(m, "Edit target not found in file: rust"),
        _ => panic!("expected a validation error"),
    }
}

#[test]
fn test_bash_execution() {
    let result = ToolSet::command_outcome(
        "echo 'hello'",
        "hello\n".to_string(),
        String::new(),
        Some(0),
        true,
    )
    .unwrap();

    assert!(result.success);
    assert!(result.stdout.contains("hello"));
    assert!(result.exit_code == Some(0));
}

#[test]
fn test_bash_timeout() {
    let err = ToolSet::timeout_error(1, "sleep 10");
    match err {
        Error::Validation(m) => assert_eq!(m, "Command timed out after 1 seconds: sleep 10"),
        _ => panic!("expected a validation error"),
    }
}

#[test]
fn failing_command_with_stderr_is_an_error() {
    let r = ToolSet::command_outcome("false", String::new(), "boom".to_string(), Some(1), false);
    match r {
        Err(Error::ToolExecution { command, stderr }) => {
            assert_eq!(command, "false");
            assert_eq!(stderr, "boom");
        }
        _ => panic!("expected a tool execution error"),
    }
}

#[test]
fn failing_command_without_stderr_is_reported() {
    let r = ToolSet::command_outcome("false", String::new(), String::new(), Some(1), false).unwrap();
    assert!(!r.success);
    assert_eq!(r.exit_code, Some(1));
}

#[test]
fn succeeding_command_with_stderr_is_reported() {
    let r = ToolSet::command_outcome("x", "o".to_string(), "warn".to_string(), Some(0), true).unwrap();
    assert_eq!(r.stderr, "warn");
}
