use git_down::parse::{parse_status_line, parse_status_report, split_lines, split_tokens};
use git_down::{GitError, GitFileStatus, GitProcess};

#[test]
fn parses_plain_modification() {
    let record = parse_status_line("M  file.txt").unwrap();
    assert_eq!(record.x, 'M');
    assert_eq!(record.y, ' ');
    assert_eq!(record.filename, "file.txt");
    assert_eq!(record.origname, None);
}

#[test]
fn parses_two_code_line() {
    let record = parse_status_line("MM both.rs").unwrap();
    assert_eq!(record.x, 'M');
    assert_eq!(record.y, 'M');
    assert_eq!(record.filename, "both.rs");
    assert_eq!(record.origname, None);
}

#[test]
fn parses_worktree_only_change() {
    let record = parse_status_line(" M local.rs").unwrap();
    assert_eq!(record.x, ' ');
    assert_eq!(record.y, 'M');
    assert_eq!(record.filename, "local.rs");
    assert_eq!(record.origname, None);
}

#[test]
fn parses_rename() {
    let record = parse_status_line("R  old_name.txt -> new_name.txt").unwrap();
    assert_eq!(record.x, 'R');
    assert_eq!(record.y, ' ');
    assert_eq!(record.filename, "new_name.txt");
    assert_eq!(record.origname, Some("old_name.txt".to_string()));
}

#[test]
fn parses_untracked() {
    let record = parse_status_line("?? new.txt").unwrap();
    assert_eq!(record.x, '?');
    assert_eq!(record.y, '?');
    assert_eq!(record.filename, "new.txt");
    assert_eq!(record.origname, None);
}

#[test]
fn keeps_line_order() {
    let report = "M  a.txt\nA  b.txt\n?? c.txt\n";
    let records = parse_status_report(report).unwrap();
    assert_eq!(records.len(), 3);
    assert_eq!(records[0].filename, "a.txt");
    assert_eq!(records[1].filename, "b.txt");
    assert_eq!(records[2].filename, "c.txt");
}

#[test]
fn rejects_short_line() {
    let err = parse_status_line("M").unwrap_err();
    assert_eq!(err, GitError::MalformedStatusLine { line: "M".to_string() });
}

#[test]
fn rejects_empty_line() {
    let err = parse_status_line("").unwrap_err();
    assert_eq!(err, GitError::MalformedStatusLine { line: String::new() });
}

#[test]
fn rejects_missing_path() {
    let err = parse_status_line("??").unwrap_err();
    assert_eq!(err, GitError::MalformedStatusLine { line: "??".to_string() });
}

#[test]
fn rejects_rename_without_destination() {
    let err = parse_status_line("R  old.txt ->").unwrap_err();
    assert_eq!(err, GitError::MalformedRenameLine { line: "R  old.txt ->".to_string() });
}

#[test]
fn rejects_marker_glued_to_paths() {
    let err = parse_status_line("R  old.txt->new.txt").unwrap_err();
    assert_eq!(
        err,
        GitError::MalformedRenameLine { line: "R  old.txt->new.txt".to_string() }
    );
}

#[test]
fn rejects_marker_without_original() {
    let err = parse_status_line("R ->").unwrap_err();
    assert_eq!(err, GitError::MalformedRenameLine { line: "R ->".to_string() });
}

#[test]
fn report_fails_fast_with_no_records() {
    let mut git_process = GitProcess::new();
    let err = git_process.check_status("M  a.txt\nM\nA  b.txt\n").unwrap_err();
    assert_eq!(err, GitError::MalformedStatusLine { line: "M".to_string() });
    assert!(git_process.status_map.is_empty());
}

#[test]
fn parsing_twice_yields_identical_records() {
    let report = "M  a.txt\nR  b.txt -> c.txt\n?? d.txt\n";
    let first = parse_status_report(report).unwrap();
    let second = parse_status_report(report).unwrap();
    assert_eq!(first, second);
}

#[test]
fn handles_crlf_line_endings() {
    let records = parse_status_report("M  a.txt\r\nA  b.txt\r\n").unwrap();
    assert_eq!(records.len(), 2);
    assert_eq!(records[0].filename, "a.txt");
    assert_eq!(records[1].filename, "b.txt");
}

#[test]
fn empty_report_has_no_records() {
    let records = parse_status_report("").unwrap();
    assert!(records.is_empty());
}

#[test]
fn check_status_stores_records() {
    let mut git_process = GitProcess::new();
    git_process.check_status("M  a.txt\n?? b.txt\n").unwrap();
    assert_eq!(git_process.status_map.len(), 2);
    assert_eq!(git_process.status_map[0].filename, "a.txt");
    assert_eq!(git_process.status_map[1].filename, "b.txt");
}

#[test]
fn splits_lines_and_keeps_inner_empties() {
    let lines = split_lines("a\n\nb");
    assert_eq!(lines, vec!["a".to_string(), String::new(), "b".to_string()]);
}

#[test]
fn splits_tokens_on_runs_of_whitespace() {
    let tokens = split_tokens("MM \t a.txt  b.txt");
    assert_eq!(
        tokens,
        vec!["MM".to_string(), "a.txt".to_string(), "b.txt".to_string()]
    );
}

#[test]
fn record_equality_is_by_fields() {
    let left = GitFileStatus {
        x: 'M',
        y: ' ',
        filename: "a.txt".to_string(),
        origname: None,
    };
    let right = parse_status_line("M  a.txt").unwrap();
    assert_eq!(left, right);
}
