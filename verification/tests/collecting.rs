use std::cell::RefCell;

use git_down::{GitError, GitFileStatus, GitProcess};

fn record(x: char, y: char, filename: &str) -> GitFileStatus {
    GitFileStatus {
        x,
        y,
        filename: filename.to_string(),
        origname: None,
    }
}

#[test]
fn untracked_records_are_excluded() {
    let git_process = GitProcess {
        status_map: vec![record('?', '?', "new.txt"), record('M', ' ', "old.txt")],
    };
    let asked = RefCell::new(Vec::new());
    let diffs = git_process
        .get_diffs(|path: String| {
            asked.borrow_mut().push(path.clone());
            Some(format!("diff of {}", path))
        })
        .unwrap();
    assert_eq!(asked.into_inner(), vec!["old.txt".to_string()]);
    assert_eq!(diffs, vec!["diff of old.txt".to_string()]);
}

#[test]
fn selection_keeps_record_order() {
    let git_process = GitProcess {
        status_map: vec![
            record('M', ' ', "a.txt"),
            record('?', '?', "b.txt"),
            record('A', ' ', "c.txt"),
            record('?', '?', "d.txt"),
            record(' ', 'M', "e.txt"),
        ],
    };
    let diffs = git_process
        .get_diffs(|path: String| Some(format!("diff of {}", path)))
        .unwrap();
    assert_eq!(
        diffs,
        vec![
            "diff of a.txt".to_string(),
            "diff of c.txt".to_string(),
            "diff of e.txt".to_string(),
        ]
    );
}

#[test]
fn renames_are_diffed_against_destination() {
    let git_process = GitProcess {
        status_map: vec![GitFileStatus {
            x: 'R',
            y: ' ',
            filename: "new_name.txt".to_string(),
            origname: Some("old_name.txt".to_string()),
        }],
    };
    let diffs = git_process
        .get_diffs(|path: String| Some(format!("diff of {}", path)))
        .unwrap();
    assert_eq!(diffs, vec!["diff of new_name.txt".to_string()]);
}

#[test]
fn partially_untracked_records_are_excluded() {
    let git_process = GitProcess {
        status_map: vec![record('?', 'M', "half.txt"), record('M', '?', "other.txt")],
    };
    let diffs = git_process
        .get_diffs(|path: String| Some(format!("diff of {}", path)))
        .unwrap();
    assert!(diffs.is_empty());
}

#[test]
fn fetch_failure_aborts_collection() {
    let git_process = GitProcess {
        status_map: vec![
            record('M', ' ', "a.txt"),
            record('M', ' ', "b.txt"),
            record('M', ' ', "c.txt"),
        ],
    };
    let asked = RefCell::new(Vec::new());
    let err = git_process
        .get_diffs(|path: String| {
            asked.borrow_mut().push(path.clone());
            if path == "b.txt" {
                None
            } else {
                Some(format!("diff of {}", path))
            }
        })
        .unwrap_err();
    assert_eq!(err, GitError::DiffFetchFailed { path: "b.txt".to_string() });
    assert_eq!(
        asked.into_inner(),
        vec!["a.txt".to_string(), "b.txt".to_string()]
    );
}

#[test]
fn new_process_collects_nothing() {
    let git_process = GitProcess::new();
    assert!(git_process.status_map.is_empty());
    let diffs = git_process
        .get_diffs(|_path: String| -> Option<String> { unreachable!() })
        .unwrap();
    assert!(diffs.is_empty());
}

#[test]
fn status_then_diffs_end_to_end() {
    let mut git_process = GitProcess::new();
    git_process
        .check_status("M  a.txt\n?? b.txt\nR  old.rs -> new.rs\n")
        .unwrap();
    let diffs = git_process
        .get_diffs(|path: String| Some(format!("diff of {}", path)))
        .unwrap();
    assert_eq!(
        diffs,
        vec!["diff of a.txt".to_string(), "diff of new.rs".to_string()]
    );
}
