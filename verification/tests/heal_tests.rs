use git_notes::heal::{
    contains_text, find_new_commit, match_index, parse_commit_files, parse_head_history, parse_patch_id,
    CommitMetadata, HealMatch,
};

fn meta(sha: &str, subject: &str, patch: Option<&str>, files: &[&str]) -> CommitMetadata {
    CommitMetadata {
        sha: sha.to_string(),
        subject: subject.to_string(),
        patch_id: patch.map(|p| p.to_string()),
        changed_files: files.iter().map(|f| f.to_string()).collect(),
    }
}

#[test]
fn history_is_read() {
    let h = parse_head_history("aaa\tAdd feature\n\n  bbb\tFix: a\tb  \nccc\n");
    assert_eq!(h.len(), 3);
    assert_eq!(h[0].sha, "aaa");
    assert_eq!(h[0].subject, "Add feature");
    assert_eq!(h[1].sha, "bbb");
    assert_eq!(h[1].subject, "Fix: a\tb");
    assert_eq!(h[2].sha, "ccc");
    assert_eq!(h[2].subject, "");
    assert!(h[0].patch_id.is_none());
    assert!(h[0].changed_files.is_empty());
}

#[test]
fn files_and_patch_ids_are_read() {
    assert_eq!(parse_commit_files("src/a.rs\n \n src/b.rs \n"), vec!["src/a.rs".to_string(), "src/b.rs".to_string()]);
    assert_eq!(parse_patch_id("1234abcd 5678ef\n"), Some("1234abcd".to_string()));
    assert_eq!(parse_patch_id("  \n"), None);
    assert!(contains_text(&vec!["x".to_string(), "y".to_string()], &['y']));
    assert!(!contains_text(&vec!["x".to_string()], &['z']));
}

#[test]
fn patch_id_wins() {
    let head = vec![
        meta("new1", "Other", Some("p1"), &[]),
        meta("new2", "Add feature", Some("p2"), &[]),
    ];
    assert_eq!(find_new_commit(Some("p2"), Some("Add feature"), None, &head), Some(HealMatch::PatchId(1)));
}

#[test]
fn unique_subject_matches() {
    let head = vec![meta("n1", "Add feature", None, &[]), meta("n2", "Other", None, &[])];
    assert_eq!(find_new_commit(None, Some("  Add feature "), None, &head), Some(HealMatch::Subject(0)));
    assert_eq!(find_new_commit(Some("zz"), Some("Other"), None, &head), Some(HealMatch::Subject(1)));
}

#[test]
fn repeated_subject_needs_the_file() {
    let head = vec![
        meta("n1", "Fix", None, &["a.rs"]),
        meta("n2", "Fix", None, &["b.rs"]),
    ];
    assert_eq!(find_new_commit(None, Some("Fix"), Some("b.rs"), &head), Some(HealMatch::SubjectFile(1)));
    assert_eq!(find_new_commit(None, Some("Fix"), None, &head), None);
}

#[test]
fn file_and_subject_prefix() {
    let head = vec![
        meta("n1", "Refactor", None, &["x.rs"]),
        meta("n2", "Add feature X", None, &["x.rs"]),
    ];
    assert_eq!(find_new_commit(None, Some("Add feature"), Some("x.rs"), &head), Some(HealMatch::FilePrefix(1)));
    assert_eq!(find_new_commit(None, Some("Add feature"), Some("y.rs"), &head), None);
    assert_eq!(find_new_commit(None, None, Some("x.rs"), &head), None);
    assert_eq!(match_index(HealMatch::FilePrefix(1)), 1);
}

#[test]
fn amended_commit_is_found_by_its_subject() {
    // After `commit --amend` the content, and so the patch id, changed; the
    // subject is the same and names one commit of the new history.
    let head = vec![
        meta("f00d", "Add feature", Some("p-new"), &["file.txt"]),
        meta("beef", "Initial commit", Some("p-init"), &["file.txt"]),
    ];
    let m = find_new_commit(Some("p-old"), Some("Add feature"), Some("file.txt"), &head);
    assert_eq!(m, Some(HealMatch::Subject(0)));
    assert_eq!(head[match_index(m.unwrap())].sha, "f00d");
}
