use git_notes::export::generate_markdown;
use git_notes::gate::{check_notes, failure_message, run, CheckArgs};
use git_notes::merge::{CompositeStrategy, LwwStrategy, MergeStrategy, UnionStrategy};
use git_notes::namespace::Namespace;
use git_notes::note::{Note, NoteStatus};
use git_notes::ids::Timestamp;

fn make_sample_note(file: &str, line: u32, body: &str) -> Note {
    Note::new(
        "commit123".to_string(),
        Some(file.to_string()),
        Some(line),
        None,
        body.to_string(),
        "Author <author@example.com>".to_string(),
        Namespace::Custom("comments".to_string()),
    )
}

#[test]
fn test_export_markdown_correctness() {
    let notes = vec![
        make_sample_note("src/b.rs", 10, "Note B"),
        make_sample_note("src/a.rs", 5, "Note A"),
        make_sample_note("src/b.rs", 20, "Note B2"),
    ];

    let md = generate_markdown(&notes);
    assert!(md.contains("## src/a.rs"));
    assert!(md.contains("## src/b.rs"));
    assert!(md.contains("Note A"));
    assert!(md.contains("Note B"));
    assert!(md.contains("Note B2"));
}

#[test]
fn markdown_orders_files_and_keeps_note_order() {
    let notes = vec![
        make_sample_note("src/b.rs", 10, "Note B"),
        make_sample_note("src/a.rs", 5, "Note A"),
        make_sample_note("src/b.rs", 20, "Note B2"),
    ];
    let md = generate_markdown(&notes);
    assert!(md.starts_with("# Git Notes\n\n## src/a.rs\n\n### Line 5 - Author <author@example.com> ("));
    let a = md.find("## src/a.rs").unwrap();
    let b = md.find("## src/b.rs").unwrap();
    let b1 = md.find("Note B\n").unwrap();
    let b2 = md.find("Note B2").unwrap();
    assert!(a < b && b < b1 && b1 < b2);
    assert!(md.contains("**Status:** Open\n\nNote A\n\n"));
    assert_eq!(md.matches("## src/b.rs").count(), 1);
}

#[test]
fn markdown_skips_notes_without_file() {
    let mut n = make_sample_note("x", 1, "Loose");
    n.file = None;
    assert_eq!(generate_markdown(&[n]), "# Git Notes\n\n");
}

fn note(commit: &str, status: NoteStatus) -> Note {
    let mut n = Note::new(
        commit.to_string(),
        Some("main.rs".to_string()),
        Some(1),
        Some(1),
        "body".to_string(),
        "Rita <rita@example.com>".to_string(),
        Namespace::Comments,
    );
    n.status = status;
    n
}

fn args(min: usize, no_unresolved: bool) -> CheckArgs {
    CheckArgs { min_approvals: min, no_unresolved, namespace: None, commit: None, json: false }
}

#[test]
fn gate_passes_with_an_approval() {
    let notes = vec![note("sha", NoteStatus::Approved)];
    let s = check_notes(&notes, &"sha".to_string(), &[], &args(1, true));
    assert!(s.passed);
    assert_eq!(s.total_notes, 1);
    assert_eq!(s.approved_count, 1);
    assert!(s.failure_reasons.is_empty());
    assert!(run(&notes, &"sha".to_string(), &[], &args(1, true)).is_ok());
}

#[test]
fn gate_fails_without_approvals() {
    let res = run(&[], &"sha".to_string(), &[], &args(1, false));
    let e = res.err().unwrap();
    assert!(e.contains("Approval threshold not met"));
    assert_eq!(e, "Quality gate failed: Approval threshold not met: required 1 approval(s), but found 0");
}

#[test]
fn gate_fails_on_rejected_note() {
    let notes = vec![note("sha", NoteStatus::Approved), note("sha", NoteStatus::Rejected)];
    let s = check_notes(&notes, &"sha".to_string(), &[], &args(1, false));
    assert!(!s.passed);
    assert_eq!(s.rejected_count, 1);
    assert_eq!(s.failure_reasons, vec!["Found 1 rejected note(s) requiring changes".to_string()]);
    assert_eq!(s.blocking_notes.len(), 1);
    assert_eq!(s.blocking_notes[0].status, "Rejected");
    assert_eq!(s.blocking_notes[0].reason, "Note is marked as Rejected");
    assert_eq!(s.blocking_notes[0].id, uuid::Uuid::from_u128(notes[1].id).to_string());
    let e = run(&notes, &"sha".to_string(), &[], &args(1, false)).err().unwrap();
    assert!(e.contains("rejected note"));
}

#[test]
fn gate_fails_on_open_notes_under_no_unresolved() {
    let notes = vec![note("sha", NoteStatus::Approved), note("old", NoteStatus::Open), note("elsewhere", NoteStatus::Rejected)];
    let ancestors = vec!["old".to_string()];
    let s = check_notes(&notes, &"sha".to_string(), &ancestors, &args(1, true));
    assert!(!s.passed);
    assert_eq!(s.total_notes, 2);
    assert_eq!(s.open_count, 1);
    assert_eq!(s.rejected_count, 0);
    assert_eq!(
        s.failure_reasons,
        vec!["--no-unresolved specified and 1 unresolved open note(s) remain".to_string()]
    );
    assert_eq!(s.blocking_notes[0].reason, "Unresolved note under --no-unresolved rule");
    let relaxed = check_notes(&notes, &"sha".to_string(), &ancestors, &args(1, false));
    assert!(relaxed.passed);
}

#[test]
fn failure_message_joins_reasons() {
    assert_eq!(failure_message(&["a".to_string(), "b".to_string()]), "Quality gate failed: a; b");
    assert_eq!(failure_message(&[]), "Quality gate failed: ");
}

fn stamped(id: u128, secs: i64, body: &str) -> Note {
    let mut n = Note::new("c".to_string(), None, None, None, body.to_string(), "a".to_string(), Namespace::Comments);
    n.id = id;
    n.timestamp = Timestamp { secs, nanos: 0 };
    n
}

#[test]
fn lww_keeps_the_latest_of_each_id() {
    let local = vec![stamped(1, 10, "old"), stamped(2, 5, "two")];
    let remote = vec![stamped(1, 20, "new"), stamped(3, 1, "three")];
    let merged = LwwStrategy.merge(&local, &remote);
    assert_eq!(merged.len(), 3);
    let one = merged.iter().find(|n| n.id == 1).unwrap();
    assert_eq!(one.body, "new");
    let back = LwwStrategy.merge(&remote, &local);
    assert_eq!(back.iter().find(|n| n.id == 1).unwrap().body, "new");
    assert_eq!(CompositeStrategy.merge(&local, &remote).iter().find(|n| n.id == 1).unwrap().body, "new");
}

#[test]
fn union_lets_remote_win() {
    let local = vec![stamped(1, 30, "local")];
    let remote = vec![stamped(1, 20, "remote")];
    let merged = UnionStrategy.merge(&local, &remote);
    assert_eq!(merged.len(), 1);
    assert_eq!(merged[0].body, "remote");
    assert_eq!(UnionStrategy.name(), "union");
    assert_eq!(LwwStrategy.name(), "lww");
    assert_eq!(CompositeStrategy.name(), "composite");
}

#[test]
fn merging_a_list_with_itself_keeps_one_of_each() {
    let notes = vec![stamped(7, 1, "x"), stamped(8, 2, "y")];
    let merged = LwwStrategy.merge(&notes, &notes);
    assert_eq!(merged.len(), 2);
}

fn gate_note(sha: &str, body: &str, author: &str, status: NoteStatus) -> Note {
    let mut n = Note::new(
        sha.to_string(),
        Some("main.rs".to_string()),
        Some(1),
        Some(1),
        body.to_string(),
        author.to_string(),
        Namespace::Comments,
    );
    n.status = status;
    n
}

#[test]
fn test_gate_pass_with_approval() {
    let sha = "c0ffee".to_string();
    let notes = vec![gate_note(&sha, "Looks good to me", "Noor <noor@example.org>", NoteStatus::Approved)];
    let res = run(&notes, &sha, &[], &args(1, true));
    assert!(res.is_ok());
}

#[test]
fn test_gate_fail_insufficient_approvals() {
    let sha = "c0ffee".to_string();
    let res = run(&[], &sha, &[], &args(1, false));
    assert!(res.is_err());
    assert!(res.err().unwrap().contains("Approval threshold not met"));
}

#[test]
fn test_gate_fail_rejected_note() {
    let sha = "c0ffee".to_string();
    let notes = vec![
        gate_note(&sha, "Approved note", "Lin <lin@example.org>", NoteStatus::Approved),
        gate_note(&sha, "Needs rework!", "Sam <sam@example.org>", NoteStatus::Rejected),
    ];
    let res = run(&notes, &sha, &[], &args(1, false));
    assert!(res.is_err());
    assert!(res.err().unwrap().contains("rejected note"));
}

#[test]
fn test_gate_fail_unresolved_open_notes() {
    let sha = "c0ffee".to_string();
    let notes = vec![
        gate_note(&sha, "Approved note", "Lin <lin@example.org>", NoteStatus::Approved),
        gate_note(&sha, "Questions about this", "Kim <kim@example.org>", NoteStatus::Open),
    ];
    let res = run(&notes, &sha, &[], &args(1, true));
    assert!(res.is_err());
    assert!(res.err().unwrap().contains("--no-unresolved"));
}

fn markdown_by_grouping(all_notes: &[Note]) -> String {
    let mut md = String::from("# Git Notes\n\n");
    let mut files: Vec<String> = all_notes.iter().filter_map(|n| n.file.clone()).collect();
    files.sort();
    files.dedup();
    for file in files {
        md.push_str(&format!("## {}\n\n", file));
        for note in all_notes.iter().filter(|n| n.file.as_deref() == Some(file.as_str())) {
            let when = chrono::DateTime::from_timestamp(note.timestamp.secs, note.timestamp.nanos).unwrap();
            md.push_str(&format!("### Line {} - {} ({})\n\n", note.line_start.unwrap_or(0), note.author, when));
            md.push_str(&format!("**Status:** {:?}\n\n", note.status));
            md.push_str(&format!("{}\n\n", note.body));
        }
    }
    md
}

#[test]
fn test_benchmark_markdown_export() {
    let mut notes = Vec::with_capacity(5_000);
    for f in 0..500 {
        let filename = format!("src/file_{:04}.rs", f);
        for i in 0..10 {
            notes.push(make_sample_note(&filename, i * 10, &format!("Note {}", i)));
        }
    }
    let start = std::time::Instant::now();
    let reference = markdown_by_grouping(&notes);
    let reference_time = start.elapsed();
    let start = std::time::Instant::now();
    let out = generate_markdown(&notes);
    let time = start.elapsed();
    println!("grouping: {:?}, generate_markdown: {:?}", reference_time, time);
    assert_eq!(reference, out);
}
