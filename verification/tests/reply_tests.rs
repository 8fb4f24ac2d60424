use git_notes::heal::{heal_step, CommitMetadata, HealMatch, HealStep};
use git_notes::health::note_blob_file;
use git_notes::ids::{id_simple, id_text};
use git_notes::learning::UserBehaviorProfile;
use git_notes::namespace::Namespace;
use git_notes::note::Note;
use git_notes::import::{bitbucket_import, github_import, gitlab_import, jira_import};
use git_notes::note::NoteStatus;
use git_notes::summary::{blob_summary_entry, gemini_reply, SummaryEntry};
use git_notes::tui::{App, AppMode, Key};

#[test]
fn github_reply_bytes_become_comments() {
    let reply = br#"[{"body":"nit","path":"src/a.rs","line":12,"user":{"login":"octo"}},{"path":"x"}]"#;
    let out = github_import(reply, "abc").ok().unwrap();
    assert_eq!(out.len(), 1);
    assert_eq!(out[0].body, "nit");
    assert_eq!(out[0].file, Some("src/a.rs".to_string()));
    assert_eq!(out[0].line, Some(12));
    assert_eq!(out[0].author, "octo");
    assert_eq!(out[0].commit, "abc");
    assert_eq!(github_import(b"{\"a\":1}", "abc").err(), Some("Failed to parse GitHub comments JSON".to_string()));
    assert_eq!(github_import(b"not json", "abc").err(), Some("Failed to parse GitHub comments JSON".to_string()));
}

#[test]
fn gitlab_reply_bytes_become_comments() {
    let reply = br#"[{"notes":[{"body":"fix","resolved":true,"author":{"name":"Dev"},
        "position":{"new_path":"a.rs","new_line":4,"head_sha":"feed"}},{"body":"sys","system":true}]}]"#;
    let out = gitlab_import(reply, "head").ok().unwrap();
    assert_eq!(out.len(), 1);
    assert_eq!(out[0].file, Some("a.rs".to_string()));
    assert_eq!(out[0].line, Some(4));
    assert_eq!(out[0].commit, "feed");
    assert_eq!(out[0].author, "Dev");
    assert_eq!(out[0].status, NoteStatus::Resolved);
    assert_eq!(gitlab_import(b"[", "head").err(), Some("Failed to parse GitLab discussions JSON".to_string()));
}

#[test]
fn bitbucket_and_jira_reply_errors() {
    assert_eq!(bitbucket_import(b"{}", "c").err(), Some("Bitbucket response missing 'values' array".to_string()));
    assert_eq!(bitbucket_import(b"<html>", "c").err(), Some("Failed to parse Bitbucket comments JSON".to_string()));
    assert_eq!(bitbucket_import(br#"{"values":[]}"#, "c").ok().map(|v| v.len()), Some(0));
    assert_eq!(jira_import(b"{}", "PROJ-1", "c").err(), Some("Jira response missing 'comments' array".to_string()));
    assert_eq!(jira_import(b"", "PROJ-1", "c").err(), Some("Failed to parse Jira comments JSON".to_string()));
    assert_eq!(jira_import(br#"{"comments":[]}"#, "PROJ-1", "c").ok().map(|v| v.len()), Some(0));
}

#[test]
fn note_blobs_name_their_file() {
    assert_eq!(note_blob_file(br#"{"file":"src/lib.rs","body":"x"}"#), Some("src/lib.rs".to_string()));
    assert_eq!(note_blob_file(br#"{"file":""}"#), None);
    assert_eq!(note_blob_file(b"plain text note"), None);
}

#[test]
fn blobs_and_replies_for_summaries() {
    let blob = br#"{"id":"0123456789","status":"Open","body":" hi ","author":"Ann","file":"a.rs","line_start":3}"#;
    match blob_summary_entry(blob, true) {
        Some(SummaryEntry::Note { file, line, body, author, .. }) => {
            assert_eq!(file, "a.rs");
            assert_eq!(line, 3);
            assert_eq!(body, "hi");
            assert_eq!(author, "Ann");
        }
        _ => panic!("expected a note entry"),
    }
    assert!(blob_summary_entry(br#"{"status":"Resolved"}"#, true).is_none());
    match blob_summary_entry(b"first line\nsecond", true) {
        Some(SummaryEntry::Raw(t)) => assert_eq!(t, "first line"),
        _ => panic!("expected a raw entry"),
    }
    assert!(blob_summary_entry(&[0xff, 0xfe], false).is_none());
    let reply = br#"{"candidates":[{"content":{"parts":[{"text":"All good"}]}}]}"#;
    assert_eq!(gemini_reply(reply), Ok("All good".to_string()));
    assert_eq!(gemini_reply(b"{}"), Err("Unexpected Gemini API response format".to_string()));
    assert_eq!(gemini_reply(b"oops"), Err("Failed to parse Gemini API response".to_string()));
}

#[test]
fn escape_goes_back_a_pane() {
    let mut app = App::new(".".to_string());
    app.mode = AppMode::NotePanel;
    app.selected_note = Some(0);
    let (running, saved) = app.handle_key(Key::Esc);
    assert!(running);
    assert!(saved.is_none());
    assert_eq!(app.mode, AppMode::DiffView);
    assert_eq!(app.selected_note, None);
    app.handle_key(Key::Esc);
    assert_eq!(app.mode, AppMode::FileTree);
}

#[test]
fn heal_step_decides_per_note() {
    let note = Note::new(
        "old".to_string(),
        Some("file.txt".to_string()),
        Some(1),
        Some(2),
        "Check this feature".to_string(),
        "Kim <kim@example.org>".to_string(),
        Namespace::Comments,
    );
    let head = vec![CommitMetadata {
        sha: "f00d".to_string(),
        subject: "Add feature".to_string(),
        patch_id: None,
        changed_files: vec![],
    }];
    assert!(matches!(heal_step(&note, true, None, &head, false), HealStep::AlreadyValid));
    assert!(matches!(heal_step(&note, false, None, &head, false), HealStep::Unresolved));
    match heal_step(&note, false, Some(HealMatch::Subject(0)), &head, false) {
        HealStep::Reanchor(n) => {
            assert_eq!(n.commit, "f00d");
            assert_eq!(n.id, note.id);
            assert_eq!(n.body, note.body);
        }
        _ => panic!("expected a re-anchored note"),
    }
    match heal_step(&note, false, Some(HealMatch::Subject(0)), &head, true) {
        HealStep::WouldReanchor(sha) => assert_eq!(sha, "f00d"),
        _ => panic!("expected a dry-run report"),
    }
}

#[test]
fn total_interactions_track_command_counts() {
    let mut p = UserBehaviorProfile::default();
    for cmd in ["add", "list", "add", "l"] {
        p.record_interaction(cmd, None, None);
    }
    let sum: u64 = p.command_counts.iter().map(|(_, c)| *c).sum();
    assert_eq!(p.total_interactions, sum);
    assert_eq!(sum, 4);
}

#[test]
fn ids_are_rendered_in_uuid_forms() {
    let id: u128 = 0x0123_4567_89ab_cdef_0123_4567_89ab_cdef;
    assert_eq!(id_text(id), "01234567-89ab-cdef-0123-456789abcdef");
    assert_eq!(id_simple(id), "0123456789abcdef0123456789abcdef");
    assert_eq!(id_text(id), uuid::Uuid::from_u128(id).to_string());
    assert_eq!(id_text(u128::MAX), uuid::Uuid::from_u128(u128::MAX).to_string());
    assert_eq!(id_simple(7), uuid::Uuid::from_u128(7).simple().to_string());
}

#[test]
fn report_and_pane_labels() {
    assert_eq!(git_notes::gate::blocking_location(Some("main.rs"), Some(12)), "main.rs:12");
    assert_eq!(git_notes::gate::blocking_location(Some("main.rs"), None), "main.rs");
    assert_eq!(git_notes::gate::blocking_location(None, Some(3)), "<global>");
    assert_eq!(git_notes::markdown::status_badge(NoteStatus::Approved), "[✔ Approved]");
    assert_eq!(git_notes::markdown::card_indent(true, true), "    ↳ ");
    assert_eq!(git_notes::markdown::card_indent(false, true), "▶ ");
    assert_eq!(git_notes::markdown::card_indent(false, false), "  ");
}

#[test]
fn healing_twice_keeps_the_moved_note() {
    let note = Note::new(
        "old".to_string(),
        Some("file.txt".to_string()),
        Some(1),
        Some(1),
        "Needs check".to_string(),
        "Kim <kim@example.org>".to_string(),
        Namespace::Comments,
    );
    let head = vec![CommitMetadata {
        sha: "f00d".to_string(),
        subject: "Feature 1".to_string(),
        patch_id: None,
        changed_files: vec!["file.txt".to_string()],
    }];
    let moved = match heal_step(&note, false, Some(HealMatch::Subject(0)), &head, false) {
        HealStep::Reanchor(n) => n,
        _ => panic!("expected a re-anchored note"),
    };
    let on_head = head.iter().any(|c| c.sha == moved.commit);
    assert!(on_head);
    assert!(matches!(heal_step(&moved, on_head, Some(HealMatch::Subject(0)), &head, false), HealStep::AlreadyValid));
}

#[test]
fn bullets_are_not_headings() {
    match git_notes::markdown::classify_body_line("  - item") {
        git_notes::markdown::BodyLine::Bullet(t) => assert_eq!(t, "item"),
        _ => panic!("expected a bullet"),
    }
    match git_notes::markdown::classify_body_line("## Title") {
        git_notes::markdown::BodyLine::Heading(l, t) => {
            assert_eq!(l, 2);
            assert_eq!(t, "Title");
        }
        _ => panic!("expected a heading"),
    }
}
