use git_notes::diff::{parse_diff_hunks, try_parse_diff_hunks, HunkAnchor};
use git_notes::namespace::Namespace;
use git_notes::note::{Note, NoteStatus};

#[test]
fn test_parse_diff_hunks_single_file_and_hunk() {
    let patch = r#"diff --git a/src/main.rs b/src/main.rs
index 1234567..89abcde 100644
--- a/src/main.rs
+++ b/src/main.rs
@@ -10,5 +15,20 @@ fn main() {
 println!("hello");
"#;
    let anchors = parse_diff_hunks(patch);
    assert_eq!(anchors.len(), 1);
    assert_eq!(
        anchors[0],
        HunkAnchor {
            file: "src/main.rs".to_string(),
            line_start: 15,
            line_end: 34,
            commit: "pending".to_string(),
        }
    );
}

#[test]
fn test_parse_diff_hunks_multiple_files_and_hunks() {
    let patch = r#"diff --git a/foo.rs b/foo.rs
--- a/foo.rs
+++ b/foo.rs
@@ -1,3 +1,5 @@
 foo line 1
@@ -10,2 +20,4 @@
 foo line 2
diff --git a/bar.rs b/bar.rs
--- a/bar.rs
+++ b/bar.rs
@@ -5,10 +100,2 @@
 bar line 1
"#;
    let anchors = parse_diff_hunks(patch);
    assert_eq!(anchors.len(), 3);
    assert_eq!(
        anchors[0],
        HunkAnchor {
            file: "foo.rs".to_string(),
            line_start: 1,
            line_end: 5,
            commit: "pending".to_string(),
        }
    );
    assert_eq!(
        anchors[1],
        HunkAnchor {
            file: "foo.rs".to_string(),
            line_start: 20,
            line_end: 23,
            commit: "pending".to_string(),
        }
    );
    assert_eq!(
        anchors[2],
        HunkAnchor {
            file: "bar.rs".to_string(),
            line_start: 100,
            line_end: 101,
            commit: "pending".to_string(),
        }
    );
}

#[test]
fn test_parse_diff_hunks_default_line_count() {
    let patch = r#"--- a/file.rs
+++ b/file.rs
@@ -1 +10 @@
 context line
"#;
    let anchors = parse_diff_hunks(patch);
    assert_eq!(anchors.len(), 1);
    assert_eq!(
        anchors[0],
        HunkAnchor {
            file: "file.rs".to_string(),
            line_start: 10,
            line_end: 10,
            commit: "pending".to_string(),
        }
    );
}

#[test]
fn test_parse_diff_hunks_empty_and_malformed() {
    assert!(parse_diff_hunks("").is_empty());
    assert!(parse_diff_hunks("just some random text\nno diff headers").is_empty());
    assert!(parse_diff_hunks("+++ b/file.rs\nno hunk headers").is_empty());

    let malformed = r#"+++ b/file.rs
@@ malformed hunk line @@
@@ - + @@
@@ -1,2 +invalid @@
"#;
    assert!(parse_diff_hunks(malformed).is_empty());
}

#[test]
fn test_hunk_anchor_matches_note() {
    let anchor = HunkAnchor {
        file: "src/lib.rs".to_string(),
        line_start: 10,
        line_end: 20,
        commit: "pending".to_string(),
    };

    let ns = Namespace::Comments;

    let note_overlap = Note::new(
        "pending".to_string(),
        Some("src/lib.rs".to_string()),
        Some(15),
        Some(18),
        "Overlap note".to_string(),
        "Author".to_string(),
        ns.clone(),
    );
    assert!(anchor.matches_note(&note_overlap));

    let note_before = Note::new(
        "pending".to_string(),
        Some("src/lib.rs".to_string()),
        Some(1),
        Some(5),
        "Before note".to_string(),
        "Author".to_string(),
        ns.clone(),
    );
    assert!(!anchor.matches_note(&note_before));

    let note_after = Note::new(
        "pending".to_string(),
        Some("src/lib.rs".to_string()),
        Some(25),
        Some(30),
        "After note".to_string(),
        "Author".to_string(),
        ns.clone(),
    );
    assert!(!anchor.matches_note(&note_after));

    let note_file_level = Note::new(
        "pending".to_string(),
        Some("src/lib.rs".to_string()),
        None,
        None,
        "File note".to_string(),
        "Author".to_string(),
        ns.clone(),
    );
    assert!(anchor.matches_note(&note_file_level));

    let note_other_file = Note::new(
        "pending".to_string(),
        Some("src/other.rs".to_string()),
        Some(15),
        Some(18),
        "Other file note".to_string(),
        "Author".to_string(),
        ns.clone(),
    );
    assert!(!anchor.matches_note(&note_other_file));

    let note_other_commit = Note::new(
        "other_commit".to_string(),
        Some("src/lib.rs".to_string()),
        Some(15),
        Some(18),
        "Other commit note".to_string(),
        "Author".to_string(),
        ns.clone(),
    );
    assert!(!anchor.matches_note(&note_other_commit));

    let note_no_file = Note::new(
        "pending".to_string(),
        None,
        Some(15),
        Some(18),
        "No file note".to_string(),
        "Author".to_string(),
        ns.clone(),
    );
    assert!(anchor.matches_note(&note_no_file));
}

#[test]
fn diff_hunk_with_zero_count_ends_at_start() {
    let anchors = parse_diff_hunks("+++ b/x.rs\n@@ -3,2 +7,0 @@\n");
    assert_eq!(anchors.len(), 1);
    assert_eq!(anchors[0].line_start, 7);
    assert_eq!(anchors[0].line_end, 7);
}

#[test]
fn diff_hunk_that_overflows_is_refused() {
    assert!(try_parse_diff_hunks("+++ b/x.rs\n@@ -1 +4294967295,3 @@\n").is_none());
    assert!(try_parse_diff_hunks("+++ b/x.rs\n@@ -1 +4,3 @@\n").is_some());
}

#[test]
fn test_from_str_builtin_without_prefix() {
    assert_eq!(Namespace::from_str("comments"), Namespace::Comments);
    assert_eq!(Namespace::from_str("review"), Namespace::Review);
    assert_eq!(Namespace::from_str("todos"), Namespace::Todos);
}

#[test]
fn test_from_str_builtin_with_prefix() {
    assert_eq!(Namespace::from_str("refs/notes/comments"), Namespace::Comments);
    assert_eq!(Namespace::from_str("refs/notes/review"), Namespace::Review);
    assert_eq!(Namespace::from_str("refs/notes/todos"), Namespace::Todos);
}

#[test]
fn test_from_str_custom() {
    assert_eq!(Namespace::from_str("bugs"), Namespace::Custom("bugs".to_string()));
    assert_eq!(Namespace::from_str("refs/notes/bugs"), Namespace::Custom("bugs".to_string()));
}

#[test]
fn test_ref_path_and_display() {
    let cases = vec![
        (Namespace::Comments, "refs/notes/comments", "comments"),
        (Namespace::Review, "refs/notes/review", "review"),
        (Namespace::Todos, "refs/notes/todos", "todos"),
        (Namespace::Custom("my-notes".to_string()), "refs/notes/my-notes", "my-notes"),
    ];

    for (ns, expected_ref, expected_display) in cases {
        assert_eq!(ns.ref_path(), expected_ref);
        assert_eq!(ns.to_string(), expected_display);
        assert_eq!(Namespace::from_str(expected_ref), ns);
        assert_eq!(Namespace::from_str(expected_display), ns);
    }
}

#[test]
fn namespace_custom_named_like_builtin_reads_back_as_builtin() {
    let ns = Namespace::Custom("review".to_string());
    assert_eq!(Namespace::from_str(&ns.ref_path()), Namespace::Review);
}

#[test]
fn test_note_new_with_all_fields() {
    let commit = "a1b2c3d4e5f6".to_string();
    let file = Some("src/main.rs".to_string());
    let line_start = Some(10);
    let line_end = Some(20);
    let body = "This is a test note body.".to_string();
    let author = "Tester <test@example.com>".to_string();
    let namespace = Namespace::Comments;

    let note = Note::new(
        commit.clone(),
        file.clone(),
        line_start,
        line_end,
        body.clone(),
        author.clone(),
        namespace.clone(),
    );

    assert!(note.id != 0);
    assert_eq!(note.commit, commit);
    assert_eq!(note.file, file);
    assert_eq!(note.line_start, line_start);
    assert_eq!(note.line_end, line_end);
    assert_eq!(note.body, body);
    assert_eq!(note.author, author);
    assert_eq!(note.namespace, namespace);
    assert_eq!(note.thread_id, None);
    assert_eq!(note.status, NoteStatus::Open);
    assert!(note.tags.is_empty());
}

#[test]
fn test_note_new_with_optional_fields_none() {
    let commit = "a1b2c3d4e5f6".to_string();
    let body = "Note without file or lines.".to_string();
    let author = "Tester <test@example.com>".to_string();
    let namespace = Namespace::Comments;

    let note = Note::new(commit.clone(), None, None, None, body.clone(), author.clone(), namespace.clone());

    assert!(note.id != 0);
    assert_eq!(note.file, None);
    assert_eq!(note.line_start, None);
    assert_eq!(note.line_end, None);
    assert_eq!(note.status, NoteStatus::Open);
}

#[test]
fn test_note_reply() {
    let parent = Note::new(
        "a1b2c3d4e5f6".to_string(),
        Some("src/lib.rs".to_string()),
        Some(1),
        Some(5),
        "Parent note".to_string(),
        "Parent Author <parent@example.com>".to_string(),
        Namespace::Comments,
    );

    let reply_body = "This is a reply".to_string();
    let reply_author = "Replier <replier@example.com>".to_string();

    let reply = Note::reply(&parent, reply_body.clone(), reply_author.clone());

    assert_ne!(reply.id, parent.id);
    assert!(reply.id != 0);
    assert_eq!(reply.commit, parent.commit);
    assert_eq!(reply.file, parent.file);
    assert_eq!(reply.line_start, parent.line_start);
    assert_eq!(reply.line_end, parent.line_end);
    assert_eq!(reply.namespace, parent.namespace);
    assert_eq!(reply.thread_id, Some(parent.id));
    assert_eq!(reply.body, reply_body);
    assert_eq!(reply.author, reply_author);
    assert_eq!(reply.status, NoteStatus::Open);
    assert!(reply.tags.is_empty());
    assert_eq!(reply.signature, None);
}

#[test]
fn note_ids_are_version_four() {
    let note = Note::new("c".to_string(), None, None, None, "b".to_string(), "a".to_string(), Namespace::Todos);
    assert_eq!((note.id >> 76) & 0xf, 4);
    assert_eq!((note.id >> 62) & 0x3, 2);
}

#[test]
fn signing_payload_lists_the_fields() {
    let note = Note::new(
        "a1b2c3d4e5f6".to_string(),
        Some("src/lib.rs".to_string()),
        Some(1),
        Some(5),
        "Parent note".to_string(),
        "Parent Author <parent@example.com>".to_string(),
        Namespace::Comments,
    );
    let payload = note.signing_payload();
    assert!(payload.contains(&format!("id: {}", uuid::Uuid::from_u128(note.id))));
    assert!(payload.contains("commit: a1b2c3d4e5f6"));
    assert!(payload.contains("file: src/lib.rs"));
    assert!(payload.contains("line_start: 1\n"));
    assert!(payload.contains("body: Parent note"));
    assert!(payload.contains("author: Parent Author <parent@example.com>"));
    assert!(payload.starts_with("id: "));
    assert!(payload.ends_with("\n"));
}

#[test]
fn ids_render_like_uuid() {
    let id: u128 = 0x0123_4567_89ab_cdef_0123_4567_89ab_cdef;
    assert_eq!(git_notes::engine::update_message(id), "Update note 01234567-89ab-cdef-0123-456789abcdef");
    let token = git_notes::sync::fresh_token("bundle");
    assert_eq!(token.len(), "bundle_".len() + 32);
    assert!(token.starts_with("bundle_"));
    assert!(token["bundle_".len()..].chars().all(|c| c.is_ascii_hexdigit() && !c.is_ascii_uppercase()));
    assert!(uuid::Uuid::parse_str(&token["bundle_".len()..]).is_ok());
}
