use git_notes::namespace::Namespace;
use git_notes::note::{Note, NoteStatus};
use git_notes::select::{
    author_line, author_short, eq_ignore_ascii_case, filter_notes, find_by_prefix, parse_line_range,
    parse_status, replies_to, select_note,
};

fn n(file: Option<&str>, commit: &str, author: &str, status: NoteStatus) -> Note {
    let mut note = Note::new(
        commit.to_string(),
        file.map(|f| f.to_string()),
        Some(1),
        Some(2),
        "body".to_string(),
        author.to_string(),
        Namespace::Comments,
    );
    note.status = status;
    note
}

#[test]
fn note_references() {
    let notes = vec![
        n(Some("a.rs"), "c1", "Ann", NoteStatus::Open),
        n(Some("b.rs"), "c1", "Bob", NoteStatus::Open),
        n(None, "c2", "Cid", NoteStatus::Resolved),
    ];
    assert_eq!(select_note(&notes, "latest"), Some(2));
    assert_eq!(select_note(&notes, " LaTeSt "), Some(2));
    assert_eq!(select_note(&notes, "^"), Some(2));
    assert_eq!(select_note(&notes, "#1"), Some(0));
    assert_eq!(select_note(&notes, "2"), Some(1));
    assert_eq!(select_note(&notes, "+3"), Some(2));
    assert_eq!(select_note(&notes, "4"), None);
    assert_eq!(select_note(&notes, "0"), None);
    let id = uuid::Uuid::from_u128(notes[1].id).to_string();
    assert_eq!(select_note(&notes, &id[..9]), Some(1));
    assert_eq!(find_by_prefix(&notes, &id[..9].chars().collect::<Vec<_>>()), Some(1));
    assert_eq!(select_note(&notes, &id), Some(1));
    assert_eq!(select_note(&[], "latest"), None);
    assert_eq!(select_note(&notes, "zzzz"), None);
}

#[test]
fn list_filters() {
    let notes = vec![
        n(Some("a.rs"), "c1", "Ann <ann@x.org>", NoteStatus::Open),
        n(Some("b.rs"), "c1", "Bob <bob@x.org>", NoteStatus::Approved),
        n(None, "c2", "Annette <a@x.org>", NoteStatus::Open),
    ];
    let by_file = filter_notes(&notes, &Some("a.rs".to_string()), &None, &None, &None);
    assert_eq!(by_file.len(), 1);
    assert_eq!(by_file[0].id, notes[0].id);
    let by_status = filter_notes(&notes, &None, &None, &Some("OPEN".to_string()), &None);
    assert_eq!(by_status.len(), 2);
    let by_author = filter_notes(&notes, &None, &None, &None, &Some("Ann".to_string()));
    assert_eq!(by_author.len(), 2);
    let combined = filter_notes(&notes, &None, &Some("c1".to_string()), &Some("approved".to_string()), &None);
    assert_eq!(combined.len(), 1);
    assert_eq!(combined[0].id, notes[1].id);
    assert_eq!(filter_notes(&notes, &None, &None, &None, &None).len(), 3);
}

#[test]
fn status_names() {
    assert_eq!(parse_status("Approved"), Ok(NoteStatus::Approved));
    assert_eq!(parse_status("rejected"), Ok(NoteStatus::Rejected));
    assert_eq!(parse_status("RESOLVED"), Ok(NoteStatus::Resolved));
    assert_eq!(parse_status("open"), Ok(NoteStatus::Open));
    assert_eq!(
        parse_status("done"),
        Err("Invalid status. Use approved, rejected, resolved, or open.".to_string())
    );
}

#[test]
fn line_ranges() {
    assert_eq!(parse_line_range("10"), (Some(10), Some(10)));
    assert_eq!(parse_line_range("10-15"), (Some(10), Some(15)));
    assert_eq!(parse_line_range(""), (None, None));
    assert_eq!(parse_line_range("1-2-3"), (None, None));
    assert_eq!(parse_line_range("x-4"), (None, Some(4)));
    assert_eq!(parse_line_range("abc"), (None, None));
}

#[test]
fn authors() {
    assert_eq!(author_short("Ann Lee <ann@x.org>"), "Ann Lee");
    assert_eq!(author_short("  plain  "), "plain");
    assert_eq!(author_line(" Ann \n", " ann@x.org\n"), "Ann <ann@x.org>");
}

#[test]
fn case_helpers() {
    assert!(eq_ignore_ascii_case(&['L', 'a'], &['l', 'A']));
    assert!(!eq_ignore_ascii_case(&['a'], &['b']));
}

#[test]
fn replies_of_a_note() {
    let parent = n(Some("a.rs"), "c", "A", NoteStatus::Open);
    let r1 = Note::reply(&parent, "one".to_string(), "B".to_string());
    let other = n(None, "c", "C", NoteStatus::Open);
    let r2 = Note::reply(&parent, "two".to_string(), "D".to_string());
    let all = vec![parent.clone(), r1, other, r2];
    let rs = replies_to(&all, parent.id);
    assert_eq!(rs.len(), 2);
    assert_eq!(rs[0].body, "one");
    assert_eq!(rs[1].body, "two");
}
