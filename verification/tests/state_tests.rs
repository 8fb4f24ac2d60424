use git_notes::learning::{count, UserBehaviorProfile};
use git_notes::namespace::Namespace;
use git_notes::note::{Note, NoteStatus};
use git_notes::shortcuts::{parse_binding, ShortcutConfig};
use git_notes::tui::{App, AppMode, FileEntry, Key};

#[test]
fn test_current_file_notes_indexed() {
    let mut app = App::new(".".to_string());
    app.file_tree = vec![
        FileEntry { path: "src/main.rs".to_string(), note_count: 2 },
        FileEntry { path: "src/lib.rs".to_string(), note_count: 1 },
    ];
    app.selected_file = Some(0);

    let note1 = Note::new(
        "sha1".to_string(),
        Some("src/main.rs".to_string()),
        Some(1),
        Some(5),
        "Note 1".to_string(),
        "Author".to_string(),
        Namespace::Custom("comments".to_string()),
    );
    let note2 = Note::new(
        "sha1".to_string(),
        Some("src/main.rs".to_string()),
        Some(10),
        Some(15),
        "Note 2".to_string(),
        "Author".to_string(),
        Namespace::Custom("comments".to_string()),
    );
    let note3 = Note::new(
        "sha1".to_string(),
        Some("src/lib.rs".to_string()),
        Some(2),
        Some(4),
        "Note 3".to_string(),
        "Author".to_string(),
        Namespace::Custom("comments".to_string()),
    );

    app.set_notes(vec![note1.clone(), note2.clone(), note3.clone()]);

    let main_notes = app.current_file_notes();
    assert_eq!(main_notes.len(), 2);
    assert_eq!(main_notes[0].body, "Note 1");
    assert_eq!(main_notes[1].body, "Note 2");

    app.selected_file = Some(1);
    let lib_notes = app.current_file_notes();
    assert_eq!(lib_notes.len(), 1);
    assert_eq!(lib_notes[0].body, "Note 3");
}

#[test]
fn test_update_selected_note_status() {
    let mut app = App::new(".".to_string());
    app.file_tree = vec![FileEntry { path: "src/main.rs".to_string(), note_count: 1 }];
    app.selected_file = Some(0);

    let note = Note::new(
        "sha1".to_string(),
        Some("src/main.rs".to_string()),
        Some(10),
        Some(12),
        "Needs review".to_string(),
        "Author".to_string(),
        Namespace::Custom("review".to_string()),
    );
    app.set_notes(vec![note]);
    app.selected_note = Some(0);

    assert_eq!(app.current_file_notes()[0].status, NoteStatus::Open);

    app.update_selected_note_status(NoteStatus::Approved);
    assert_eq!(app.current_file_notes()[0].status, NoteStatus::Approved);

    app.update_selected_note_status(NoteStatus::Resolved);
    assert_eq!(app.current_file_notes()[0].status, NoteStatus::Resolved);
}

fn file_note(file: &str, body: &str) -> Note {
    Note::new("sha".to_string(), Some(file.to_string()), Some(1), Some(1), body.to_string(), "A".to_string(), Namespace::Comments)
}

#[test]
fn loading_builds_a_sorted_file_tree() {
    let mut app = App::new(".".to_string());
    let mut loose = file_note("x", "loose");
    loose.file = None;
    app.load_from(vec![file_note("src/b.rs", "b1"), loose, file_note("src/a.rs", "a1"), file_note("src/b.rs", "b2")]);
    assert_eq!(app.file_tree.len(), 2);
    assert_eq!(app.file_tree[0].path, "src/a.rs");
    assert_eq!(app.file_tree[0].note_count, 1);
    assert_eq!(app.file_tree[1].path, "src/b.rs");
    assert_eq!(app.file_tree[1].note_count, 2);
    assert_eq!(app.selected_file, Some(0));
    assert_eq!(app.notes.len(), 4);
}

#[test]
fn keys_move_between_panes() {
    let mut app = App::new(".".to_string());
    app.load_from(vec![file_note("a.rs", "one"), file_note("a.rs", "two"), file_note("b.rs", "three")]);
    assert_eq!(app.handle_key(Key::Down).0, true);
    assert_eq!(app.selected_file, Some(1));
    app.handle_key(Key::Down);
    assert_eq!(app.selected_file, Some(1));
    app.handle_key(Key::Char('k'));
    assert_eq!(app.selected_file, Some(0));
    app.handle_key(Key::Enter);
    assert_eq!(app.mode, AppMode::DiffView);
    app.handle_key(Key::Char('j'));
    assert_eq!(app.diff_scroll, 1);
    app.handle_key(Key::Up);
    app.handle_key(Key::Up);
    assert_eq!(app.diff_scroll, 0);
    app.handle_key(Key::Right);
    assert_eq!(app.mode, AppMode::NotePanel);
    assert_eq!(app.selected_note, Some(0));
    app.handle_key(Key::Down);
    assert_eq!(app.selected_note, Some(1));
    let (running, saved) = app.handle_key(Key::Char('a'));
    assert!(running);
    let saved = saved.unwrap();
    assert_eq!(saved.body, "two");
    assert_eq!(saved.status, NoteStatus::Approved);
    assert_eq!(app.current_file_notes()[1].status, NoteStatus::Approved);
    app.handle_key(Key::Char('r'));
    assert_eq!(app.mode, AppMode::InputBar);
    app.handle_key(Key::Char('o'));
    app.handle_key(Key::Char('k'));
    app.handle_key(Key::Backspace);
    assert_eq!(app.input_buffer, "o");
    app.handle_key(Key::Esc);
    assert_eq!(app.mode, AppMode::NotePanel);
    assert_eq!(app.input_buffer, "");
    app.handle_key(Key::Left);
    assert_eq!(app.mode, AppMode::DiffView);
    assert_eq!(app.selected_note, None);
    app.handle_key(Key::Char('q'));
    assert_eq!(app.mode, AppMode::FileTree);
    assert_eq!(app.handle_key(Key::Char('q')).0, false);
}

#[test]
fn learning_counts_and_hints() {
    let mut p = UserBehaviorProfile::default();
    assert_eq!(p.suggest_next_action(None), None);
    for _ in 0..4 {
        p.record_interaction("list", Some("src/a.rs"), Some("review"));
    }
    assert_eq!(count(&p.command_counts, "list"), 4);
    assert_eq!(count(&p.file_frequencies, "src/a.rs"), 4);
    assert_eq!(p.total_interactions, 4);
    assert_eq!(p.preferred_namespace.as_deref(), Some("review"));
    let hint = p.suggest_next_action(Some("src/a.rs")).unwrap();
    assert!(hint.contains("You frequently annotate 'src/a.rs'"));
    let tip = p.suggest_next_action(Some("other.rs")).unwrap();
    assert!(tip.contains("Type \x1b[36mgn l\x1b[90m instead"));
    p.record_interaction("l", None, None);
    assert_eq!(p.suggest_next_action(Some("other.rs")), None);
    assert_eq!(p.preferred_namespace.as_deref(), Some("review"));
}

#[test]
fn default_shortcuts_are_sorted() {
    let c = ShortcutConfig::default();
    assert_eq!(c.cli_aliases.len(), 11);
    assert_eq!(c.tui_keybindings.len(), 6);
    assert!(c.custom_user_shortcuts.is_empty());
    let keys: Vec<&str> = c.cli_aliases.iter().map(|(k, _)| k.as_str()).collect();
    let mut sorted = keys.clone();
    sorted.sort();
    assert_eq!(keys, sorted);
    assert_eq!(keys[0], "gn a");
    let tkeys: Vec<&str> = c.tui_keybindings.iter().map(|(k, _)| k.as_str()).collect();
    let mut tsorted = tkeys.clone();
    tsorted.sort();
    assert_eq!(tkeys, tsorted);
}

#[test]
fn shortcuts_can_be_bound() {
    let mut c = ShortcutConfig::default();
    let (k, v) = parse_binding(" c = add -m ").unwrap();
    assert_eq!(k, "c");
    assert_eq!(v, "add -m");
    c.bind(k, v);
    c.bind("b".to_string(), "blame".to_string());
    c.bind("c".to_string(), "list".to_string());
    assert_eq!(c.custom_user_shortcuts, vec![("b".to_string(), "blame".to_string()), ("c".to_string(), "list".to_string())]);
    assert_eq!(parse_binding("novalue"), None);
    assert_eq!(parse_binding("a=b=c"), Some(("a".to_string(), "b=c".to_string())));
}
