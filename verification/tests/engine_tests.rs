use git_notes::engine::{
    delete_message, ls_tree_blob_hashes, notes_for_commit, parse_cat_file_batch, tree_input_with_entry,
    tree_input_without_entry, try_parse_cat_file_batch, update_message, NotesEngine,
};
use git_notes::namespace::Namespace;
use git_notes::note::Note;

#[test]
fn engine_handle() {
    let e = NotesEngine::new("/tmp/repo");
    assert_eq!(e.repo_path, "/tmp/repo");
}

#[test]
fn tree_listing_names() {
    let listing = "100644 blob aaa111\tid-1\n100644 blob bbb222\tid-2\nbroken line\n";
    assert_eq!(ls_tree_blob_hashes(listing), vec!["aaa111".to_string(), "bbb222".to_string()]);
    assert!(ls_tree_blob_hashes("").is_empty());
}

#[test]
fn cat_file_batch_is_split() {
    let data = b"aaa blob 5\nhello\nbbb missing\nccc blob 3\nxyz\n";
    let blobs = parse_cat_file_batch(data);
    assert_eq!(blobs, vec![b"hello".to_vec(), b"xyz".to_vec()]);
    let cut = b"aaa blob 10\nshort\n";
    assert_eq!(parse_cat_file_batch(cut), Vec::<Vec<u8>>::new());
    let bad_size = b"aaa blob x\nhello\n";
    assert!(parse_cat_file_batch(bad_size).is_empty());
    let no_trailing = b"aaa blob 2\nhi";
    assert_eq!(parse_cat_file_batch(no_trailing), vec![b"hi".to_vec()]);
    let huge = b"aaa blob 18446744073709551615\n";
    assert!(try_parse_cat_file_batch(huge).is_none());
}

#[test]
fn tree_inputs() {
    let entries = "100644 blob aaa\tid-1\n100644 blob bbb\tid-2\n";
    assert_eq!(
        tree_input_with_entry(entries, "id-1", "ccc"),
        "100644 blob bbb\tid-2\n100644 blob ccc\tid-1\n"
    );
    assert_eq!(tree_input_with_entry("", "id-9", "ddd"), "100644 blob ddd\tid-9\n");
    assert_eq!(tree_input_without_entry(entries, "id-2"), Some("100644 blob aaa\tid-1\n".to_string()));
    assert_eq!(tree_input_without_entry(entries, "id-3"), None);
}

#[test]
fn notes_of_a_commit() {
    let a = Note::new("c1".to_string(), None, None, None, "a".to_string(), "x".to_string(), Namespace::Comments);
    let b = Note::new("c2".to_string(), None, None, None, "b".to_string(), "x".to_string(), Namespace::Comments);
    let c = Note::new("c1".to_string(), None, None, None, "c".to_string(), "x".to_string(), Namespace::Comments);
    let kept = notes_for_commit(vec![a, b, c], "c1");
    assert_eq!(kept.len(), 2);
    assert_eq!(kept[0].body, "a");
    assert_eq!(kept[1].body, "c");
}

#[test]
fn commit_messages() {
    let id: u128 = 42;
    assert_eq!(update_message(id), format!("Update note {}", uuid::Uuid::from_u128(id).to_string()));
    assert_eq!(delete_message(id), "Delete note 00000000-0000-0000-0000-00000000002a");
}

#[test]
fn second_write_replaces_first() {
    let entries = "100644 blob aaa\tnote-1\n100644 blob bbb\tnote-2\n";
    let once = tree_input_with_entry(entries, "note-2", "ccc");
    let twice = tree_input_with_entry(&once, "note-2", "ddd");
    assert_eq!(twice, tree_input_with_entry(entries, "note-2", "ddd"));
    assert_eq!(twice, "100644 blob aaa\tnote-1\n100644 blob ddd\tnote-2\n");
}

#[test]
fn delete_after_write_keeps_others() {
    let entries = "100644 blob aaa\tnote-1\n";
    let written = tree_input_with_entry(entries, "note-3", "eee");
    assert_eq!(tree_input_without_entry(&written, "note-3"), Some(entries.to_string()));
    assert_eq!(tree_input_without_entry(entries, "note-3"), None);
}
