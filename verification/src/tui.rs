//! The state of the terminal review interface: the files with notes, the
//! notes of each file, the pane in focus, and how each key changes them.
//! Drawing and reading keys are left to the caller.

use vstd::prelude::*;
use crate::note::{Note, NoteStatus, NoteView, notes_view};
use crate::order::{least_index, lemma_least_is, lemma_least_none, lex_lt, strictly_sorted};
use crate::text::{chars_of, push_char};
use crate::textmap::{
    keys_distinct, keys_of, lemma_update_same_key, lemma_value_at, lemma_value_at_push, position, upsert_sorted,
    value_at,
};

verus! {

/// The pane in focus.
#[derive(Debug, Clone, Copy, PartialEq, Eq, Structural)]
pub enum AppMode {
    FileTree,
    DiffView,
    NotePanel,
    InputBar,
}

/// A file with notes, as listed in the file tree.
pub struct FileEntry {
    pub path: String,
    pub note_count: usize,
}

/// A key press, as far as the interface tells keys apart.
#[derive(Debug, Clone, Copy, PartialEq, Eq, Structural)]
pub enum Key {
    Char(char),
    Up,
    Down,
    Left,
    Right,
    Enter,
    Esc,
    Backspace,
    Other,
}

/// The state of the interface.
pub struct App {
    pub mode: AppMode,
    pub file_tree: Vec<FileEntry>,
    pub selected_file: Option<usize>,
    pub notes: Vec<Note>,
    /// The notes of each file, each file once.
    pub notes_by_file: Vec<(String, Vec<Note>)>,
    pub selected_note: Option<usize>,
    pub input_buffer: String,
    pub repo_path: String,
    pub diff_scroll: u16,
    pub note_scroll: u16,
}

/// The notes on file `p`, in order.
pub open spec fn file_group(notes: Seq<NoteView>, p: Seq<char>) -> Seq<NoteView> {
    notes.filter(|n: NoteView| n.file == Some(p))
}

/// The notes stored for file `p`; none where the file has no entry.
pub open spec fn group_of(groups: Seq<(String, Vec<Note>)>, p: Seq<char>) -> Seq<NoteView> {
    match value_at(groups, p) {
        Some(v) => notes_view(v@),
        None => Seq::empty(),
    }
}

/// `groups` holds each file once, with the notes on it in order.
pub open spec fn grouped(groups: Seq<(String, Vec<Note>)>, notes: Seq<NoteView>) -> bool {
    &&& keys_distinct(groups)
    &&& forall|p: Seq<char>| #[trigger] group_of(groups, p) == file_group(notes, p)
    &&& forall|j: int| 0 <= j < groups.len() ==> #[trigger] groups[j].1@.len() > 0
}

/// Appends `n` to the notes stored for file `f`.
fn add_to_group(groups: &mut Vec<(String, Vec<Note>)>, f: &String, n: Note)
    requires
        keys_distinct(old(groups)@),
    ensures
        keys_distinct(final(groups)@),
        (forall|j: int| 0 <= j < old(groups)@.len() ==> #[trigger] old(groups)@[j].1@.len() > 0) ==> (forall|j: int|
            0 <= j < final(groups)@.len() ==> #[trigger] final(groups)@[j].1@.len() > 0),
        group_of(final(groups)@, f@) == group_of(old(groups)@, f@).push(n@),
        forall|p: Seq<char>| p != f@ ==> #[trigger] group_of(final(groups)@, p) == group_of(old(groups)@, p),
{
    let ghost s = groups@;
    match position(groups, &chars_of(f.as_str())) {
        Some(i) => {
            let (k, mut g) = groups.remove(i);
            let ghost g0 = g@;
            proof {
                lemma_value_at(s, i as int);
            }
            g.push(n);
            groups.insert(i, (k, g));
            proof {
                let pair = groups@[i as int];
                assert(groups@ =~= s.update(i as int, pair));
                assert(pair.1@.len() > 0);
                lemma_update_same_key(s, i as int, pair);
                assert forall|j: int| 0 <= j < groups@.len() && (forall|j: int| 0 <= j < s.len() ==> #[trigger] s[j].1@.len() > 0) implies #[trigger] groups@[j].1@.len() > 0 by {
                    if j != i {
                        assert(groups@[j] == s[j]);
                    }
                }
                assert(notes_view(pair.1@) =~= notes_view(g0).push(n@));
            }
        },
        None => {
            let mut g: Vec<Note> = Vec::new();
            g.push(n);
            groups.push((f.clone(), g));
            let ghost t = groups@;
            let ghost last = s.len() as int;
            assert(keys_distinct(t)) by {
                assert forall|a: int, b: int| 0 <= a < b < t.len() implies #[trigger] t[a].0@ != #[trigger] t[b].0@ by {
                    assert(t[a] == s[a]);
                    if b < last {
                        assert(t[b] == s[b]);
                    }
                }
            }
            proof {
                assert forall|j: int| 0 <= j < t.len() && (forall|j: int| 0 <= j < s.len() ==> #[trigger] s[j].1@.len() > 0) implies #[trigger] t[j].1@.len() > 0 by {
                    if j < last {
                        assert(t[j] == s[j]);
                    }
                }
                lemma_value_at(t, last);
                assert(notes_view(t[last].1@) =~= seq![n@]);
                assert(value_at(s, f@) is None);
                assert(group_of(s, f@) =~= Seq::<NoteView>::empty());
                assert forall|p: Seq<char>| p != f@ implies #[trigger] group_of(t, p) == group_of(s, p) by {
                    if exists|j: int| 0 <= j < s.len() && #[trigger] s[j].0@ == p {
                        let j = choose|j: int| 0 <= j < s.len() && #[trigger] s[j].0@ == p;
                        assert(t[j] == s[j]);
                        lemma_value_at(s, j);
                        lemma_value_at(t, j);
                    } else {
                        assert forall|j: int| 0 <= j < t.len() implies #[trigger] t[j].0@ != p by {
                            if j < last {
                                assert(t[j] == s[j]);
                            }
                        }
                    }
                }
            }
        },
    }
}

/// Groups notes by file, each file once, the notes of each in order.
pub fn group_by_file(notes: &Vec<Note>) -> (r: Vec<(String, Vec<Note>)>)
    ensures
        grouped(r@, notes_view(notes@)),
{
    let ghost all = notes_view(notes@);
    let mut groups: Vec<(String, Vec<Note>)> = Vec::new();
    let mut i: usize = 0;
    assert forall|p: Seq<char>| #[trigger] group_of(groups@, p) == file_group(all.subrange(0, 0), p) by {
        assert(all.subrange(0, 0) =~= Seq::<NoteView>::empty());
        reveal_with_fuel(Seq::<_>::filter, 1);
    }
    while i < notes.len()
        invariant
            i <= notes@.len(),
            all == notes_view(notes@),
            keys_distinct(groups@),
            forall|p: Seq<char>| #[trigger] group_of(groups@, p) == file_group(all.subrange(0, i as int), p),
            forall|j: int| 0 <= j < groups@.len() ==> #[trigger] groups@[j].1@.len() > 0,
        decreases notes.len() - i,
    {
        let ghost sub = all.subrange(0, i + 1);
        let ghost pre = all.subrange(0, i as int);
        assert(sub.drop_last() =~= pre);
        assert(sub.last() == notes@[i as int]@);
        let ghost g0 = groups@;
        match &notes[i].file {
            Some(f) => {
                add_to_group(&mut groups, f, notes[i].clone());
                assert forall|p: Seq<char>| #[trigger] group_of(groups@, p) == file_group(sub, p) by {
                    reveal_with_fuel(Seq::<_>::filter, 1);
                    assert(group_of(g0, p) == file_group(pre, p));
                }
            },
            None => {
                assert forall|p: Seq<char>| #[trigger] group_of(groups@, p) == file_group(sub, p) by {
                    reveal_with_fuel(Seq::<_>::filter, 1);
                    assert(group_of(g0, p) == file_group(pre, p));
                }
            },
        }
        i = i + 1;
    }
    assert(all.subrange(0, notes@.len() as int) =~= all);
    groups
}

impl App {
    /// A fresh interface on the repository at `repo_path`: file tree in
    /// focus, nothing loaded or selected.
    pub fn new(repo_path: String) -> (r: Self)
        ensures
            r.mode == AppMode::FileTree,
            r.file_tree@.len() == 0,
            r.selected_file is None,
            r.notes@.len() == 0,
            r.notes_by_file@.len() == 0,
            r.selected_note is None,
            r.input_buffer@.len() == 0,
            r.repo_path@ == repo_path@,
            r.diff_scroll == 0,
            r.note_scroll == 0,
    {
        App {
            mode: AppMode::FileTree,
            file_tree: Vec::new(),
            selected_file: None,
            notes: Vec::new(),
            notes_by_file: Vec::new(),
            selected_note: None,
            input_buffer: String::new(),
            repo_path,
            diff_scroll: 0,
            note_scroll: 0,
        }
    }

    /// Regroups the notes by file.
    pub fn rebuild_notes_by_file(&mut self)
        ensures
            grouped(final(self).notes_by_file@, notes_view(final(self).notes@)),
            final(self).notes@ == old(self).notes@,
            final(self).file_tree@ == old(self).file_tree@,
            final(self).repo_path@ == old(self).repo_path@,
            final(self).mode == old(self).mode,
            final(self).selected_file == old(self).selected_file,
            final(self).selected_note == old(self).selected_note,
            final(self).input_buffer@ == old(self).input_buffer@,
            final(self).diff_scroll == old(self).diff_scroll,
            final(self).note_scroll == old(self).note_scroll,
    {
        self.notes_by_file = group_by_file(&self.notes);
    }

    /// Replaces the notes and regroups them by file.
    pub fn set_notes(&mut self, notes: Vec<Note>)
        ensures
            final(self).notes@ == notes@,
            grouped(final(self).notes_by_file@, notes_view(notes@)),
            final(self).file_tree@ == old(self).file_tree@,
            final(self).repo_path@ == old(self).repo_path@,
            final(self).mode == old(self).mode,
            final(self).selected_file == old(self).selected_file,
            final(self).selected_note == old(self).selected_note,
            final(self).input_buffer@ == old(self).input_buffer@,
            final(self).diff_scroll == old(self).diff_scroll,
            final(self).note_scroll == old(self).note_scroll,
    {
        self.notes = notes;
        self.rebuild_notes_by_file();
    }

    /// The path of the selected file, where one is selected.
    pub open spec fn current_path(&self) -> Option<Seq<char>> {
        match self.selected_file {
            Some(i) => if i < self.file_tree@.len() {
                Some(self.file_tree@[i as int].path@)
            } else {
                None
            },
            None => None,
        }
    }

    /// The notes of the selected file.
    pub open spec fn current_notes(&self) -> Seq<NoteView> {
        match self.current_path() {
            Some(p) => group_of(self.notes_by_file@, p),
            None => Seq::empty(),
        }
    }

    /// Copies the notes of the selected file.
    pub fn current_file_notes(&self) -> (r: Vec<Note>)
        requires
            keys_distinct(self.notes_by_file@),
        ensures
            notes_view(r@) == self.current_notes(),
    {
        match self.selected_file {
            Some(i) => {
                if i < self.file_tree.len() {
                    match position(&self.notes_by_file, &chars_of(self.file_tree[i].path.as_str())) {
                        Some(k) => {
                            proof {
                                lemma_value_at(self.notes_by_file@, k as int);
                            }
                            return clone_notes(&self.notes_by_file[k].1);
                        },
                        None => {},
                    }
                }
            },
            None => {},
        }
        let r: Vec<Note> = Vec::new();
        assert(notes_view(r@) =~= Seq::<NoteView>::empty());
        r
    }
}


/// A note with another status.
pub open spec fn with_status(n: NoteView, s: NoteStatus) -> NoteView {
    NoteView {
        id: n.id,
        commit: n.commit,
        file: n.file,
        line_start: n.line_start,
        line_end: n.line_end,
        body: n.body,
        author: n.author,
        timestamp: n.timestamp,
        namespace: n.namespace,
        thread_id: n.thread_id,
        status: s,
        tags: n.tags,
        signature: n.signature,
    }
}

/// Whether the note at an index has identifier `id`.
pub open spec fn id_is(notes: Seq<NoteView>, id: u128) -> spec_fn(int) -> bool {
    |k: int| notes[k].id == id
}

/// The state of the panes, apart from the notes.
pub struct UiState {
    pub mode: AppMode,
    pub selected_file: Option<usize>,
    pub selected_note: Option<usize>,
    pub diff_scroll: u16,
    pub note_scroll: u16,
    pub input: Seq<char>,
}

/// One more, unless at the largest value.
pub open spec fn sat_inc(x: u16) -> u16 {
    if x < u16::MAX {
        (x + 1) as u16
    } else {
        x
    }
}

/// One less, unless at zero.
pub open spec fn sat_dec(x: u16) -> u16 {
    if x > 0 {
        (x - 1) as u16
    } else {
        x
    }
}

/// What a key does, given the number of files and the number of notes of
/// the selected file: the new state of the panes, whether the interface
/// keeps running, and the status that the selected note is given, if any.
/// In the file tree, `q` quits, down or `j` and up or `k` move the
/// selection (resetting both scrolls) and right or enter open the diff.
/// In the diff, `q`, left or escape go back, down or `j` and up or `k` scroll, and
/// right or enter open the notes, selecting the first where there is one.
/// In the notes, `q`, left or escape go back and drop the selection, down and up
/// move it, `x` resolves and `a` approves the selected note, `j` and `k`
/// scroll, and `r` opens an empty reply bar. In the reply bar, escape and
/// enter close it, emptying it; a character is typed, backspace erases.
pub open spec fn key_step(s: UiState, key: Key, files: nat, here: nat) -> (UiState, bool, Option<NoteStatus>) {
    match s.mode {
        AppMode::FileTree => match key {
            Key::Char('q') => (s, false, None),
            Key::Down | Key::Char('j') => match s.selected_file {
                Some(i) => if i + 1 < files {
                    (UiState { selected_file: Some((i + 1) as usize), diff_scroll: 0, note_scroll: 0, ..s }, true, None)
                } else {
                    (s, true, None)
                },
                None => (s, true, None),
            },
            Key::Up | Key::Char('k') => match s.selected_file {
                Some(i) => if i > 0 {
                    (UiState { selected_file: Some((i - 1) as usize), diff_scroll: 0, note_scroll: 0, ..s }, true, None)
                } else {
                    (s, true, None)
                },
                None => (s, true, None),
            },
            Key::Right | Key::Enter => (UiState { mode: AppMode::DiffView, ..s }, true, None),
            _ => (s, true, None),
        },
        AppMode::DiffView => match key {
            Key::Char('q') | Key::Left | Key::Esc => (UiState { mode: AppMode::FileTree, ..s }, true, None),
            Key::Down | Key::Char('j') => (UiState { diff_scroll: sat_inc(s.diff_scroll), ..s }, true, None),
            Key::Up | Key::Char('k') => (UiState { diff_scroll: sat_dec(s.diff_scroll), ..s }, true, None),
            Key::Right | Key::Enter => (
                UiState {
                    mode: AppMode::NotePanel,
                    selected_note: if here > 0 {
                        Some(0usize)
                    } else {
                        s.selected_note
                    },
                    ..s
                },
                true,
                None,
            ),
            _ => (s, true, None),
        },
        AppMode::NotePanel => match key {
            Key::Char('q') | Key::Left | Key::Esc => (UiState { mode: AppMode::DiffView, selected_note: None, ..s }, true, None),
            Key::Down => match s.selected_note {
                Some(i) => if i + 1 < here {
                    (UiState { selected_note: Some((i + 1) as usize), ..s }, true, None)
                } else {
                    (s, true, None)
                },
                None => (s, true, None),
            },
            Key::Up => match s.selected_note {
                Some(i) => if i > 0 {
                    (UiState { selected_note: Some((i - 1) as usize), ..s }, true, None)
                } else {
                    (s, true, None)
                },
                None => (s, true, None),
            },
            Key::Char('x') => (s, true, Some(NoteStatus::Resolved)),
            Key::Char('a') => (s, true, Some(NoteStatus::Approved)),
            Key::Char('j') => (UiState { note_scroll: sat_inc(s.note_scroll), ..s }, true, None),
            Key::Char('k') => (UiState { note_scroll: sat_dec(s.note_scroll), ..s }, true, None),
            Key::Char('r') => (UiState { mode: AppMode::InputBar, input: Seq::empty(), ..s }, true, None),
            _ => (s, true, None),
        },
        AppMode::InputBar => match key {
            Key::Esc | Key::Enter => (UiState { mode: AppMode::NotePanel, input: Seq::empty(), ..s }, true, None),
            Key::Char(c) => (UiState { input: s.input.push(c), ..s }, true, None),
            Key::Backspace => (
                UiState {
                    input: if s.input.len() > 0 {
                        s.input.drop_last()
                    } else {
                        s.input
                    },
                    ..s
                },
                true,
                None,
            ),
            _ => (s, true, None),
        },
    }
}

/// What giving the selected note status `st` does: where a note of the
/// selected file is selected, the first note with its identifier gets the
/// status and is handed back to be saved, and the notes are regrouped;
/// otherwise nothing changes.
pub open spec fn status_updated(old: &App, new: &App, st: NoteStatus, saved: Option<Note>) -> bool {
    let before = notes_view(old.notes@);
    match old.selected_id() {
        None => new.notes@ == old.notes@ && new.notes_by_file@ == old.notes_by_file@ && saved is None,
        Some(id) => {
            &&& grouped(new.notes_by_file@, notes_view(new.notes@))
            &&& match least_index(before.len() as int, id_is(before, id)) {
                Some(k) => {
                    &&& notes_view(new.notes@) == before.update(k, with_status(before[k], st))
                    &&& saved matches Some(n) && n@ == with_status(before[k], st)
                },
                None => new.notes@ == old.notes@ && saved is None,
            }
        },
    }
}

impl App {
    /// The identifier of the selected note of the selected file.
    pub open spec fn selected_id(&self) -> Option<u128> {
        match self.current_path() {
            Some(p) => match value_at(self.notes_by_file@, p) {
                Some(v) => match self.selected_note {
                    Some(k) => if k < v@.len() {
                        Some(v@[k as int].id)
                    } else {
                        None
                    },
                    None => None,
                },
                None => None,
            },
            None => None,
        }
    }

    /// The state of the panes.
    pub open spec fn ui_state(&self) -> UiState {
        UiState {
            mode: self.mode,
            selected_file: self.selected_file,
            selected_note: self.selected_note,
            diff_scroll: self.diff_scroll,
            note_scroll: self.note_scroll,
            input: self.input_buffer@,
        }
    }

    fn selected_note_id(&self) -> (r: Option<u128>)
        requires
            keys_distinct(self.notes_by_file@),
        ensures
            r == self.selected_id(),
    {
        match self.selected_file {
            Some(i) => {
                if i < self.file_tree.len() {
                    match position(&self.notes_by_file, &chars_of(self.file_tree[i].path.as_str())) {
                        Some(k) => {
                            proof {
                                lemma_value_at(self.notes_by_file@, k as int);
                            }
                            match self.selected_note {
                                Some(j) => {
                                    if j < self.notes_by_file[k].1.len() {
                                        return Some(self.notes_by_file[k].1[j].id);
                                    }
                                },
                                None => {},
                            }
                        },
                        None => {},
                    }
                }
            },
            None => {},
        }
        None
    }

    /// Gives the selected note of the selected file the status `st`, and
    /// hands back the changed note, to be saved.
    pub fn update_selected_note_status(&mut self, st: NoteStatus) -> (r: Option<Note>)
        requires
            keys_distinct(old(self).notes_by_file@),
        ensures
            status_updated(old(self), final(self), st, r),
            final(self).ui_state() == old(self).ui_state(),
            final(self).file_tree@ == old(self).file_tree@,
            final(self).repo_path@ == old(self).repo_path@,
    {
        let id = match self.selected_note_id() {
            Some(id) => id,
            None => {
                return None;
            },
        };
        let ghost before = notes_view(self.notes@);
        let ghost f = id_is(before, id);
        let mut k: usize = 0;
        while k < self.notes.len() && self.notes[k].id != id
            invariant
                k <= self.notes@.len(),
                before == notes_view(self.notes@),
                f == id_is(before, id),
                forall|j: int| 0 <= j < k ==> !#[trigger] f(j),
            decreases self.notes.len() - k,
        {
            assert(before[k as int] == self.notes@[k as int]@);
            k = k + 1;
        }
        if k < self.notes.len() {
            proof {
                assert(before[k as int] == self.notes@[k as int]@);
                assert(before[k as int].id == id);
                lemma_least_is(before.len() as int, f, k as int);
            }
            let mut n = self.notes[k].clone();
            n.status = st;
            let saved = n.clone();
            self.notes.set(k, n);
            assert(notes_view(self.notes@) =~= before.update(k as int, with_status(before[k as int], st)));
            self.rebuild_notes_by_file();
            Some(saved)
        } else {
            proof {
                lemma_least_none(before.len() as int, f);
            }
            self.rebuild_notes_by_file();
            None
        }
    }

    /// Handles a key: changes the panes as `key_step` says, gives the
    /// selected note a new status where it says so, and tells whether the
    /// interface keeps running and which note is to be saved.
    pub fn handle_key(&mut self, key: Key) -> (r: (bool, Option<Note>))
        requires
            keys_distinct(old(self).notes_by_file@),
        ensures
            ({
                let (s, run, st) = key_step(
                    old(self).ui_state(),
                    key,
                    old(self).file_tree@.len(),
                    old(self).current_notes().len(),
                );
                &&& final(self).ui_state() == s
                &&& r.0 == run
                &&& match st {
                    Some(status) => status_updated(old(self), final(self), status, r.1),
                    None => final(self).notes@ == old(self).notes@ && final(self).notes_by_file@
                        == old(self).notes_by_file@ && r.1 is None,
                }
            }),
            final(self).file_tree@ == old(self).file_tree@,
            final(self).repo_path@ == old(self).repo_path@,
    {
        match self.mode {
            AppMode::FileTree => match key {
                Key::Char('q') => {
                    return (false, None);
                },
                Key::Down | Key::Char('j') => {
                    match self.selected_file {
                        Some(i) => {
                            if self.file_tree.len() > 0 && i < self.file_tree.len() - 1 {
                                self.selected_file = Some(i + 1);
                                self.diff_scroll = 0;
                                self.note_scroll = 0;
                            }
                        },
                        None => {},
                    }
                },
                Key::Up | Key::Char('k') => {
                    match self.selected_file {
                        Some(i) => {
                            if i > 0 {
                                self.selected_file = Some(i - 1);
                                self.diff_scroll = 0;
                                self.note_scroll = 0;
                            }
                        },
                        None => {},
                    }
                },
                Key::Right | Key::Enter => {
                    self.mode = AppMode::DiffView;
                },
                _ => {},
            },
            AppMode::DiffView => match key {
                Key::Char('q') | Key::Left | Key::Esc => {
                    self.mode = AppMode::FileTree;
                },
                Key::Down | Key::Char('j') => {
                    if self.diff_scroll < u16::MAX {
                        self.diff_scroll = self.diff_scroll + 1;
                    }
                },
                Key::Up | Key::Char('k') => {
                    if self.diff_scroll > 0 {
                        self.diff_scroll = self.diff_scroll - 1;
                    }
                },
                Key::Right | Key::Enter => {
                    self.mode = AppMode::NotePanel;
                    let here = self.current_file_notes();
                    if here.len() > 0 {
                        self.selected_note = Some(0);
                    }
                },
                _ => {},
            },
            AppMode::NotePanel => match key {
                Key::Char('q') | Key::Left | Key::Esc => {
                    self.mode = AppMode::DiffView;
                    self.selected_note = None;
                },
                Key::Down => {
                    let here = self.current_file_notes();
                    match self.selected_note {
                        Some(i) => {
                            if here.len() > 0 && i < here.len() - 1 {
                                self.selected_note = Some(i + 1);
                            }
                        },
                        None => {},
                    }
                },
                Key::Up => {
                    match self.selected_note {
                        Some(i) => {
                            if i > 0 {
                                self.selected_note = Some(i - 1);
                            }
                        },
                        None => {},
                    }
                },
                Key::Char('x') => {
                    let saved = self.update_selected_note_status(NoteStatus::Resolved);
                    return (true, saved);
                },
                Key::Char('a') => {
                    let saved = self.update_selected_note_status(NoteStatus::Approved);
                    return (true, saved);
                },
                Key::Char('j') => {
                    if self.note_scroll < u16::MAX {
                        self.note_scroll = self.note_scroll + 1;
                    }
                },
                Key::Char('k') => {
                    if self.note_scroll > 0 {
                        self.note_scroll = self.note_scroll - 1;
                    }
                },
                Key::Char('r') => {
                    self.mode = AppMode::InputBar;
                    self.input_buffer = String::new();
                },
                _ => {},
            },
            AppMode::InputBar => match key {
                Key::Esc | Key::Enter => {
                    self.mode = AppMode::NotePanel;
                    self.input_buffer = String::new();
                },
                Key::Char(c) => {
                    push_char(&mut self.input_buffer, c);
                },
                Key::Backspace => {
                    let mut cs = chars_of(self.input_buffer.as_str());
                    if cs.len() > 0 {
                        cs.pop();
                    }
                    self.input_buffer = crate::text::string_of(&cs);
                },
                _ => {},
            },
        }
        (true, None)
    }
}

/// The paths of a file tree, in order.
pub open spec fn tree_paths(t: Seq<FileEntry>) -> Seq<Seq<char>> {
    t.map_values(|e: FileEntry| e.path@)
}

/// `t` lists each file that has notes once, sorted by path, with the
/// number of its notes.
pub open spec fn is_file_tree(t: Seq<FileEntry>, notes: Seq<NoteView>) -> bool {
    &&& strictly_sorted(tree_paths(t))
    &&& forall|i: int|
        0 <= i < t.len() ==> (#[trigger] t[i]).note_count == file_group(notes, t[i].path@).len() && t[i].note_count > 0
    &&& forall|p: Seq<char>| #[trigger] file_group(notes, p).len() > 0 ==> exists|i: int| 0 <= i < t.len() && t[i].path@ == p
}

/// The number of notes stored under each key.
pub open spec fn group_size(gs: Seq<(String, Vec<Note>)>, x: Seq<char>) -> Option<usize> {
    match value_at(gs, x) {
        Some(v) => Some(v.len()),
        None => None,
    }
}

fn tree_from_groups(groups: &Vec<(String, Vec<Note>)>, Ghost(notes): Ghost<Seq<NoteView>>) -> (r: Vec<FileEntry>)
    requires
        grouped(groups@, notes),
    ensures
        is_file_tree(r@, notes),
{
    let ghost gs = groups@;
    let mut pairs: Vec<(String, usize)> = Vec::new();
    let mut j: usize = 0;
    assert(keys_of(pairs@) =~= Seq::<Seq<char>>::empty());
    assert forall|x: Seq<char>| #[trigger] value_at(pairs@, x) == group_size(gs.subrange(0, 0), x) by {
        assert(gs.subrange(0, 0) =~= Seq::<(String, Vec<Note>)>::empty());
    }
    while j < groups.len()
        invariant
            j <= gs.len(),
            gs == groups@,
            grouped(gs, notes),
            strictly_sorted(keys_of(pairs@)),
            forall|x: Seq<char>| #[trigger] value_at(pairs@, x) == group_size(gs.subrange(0, j as int), x),
        decreases groups.len() - j,
    {
        let ghost sub = gs.subrange(0, j as int);
        let ghost sub2 = gs.subrange(0, j + 1);
        assert(sub2 =~= sub.push(gs[j as int]));
        assert(keys_distinct(sub)) by {
            assert forall|a: int, b: int| 0 <= a < b < sub.len() implies #[trigger] sub[a].0@ != #[trigger] sub[b].0@ by {
                assert(sub[a] == gs[a] && sub[b] == gs[b]);
            }
        }
        assert(keys_distinct(sub2)) by {
            assert forall|a: int, b: int| 0 <= a < b < sub2.len() implies #[trigger] sub2[a].0@ != #[trigger] sub2[b].0@ by {
                assert(sub2[a] == gs[a] && sub2[b] == gs[b]);
            }
        }
        let k = groups[j].0.clone();
        let n = groups[j].1.len();
        upsert_sorted(&mut pairs, k, n);
        assert forall|x: Seq<char>| #[trigger] value_at(pairs@, x) == group_size(sub2, x) by {
            lemma_value_at_push(sub, gs[j as int], x);
        }
        j = j + 1;
    }
    assert(gs.subrange(0, gs.len() as int) =~= gs);
    let mut tree: Vec<FileEntry> = Vec::new();
    let mut i: usize = 0;
    while i < pairs.len()
        invariant
            i <= pairs@.len(),
            tree@.len() == i,
            forall|t: int| 0 <= t < i ==> (#[trigger] tree@[t]).path@ == pairs@[t].0@ && tree@[t].note_count == pairs@[t].1,
        decreases pairs.len() - i,
    {
        tree.push(FileEntry { path: pairs[i].0.clone(), note_count: pairs[i].1 });
        i = i + 1;
    }
    assert(tree_paths(tree@) =~= keys_of(pairs@));
    assert(keys_distinct(pairs@)) by {
        assert forall|a: int, b: int| 0 <= a < b < pairs@.len() implies #[trigger] pairs@[a].0@ != #[trigger] pairs@[b].0@ by {
            assert(keys_of(pairs@)[a] == pairs@[a].0@ && keys_of(pairs@)[b] == pairs@[b].0@);
            crate::order::lemma_lex_order(keys_of(pairs@)[a], keys_of(pairs@)[b], keys_of(pairs@)[a]);
        }
    }
    assert forall|t: int| 0 <= t < tree@.len() implies (#[trigger] tree@[t]).note_count == file_group(notes, tree@[t].path@).len() && tree@[t].note_count > 0 by {
        let x = pairs@[t].0@;
        lemma_value_at(pairs@, t);
        assert(group_size(gs, x) == Some(pairs@[t].1));
        assert(tree@[t].path@ == x && tree@[t].note_count == pairs@[t].1);
        let c = choose|q: int| 0 <= q < gs.len() && #[trigger] gs[q].0@ == x;
        assert(value_at(gs, x) == Some(gs[c].1));
        assert(gs[c].1@.len() > 0);
        assert(notes_view(gs[c].1@).len() == gs[c].1@.len());
        assert(group_of(gs, x) == file_group(notes, x));
        assert(pairs@[t].1 == gs[c].1.len());
        assert(gs[c].1.len() == gs[c].1@.len());
    }
    assert forall|p: Seq<char>| #[trigger] file_group(notes, p).len() > 0 implies exists|t: int| 0 <= t < tree@.len() && tree@[t].path@ == p by {
        assert(group_of(gs, p) == file_group(notes, p));
        assert(value_at(gs, p) is Some);
        assert(value_at(pairs@, p) is Some);
        let t = choose|q: int| 0 <= q < pairs@.len() && #[trigger] pairs@[q].0@ == p;
        assert(tree@[t].path@ == p);
    }
    tree
}

impl App {
    /// Takes in the notes of the repository: groups them by file, lists the
    /// files with notes sorted by path, and selects the first file where
    /// there is one.
    pub fn load_from(&mut self, all_notes: Vec<Note>)
        ensures
            final(self).notes@ == all_notes@,
            grouped(final(self).notes_by_file@, notes_view(all_notes@)),
            is_file_tree(final(self).file_tree@, notes_view(all_notes@)),
            final(self).selected_file == if final(self).file_tree@.len() > 0 {
                Some(0usize)
            } else {
                old(self).selected_file
            },
            final(self).mode == old(self).mode,
            final(self).selected_note == old(self).selected_note,
            final(self).input_buffer@ == old(self).input_buffer@,
            final(self).diff_scroll == old(self).diff_scroll,
            final(self).note_scroll == old(self).note_scroll,
            final(self).repo_path@ == old(self).repo_path@,
    {
        let groups = group_by_file(&all_notes);
        let tree = tree_from_groups(&groups, Ghost(notes_view(all_notes@)));
        if tree.len() > 0 {
            self.selected_file = Some(0);
        }
        self.file_tree = tree;
        self.notes = all_notes;
        self.notes_by_file = groups;
    }
}

/// Copies a list of notes.
pub fn clone_notes(v: &Vec<Note>) -> (r: Vec<Note>)
    ensures
        notes_view(r@) == notes_view(v@),
{
    let mut out: Vec<Note> = Vec::new();
    let mut i: usize = 0;
    while i < v.len()
        invariant
            i <= v@.len(),
            notes_view(out@) == notes_view(v@).subrange(0, i as int),
        decreases v.len() - i,
    {
        let ghost before = out@;
        let c = v[i].clone();
        assert(c@ == v@[i as int]@);
        out.push(c);
        assert(out@ == before.push(c));
        assert(notes_view(out@) =~= notes_view(before).push(c@));
        assert(notes_view(v@).subrange(0, i + 1) =~= notes_view(v@).subrange(0, i as int).push(v@[i as int]@));
        assert(notes_view(out@) =~= notes_view(v@).subrange(0, i + 1));
        i = i + 1;
    }
    assert(notes_view(v@).subrange(0, v@.len() as int) =~= notes_view(v@));
    out
}


/// After the notes are set, the selected file shows exactly its notes, in
/// the order they were given.
pub proof fn law_current_notes_after_set(app: App, notes: Seq<NoteView>)
    requires
        grouped(app.notes_by_file@, notes),
    ensures
        app.current_notes() == match app.current_path() {
            Some(p) => file_group(notes, p),
            None => Seq::empty(),
        },
{
}

/// The interface stops only on `q` in the file tree; every other key
/// keeps it running.
pub proof fn law_only_q_quits(s: UiState, key: Key, files: nat, here: nat)
    ensures
        !key_step(s, key, files, here).1 <==> (s.mode == AppMode::FileTree && key == Key::Char('q')),
{
}

/// Only `x` and `a` in the notes pane change a note's status.
pub proof fn law_status_keys(s: UiState, key: Key, files: nat, here: nat)
    ensures
        key_step(s, key, files, here).2 is Some <==> (s.mode == AppMode::NotePanel && (key == Key::Char('x')
            || key == Key::Char('a'))),
{
}

/// Escape goes back to the previous pane, as left does: from the notes to
/// the diff, dropping the note selection, and from the diff to the files.
pub proof fn law_escape_goes_back(s: UiState, files: nat, here: nat)
    ensures
        s.mode == AppMode::DiffView || s.mode == AppMode::NotePanel ==> key_step(s, Key::Esc, files, here)
            == key_step(s, Key::Left, files, here),
        s.mode == AppMode::NotePanel ==> key_step(s, Key::Esc, files, here).0 == (UiState {
            mode: AppMode::DiffView,
            selected_note: None,
            ..s
        }),
        s.mode == AppMode::DiffView ==> key_step(s, Key::Esc, files, here).0 == (UiState {
            mode: AppMode::FileTree,
            ..s
        }),
{
}

} // verus!
