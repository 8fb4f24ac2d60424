//! Re-anchoring notes whose commit was rewritten (amended, rebased): the
//! listings read from Git, and the rules that pick the commit on the
//! current branch that a lost commit has become.

use vstd::prelude::*;
use crate::note::{Note, NoteView};
use crate::order::{least_index, lemma_least_is, lemma_least_none};
use crate::text::{
    after_char, before_char, chars_equal, chars_of, find_at, first_at, has_prefix, rows_view,
    slice_chars, split_lines, split_words, starts_with, string_of, text_lines, trim, trim_white,
    words,
};

verus! {

/// A commit of the current branch, with what the matching rules read of it.
pub struct CommitMetadata {
    pub sha: String,
    pub subject: String,
    /// Its patch id, where it was computed and Git gave one.
    pub patch_id: Option<String>,
    /// The files it changes, where they were listed.
    pub changed_files: Vec<String>,
}

/// A commit's metadata as a mathematical value.
pub struct MetaView {
    pub sha: Seq<char>,
    pub subject: Seq<char>,
    pub patch_id: Option<Seq<char>>,
    pub files: Seq<Seq<char>>,
}

impl View for CommitMetadata {
    type V = MetaView;

    open spec fn view(&self) -> MetaView {
        MetaView {
            sha: self.sha@,
            subject: self.subject@,
            patch_id: self.patch_id.deep_view(),
            files: self.changed_files.deep_view(),
        }
    }
}

/// The views of a list of commits.
pub open spec fn metas_view(s: Seq<CommitMetadata>) -> Seq<MetaView> {
    s.map_values(|c: CommitMetadata| c@)
}

/// A text that may be absent, as a mathematical value.
pub open spec fn str_opt(s: Option<&str>) -> Option<Seq<char>> {
    match s {
        Some(t) => Some(t@),
        None => None,
    }
}

/// How the new commit of a note was found.
#[derive(Debug, Clone, Copy, PartialEq, Eq, Structural)]
pub enum HealMatch {
    /// The candidate has the lost commit's patch id.
    PatchId(usize),
    /// The candidate is the only one with the lost commit's subject.
    Subject(usize),
    /// Among several with the lost commit's subject, the candidate is the
    /// first that changes the note's file.
    SubjectFile(usize),
    /// The candidate changes the note's file, and its subject and the lost
    /// commit's are one a prefix of the other.
    FilePrefix(usize),
}

/// Whether the candidate's trimmed subject is `t`.
pub open spec fn subject_is(head: Seq<MetaView>, t: Seq<char>) -> spec_fn(int) -> bool {
    |i: int| trim_white(head[i].subject) == t
}

/// Whether the candidate has patch id `p`.
pub open spec fn patch_is(head: Seq<MetaView>, p: Seq<char>) -> spec_fn(int) -> bool {
    |i: int| head[i].patch_id == Some(p)
}

/// Whether the candidate's trimmed subject is `t` and it changes file `f`.
pub open spec fn subject_file_is(head: Seq<MetaView>, t: Seq<char>, f: Seq<char>) -> spec_fn(int) -> bool {
    |i: int| trim_white(head[i].subject) == t && head[i].files.contains(f)
}

/// Whether the candidate changes file `f` and its subject and `s` are one
/// a prefix of the other.
pub open spec fn file_prefix_is(head: Seq<MetaView>, s: Seq<char>, f: Seq<char>) -> spec_fn(int) -> bool {
    |i: int| head[i].files.contains(f) && (has_prefix(s, head[i].subject) || has_prefix(head[i].subject, s))
}

/// The number of candidates whose trimmed subject is `t`.
pub open spec fn subject_count(head: Seq<MetaView>, t: Seq<char>) -> nat
    decreases head.len(),
{
    if head.len() == 0 {
        0
    } else {
        subject_count(head.drop_last(), t) + if trim_white(head.last().subject) == t {
            1nat
        } else {
            0nat
        }
    }
}

/// The commit on the current branch that a lost commit has become, tried
/// in this order:
/// 1. where the lost commit has a patch id, the first candidate with it;
/// 2. where the lost commit has a subject that is not blank once trimmed:
///    the only candidate with that trimmed subject, or, where several have
///    it and the note is on a file, the first of them that changes it;
/// 3. where the note is on a file and the lost commit's subject is not
///    empty, the first candidate that changes the file and whose subject
///    and the lost commit's are one a prefix of the other.
pub open spec fn heal_match(
    old_patch: Option<Seq<char>>,
    old_subject: Option<Seq<char>>,
    note_file: Option<Seq<char>>,
    head: Seq<MetaView>,
) -> Option<HealMatch> {
    let n = head.len() as int;
    let by_patch = match old_patch {
        Some(p) => least_index(n, patch_is(head, p)),
        None => None,
    };
    let by_subject = match old_subject {
        Some(s) => {
            let t = trim_white(s);
            if t.len() == 0 {
                None
            } else if subject_count(head, t) == 1 {
                match least_index(n, subject_is(head, t)) {
                    Some(i) => Some(HealMatch::Subject(i as usize)),
                    None => None,
                }
            } else if subject_count(head, t) > 1 {
                match note_file {
                    Some(f) => match least_index(n, subject_file_is(head, t, f)) {
                        Some(i) => Some(HealMatch::SubjectFile(i as usize)),
                        None => None,
                    },
                    None => None,
                }
            } else {
                None
            }
        },
        None => None,
    };
    let by_file = match (note_file, old_subject) {
        (Some(f), Some(s)) => if s.len() > 0 {
            match least_index(n, file_prefix_is(head, s, f)) {
                Some(i) => Some(HealMatch::FilePrefix(i as usize)),
                None => None,
            }
        } else {
            None
        },
        _ => None,
    };
    match by_patch {
        Some(i) => Some(HealMatch::PatchId(i as usize)),
        None => match by_subject {
            Some(m) => Some(m),
            None => by_file,
        },
    }
}

/// Whether `v` holds the text `f`.
pub fn contains_text(v: &Vec<String>, f: &[char]) -> (r: bool)
    ensures
        r == v.deep_view().contains(f@),
{
    let mut i: usize = 0;
    while i < v.len()
        invariant
            i <= v@.len(),
            forall|j: int| 0 <= j < i ==> v.deep_view()[j] != f@,
        decreases v.len() - i,
    {
        if chars_equal(&chars_of(v[i].as_str()), f) {
            assert(v.deep_view()[i as int] == f@);
            return true;
        }
        i = i + 1;
    }
    proof {
        if v.deep_view().contains(f@) {
            let k = choose|k: int| 0 <= k < v.deep_view().len() && v.deep_view()[k] == f@;
            assert(v.deep_view()[k] != f@);
        }
    }
    false
}

fn first_patch_match(head: &[CommitMetadata], p: &[char]) -> (r: Option<usize>)
    ensures
        match r {
            Some(i) => least_index(head@.len() as int, patch_is(metas_view(head@), p@)) == Some(i as int),
            None => least_index(head@.len() as int, patch_is(metas_view(head@), p@)) is None,
        },
{
    let ghost h = metas_view(head@);
    let ghost f = patch_is(h, p@);
    let mut i: usize = 0;
    while i < head.len()
        invariant
            i <= head@.len(),
            h == metas_view(head@),
            f == patch_is(h, p@),
            forall|j: int| 0 <= j < i ==> !#[trigger] f(j),
        decreases head.len() - i,
    {
        let hit = match &head[i].patch_id {
            Some(q) => chars_equal(&chars_of(q.as_str()), p),
            None => false,
        };
        assert(h[i as int] == head@[i as int]@);
        if hit {
            proof {
                lemma_least_is(head@.len() as int, f, i as int);
            }
            return Some(i);
        }
        i = i + 1;
    }
    proof {
        lemma_least_none(head@.len() as int, f);
    }
    None
}

fn trimmed_subject_is(c: &CommitMetadata, t: &[char]) -> (r: bool)
    ensures
        r == (trim_white(c.subject@) == t@),
{
    chars_equal(&trim(&chars_of(c.subject.as_str())), t)
}

fn subject_matches(head: &[CommitMetadata], t: &[char]) -> (r: (usize, Option<usize>))
    ensures
        r.0 == subject_count(metas_view(head@), t@),
        match r.1 {
            Some(i) => least_index(head@.len() as int, subject_is(metas_view(head@), t@)) == Some(i as int),
            None => least_index(head@.len() as int, subject_is(metas_view(head@), t@)) is None,
        },
{
    let ghost h = metas_view(head@);
    let ghost f = subject_is(h, t@);
    let mut count: usize = 0;
    let mut first: Option<usize> = None;
    let mut i: usize = 0;
    while i < head.len()
        invariant
            i <= head@.len(),
            h == metas_view(head@),
            f == subject_is(h, t@),
            count <= i,
            count == subject_count(h.subrange(0, i as int), t@),
            match first {
                Some(k) => k < i && f(k as int) && forall|j: int| 0 <= j < k ==> !#[trigger] f(j),
                None => forall|j: int| 0 <= j < i ==> !#[trigger] f(j),
            },
        decreases head.len() - i,
    {
        let ghost sub = h.subrange(0, i + 1);
        assert(sub.drop_last() =~= h.subrange(0, i as int));
        assert(sub.last() == head@[i as int]@);
        if trimmed_subject_is(&head[i], t) {
            count = count + 1;
            if first.is_none() {
                first = Some(i);
            }
        }
        i = i + 1;
    }
    assert(h.subrange(0, head@.len() as int) =~= h);
    proof {
        match first {
            Some(k) => lemma_least_is(head@.len() as int, f, k as int),
            None => lemma_least_none(head@.len() as int, f),
        }
    }
    (count, first)
}

fn first_subject_file(head: &[CommitMetadata], t: &[char], file: &[char]) -> (r: Option<usize>)
    ensures
        match r {
            Some(i) => least_index(head@.len() as int, subject_file_is(metas_view(head@), t@, file@)) == Some(i as int),
            None => least_index(head@.len() as int, subject_file_is(metas_view(head@), t@, file@)) is None,
        },
{
    let ghost h = metas_view(head@);
    let ghost f = subject_file_is(h, t@, file@);
    let mut i: usize = 0;
    while i < head.len()
        invariant
            i <= head@.len(),
            h == metas_view(head@),
            f == subject_file_is(h, t@, file@),
            forall|j: int| 0 <= j < i ==> !#[trigger] f(j),
        decreases head.len() - i,
    {
        assert(h[i as int] == head@[i as int]@);
        if trimmed_subject_is(&head[i], t) && contains_text(&head[i].changed_files, file) {
            proof {
                lemma_least_is(head@.len() as int, f, i as int);
            }
            return Some(i);
        }
        i = i + 1;
    }
    proof {
        lemma_least_none(head@.len() as int, f);
    }
    None
}

fn first_file_prefix(head: &[CommitMetadata], s: &[char], file: &[char]) -> (r: Option<usize>)
    ensures
        match r {
            Some(i) => least_index(head@.len() as int, file_prefix_is(metas_view(head@), s@, file@)) == Some(i as int),
            None => least_index(head@.len() as int, file_prefix_is(metas_view(head@), s@, file@)) is None,
        },
{
    let ghost h = metas_view(head@);
    let ghost f = file_prefix_is(h, s@, file@);
    let mut i: usize = 0;
    while i < head.len()
        invariant
            i <= head@.len(),
            h == metas_view(head@),
            f == file_prefix_is(h, s@, file@),
            forall|j: int| 0 <= j < i ==> !#[trigger] f(j),
        decreases head.len() - i,
    {
        assert(h[i as int] == head@[i as int]@);
        let subj = chars_of(head[i].subject.as_str());
        if contains_text(&head[i].changed_files, file) && (starts_with(s, &subj) || starts_with(&subj, s)) {
            proof {
                lemma_least_is(head@.len() as int, f, i as int);
            }
            return Some(i);
        }
        i = i + 1;
    }
    proof {
        lemma_least_none(head@.len() as int, f);
    }
    None
}

/// Finds the commit on the current branch that a lost commit has become.
/// `old_patch_id` is the lost commit's patch id, where the commit still
/// exists and has one; `old_subject` its subject, where Git still knows
/// it; `note_file` the file of the note being re-anchored. The candidates
/// are the recent commits of the current branch, with their patch ids
/// filled in where a patch id is looked for, and their changed files where
/// the note is on a file.
pub fn find_new_commit(
    old_patch_id: Option<&str>,
    old_subject: Option<&str>,
    note_file: Option<&str>,
    head: &[CommitMetadata],
) -> (r: Option<HealMatch>)
    ensures
        r == heal_match(str_opt(old_patch_id), str_opt(old_subject), str_opt(note_file), metas_view(head@)),
{
    let ghost h = metas_view(head@);
    assert(h.len() == head@.len());
    match old_patch_id {
        Some(p) => {
            match first_patch_match(head, &chars_of(p)) {
                Some(i) => {
                    return Some(HealMatch::PatchId(i));
                },
                None => {},
            }
        },
        None => {},
    }
    match old_subject {
        Some(s) => {
            let t = trim(&chars_of(s));
            if t.len() > 0 {
                let (count, first) = subject_matches(head, &t);
                if count == 1 {
                    match first {
                        Some(i) => {
                            return Some(HealMatch::Subject(i));
                        },
                        None => {},
                    }
                } else if count > 1 {
                    match note_file {
                        Some(f) => {
                            match first_subject_file(head, &t, &chars_of(f)) {
                                Some(i) => {
                                    return Some(HealMatch::SubjectFile(i));
                                },
                                None => {},
                            }
                        },
                        None => {},
                    }
                }
            }
        },
        None => {},
    }
    match (note_file, old_subject) {
        (Some(f), Some(s)) => {
            let sc = chars_of(s);
            if sc.len() > 0 {
                match first_file_prefix(head, &sc, &chars_of(f)) {
                    Some(i) => Some(HealMatch::FilePrefix(i)),
                    None => None,
                }
            } else {
                None
            }
        },
        _ => None,
    }
}

/// The index that a match points to.
pub fn match_index(m: HealMatch) -> (r: usize)
    ensures
        r == match m {
            HealMatch::PatchId(i) => i,
            HealMatch::Subject(i) => i,
            HealMatch::SubjectFile(i) => i,
            HealMatch::FilePrefix(i) => i,
        },
{
    match m {
        HealMatch::PatchId(i) => i,
        HealMatch::Subject(i) => i,
        HealMatch::SubjectFile(i) => i,
        HealMatch::FilePrefix(i) => i,
    }
}

/// The commits listed by `git log --format=%H%x09%s`: for each line that
/// is not blank once trimmed, the text before the first tab is the commit,
/// the text after it (nothing where there is no tab) the subject.
pub open spec fn history_entries(lines: Seq<Seq<char>>) -> Seq<MetaView>
    decreases lines.len(),
{
    if lines.len() == 0 {
        Seq::empty()
    } else {
        let l = trim_white(lines.last());
        history_entries(lines.drop_last()) + if l.len() == 0 {
            Seq::empty()
        } else {
            seq![
                MetaView {
                    sha: before_char(l, '\t'),
                    subject: after_char(l, '\t'),
                    patch_id: None,
                    files: Seq::empty(),
                },
            ]
        }
    }
}

fn split_tab(l: &[char]) -> (r: (Vec<char>, Vec<char>))
    ensures
        r.0@ == before_char(l@, '\t'),
        r.1@ == after_char(l@, '\t'),
{
    let tab = vec!['\t'];
    assert(tab@ =~= seq!['\t']);
    match find_at(l, &tab) {
        Some(i) => {
            assert(i + 1 <= l@.len());
            assert(i < l.len());
            (slice_chars(l, 0, i), slice_chars(l, i + 1, l.len()))
        },
        None => {
            let r: Vec<char> = Vec::new();
            assert(r@ =~= Seq::<char>::empty());
            (slice_chars(l, 0, l.len()), r)
        },
    }
}

/// Reads the recent commits of the current branch from a `git log` listing.
pub fn parse_head_history(log: &str) -> (r: Vec<CommitMetadata>)
    ensures
        metas_view(r@) == history_entries(text_lines(log@)),
{
    let lines = split_lines(&chars_of(log));
    let mut out: Vec<CommitMetadata> = Vec::new();
    let mut i: usize = 0;
    while i < lines.len()
        invariant
            i <= lines@.len(),
            rows_view(lines@) == text_lines(log@),
            metas_view(out@) == history_entries(rows_view(lines@).subrange(0, i as int)),
        decreases lines.len() - i,
    {
        let ghost sub = rows_view(lines@).subrange(0, i + 1);
        assert(sub.drop_last() =~= rows_view(lines@).subrange(0, i as int));
        assert(sub.last() == lines@[i as int]@);
        let ghost before = metas_view(out@);
        let l = trim(&lines[i]);
        if l.len() > 0 {
            let (sha, subject) = split_tab(&l);
            let files: Vec<String> = Vec::new();
            let c = CommitMetadata { sha: string_of(&sha), subject: string_of(&subject), patch_id: None, changed_files: files };
            assert(c@.files =~= Seq::<Seq<char>>::empty());
            out.push(c);
            assert(metas_view(out@) =~= before + seq![c@]);
        } else {
            assert(metas_view(out@) =~= before + Seq::<MetaView>::empty());
        }
        i = i + 1;
    }
    assert(rows_view(lines@).subrange(0, lines@.len() as int) =~= rows_view(lines@));
    out
}

/// The lines of a listing that are not blank, trimmed.
pub open spec fn nonblank_lines(lines: Seq<Seq<char>>) -> Seq<Seq<char>>
    decreases lines.len(),
{
    if lines.len() == 0 {
        Seq::empty()
    } else {
        let l = trim_white(lines.last());
        nonblank_lines(lines.drop_last()) + if l.len() == 0 {
            Seq::empty()
        } else {
            seq![l]
        }
    }
}

/// The files listed by `git diff-tree --name-only`.
pub fn parse_commit_files(listing: &str) -> (r: Vec<String>)
    ensures
        r.deep_view() == nonblank_lines(text_lines(listing@)),
{
    let lines = split_lines(&chars_of(listing));
    let mut out: Vec<String> = Vec::new();
    let mut i: usize = 0;
    while i < lines.len()
        invariant
            i <= lines@.len(),
            rows_view(lines@) == text_lines(listing@),
            out.deep_view() == nonblank_lines(rows_view(lines@).subrange(0, i as int)),
        decreases lines.len() - i,
    {
        let ghost sub = rows_view(lines@).subrange(0, i + 1);
        assert(sub.drop_last() =~= rows_view(lines@).subrange(0, i as int));
        assert(sub.last() == lines@[i as int]@);
        let ghost before = out.deep_view();
        let l = trim(&lines[i]);
        if l.len() > 0 {
            out.push(string_of(&l));
            assert(out.deep_view() =~= before + seq![l@]);
        } else {
            assert(out.deep_view() =~= before + Seq::<Seq<char>>::empty());
        }
        i = i + 1;
    }
    assert(rows_view(lines@).subrange(0, lines@.len() as int) =~= rows_view(lines@));
    out
}

/// The patch id printed by `git patch-id`: its first word.
pub open spec fn patch_id_text(out: Seq<char>) -> Option<Seq<char>> {
    if words(out).len() > 0 {
        Some(words(out)[0])
    } else {
        None
    }
}

/// Reads the patch id out of the output of `git patch-id`.
pub fn parse_patch_id(out: &str) -> (r: Option<String>)
    ensures
        r.deep_view() == patch_id_text(out@),
{
    let ws = split_words(&chars_of(out));
    if ws.len() > 0 {
        assert(rows_view(ws@)[0] == ws@[0]@);
        Some(string_of(&ws[0]))
    } else {
        None
    }
}

/// The index that a match points to, as a mathematical value.
pub open spec fn match_at(m: HealMatch) -> int {
    match m {
        HealMatch::PatchId(i) => i as int,
        HealMatch::Subject(i) => i as int,
        HealMatch::SubjectFile(i) => i as int,
        HealMatch::FilePrefix(i) => i as int,
    }
}

/// What healing does with one note.
pub enum HealStep {
    /// Its commit is on the current branch: it stays.
    AlreadyValid,
    /// It is moved to the commit found: the note as it is to be stored.
    Reanchor(Note),
    /// A dry run: it would be moved to the commit with this id.
    WouldReanchor(String),
    /// No commit was found for it.
    Unresolved,
}

/// What healing does with one note, as a mathematical value.
pub enum HealOutcome {
    Valid,
    Moved(NoteView),
    Would(Seq<char>),
    Unresolved,
}

/// A healing step as a mathematical value.
pub open spec fn step_view(r: HealStep) -> HealOutcome {
    match r {
        HealStep::AlreadyValid => HealOutcome::Valid,
        HealStep::Reanchor(n) => HealOutcome::Moved(n@),
        HealStep::WouldReanchor(sha) => HealOutcome::Would(sha@),
        HealStep::Unresolved => HealOutcome::Unresolved,
    }
}

/// What healing does with note `n`, whose commit is on the current branch
/// or not, given the match found in the current history `head`.
pub open spec fn heal_outcome(n: NoteView, on_head: bool, found: Option<HealMatch>, head: Seq<MetaView>, dry_run: bool) -> HealOutcome {
    if on_head {
        HealOutcome::Valid
    } else {
        match found {
            Some(m) => if dry_run {
                HealOutcome::Would(head[match_at(m)].sha)
            } else {
                HealOutcome::Moved(NoteView { commit: head[match_at(m)].sha, ..n })
            },
            None => HealOutcome::Unresolved,
        }
    }
}

/// Commit `c` is one of the current history's commits.
pub open spec fn on_history(c: Seq<char>, head: Seq<MetaView>) -> bool {
    exists|i: int| 0 <= i < head.len() && #[trigger] head[i].sha == c
}

/// Healing a second time changes nothing. A note moved by the first run now
/// points at a commit of the current history, which lies on the current
/// branch, so the second run finds it valid whatever it would match; a
/// note the first run left (valid or unresolved) is stored unchanged, so the
/// second run, on the same repository, decides for it as the first did.
pub proof fn law_heal_twice(
    n: NoteView,
    on_head: bool,
    found: Option<HealMatch>,
    head: Seq<MetaView>,
    found_again: Option<HealMatch>,
)
    requires
        found matches Some(m) ==> 0 <= match_at(m) < head.len(),
    ensures
        match heal_outcome(n, on_head, found, head, false) {
            HealOutcome::Moved(moved) => on_history(moved.commit, head) && moved.id == n.id && heal_outcome(
                moved,
                true,
                found_again,
                head,
                false,
            ) == HealOutcome::Valid,
            HealOutcome::Valid => on_head,
            HealOutcome::Unresolved => found is None && !on_head,
            HealOutcome::Would(_) => false,
        },
{
    if !on_head {
        if let Some(m) = found {
            assert(head[match_at(m)].sha == head[match_at(m)].sha);
        }
    }
}

/// Decides what happens to a note: it stays where its commit exists on the
/// current branch; else it moves to the commit that was found (or, in a dry
/// run, is only reported); else it stays unresolved.
pub fn heal_step(note: &Note, on_head: bool, found: Option<HealMatch>, head: &[CommitMetadata], dry_run: bool) -> (r:
    HealStep)
    requires
        found matches Some(m) ==> match_at(m) < head@.len(),
    ensures
        step_view(r) == heal_outcome(note@, on_head, found, metas_view(head@), dry_run),
        on_head ==> r is AlreadyValid,
        !on_head ==> match found {
            Some(m) => if dry_run {
                r matches HealStep::WouldReanchor(sha) && sha@ == head@[match_at(m)].sha@
            } else {
                r matches HealStep::Reanchor(n) && n@ == (NoteView { commit: head@[match_at(m)].sha@, ..note@ })
            },
            None => r is Unresolved,
        },
{
    if on_head {
        return HealStep::AlreadyValid;
    }
    match found {
        Some(m) => {
            let sha = head[match_index(m)].sha.clone();
            if dry_run {
                HealStep::WouldReanchor(sha)
            } else {
                let mut n = note.clone();
                n.commit = sha;
                HealStep::Reanchor(n)
            }
        },
        None => HealStep::Unresolved,
    }
}

} // verus!
