//! Hunks of a unified diff, and which notes they touch.

use vstd::prelude::*;
use crate::note::{Note, NoteView};
use crate::text::{chars_of, has_prefix, first_at, words, words_from, is_white, parse_u32_text, parse_u32, before_char, after_char, text_lines, rows_view, slice_chars, find_at, split_words, split_lines, starts_with, string_of};

verus! {

/// A hunk of a diff: the lines `line_start..=line_end` of `file` on the new
/// side, at `commit`.
#[derive(Debug)]
pub struct HunkAnchor {
    pub file: String,
    pub line_start: u32,
    pub line_end: u32,
    pub commit: String,
}

/// A hunk as a mathematical value.
pub struct HunkView {
    pub file: Seq<char>,
    pub line_start: u32,
    pub line_end: u32,
    pub commit: Seq<char>,
}

impl View for HunkAnchor {
    type V = HunkView;

    open spec fn view(&self) -> HunkView {
        HunkView { file: self.file@, line_start: self.line_start, line_end: self.line_end, commit: self.commit@ }
    }
}

impl Clone for HunkAnchor {
    fn clone(&self) -> (r: Self)
        ensures
            r@ == self@,
    {
        HunkAnchor {
            file: self.file.clone(),
            line_start: self.line_start,
            line_end: self.line_end,
            commit: self.commit.clone(),
        }
    }
}

impl PartialEq for HunkAnchor {
    fn eq(&self, other: &Self) -> (r: bool) {
        String::eq(&self.file, &other.file) && self.line_start == other.line_start && self.line_end
            == other.line_end && String::eq(&self.commit, &other.commit)
    }
}

impl Eq for HunkAnchor {}

impl vstd::std_specs::cmp::PartialEqSpecImpl for HunkAnchor {
    open spec fn obeys_eq_spec() -> bool {
        true
    }

    open spec fn eq_spec(&self, other: &Self) -> bool {
        self@ == other@
    }
}

/// The views of a list of hunks.
pub open spec fn hunks_view(v: Seq<HunkAnchor>) -> Seq<HunkView> {
    v.map_values(|h: HunkAnchor| h@)
}

/// A note touches a hunk when it is on the hunk's commit, on its file or
/// on no file, and, where it has both line bounds, its lines overlap the
/// hunk's.
pub open spec fn touches(h: HunkView, n: NoteView) -> bool {
    &&& n.commit == h.commit
    &&& (n.file matches Some(f) ==> f == h.file)
    &&& ((n.line_start, n.line_end) matches (Some(s), Some(e)) ==> !(e < h.line_start || s > h.line_end))
}

impl HunkAnchor {
    /// Whether the note is attached to this hunk.
    pub fn matches_note(&self, note: &Note) -> (r: bool)
        ensures
            r == touches(self@, note@),
    {
        if !String::eq(&note.commit, &self.commit) {
            return false;
        }
        match &note.file {
            Some(f) => {
                if !String::eq(f, &self.file) {
                    return false;
                }
            },
            None => {},
        }
        match (note.line_start, note.line_end) {
            (Some(ns), Some(ne)) => {
                if ne < self.line_start || ns > self.line_end {
                    return false;
                }
            },
            _ => {},
        }
        true
    }
}

/// The new-side range word of a hunk header (`+c,d` in `@@ -a,b +c,d @@`):
/// the second white-space separated word before the first ` @@` that
/// follows the opening `@@ `.
pub open spec fn hunk_added(l: Seq<char>) -> Option<Seq<char>> {
    let rest = l.subrange("@@ "@.len() as int, l.len() as int);
    match first_at(rest, " @@"@) {
        None => None,
        Some(e) => {
            let w = words(rest.subrange(0, e));
            if w.len() >= 2 {
                Some(w[1])
            } else {
                None
            }
        },
    }
}

/// The start line and line count of a hunk header: the number after the
/// first character of the range word, and the number after its first
/// comma, one where that is missing or malformed.
pub open spec fn hunk_start_count(l: Seq<char>) -> Option<(u32, u32)> {
    match hunk_added(l) {
        None => None,
        Some(added) => {
            let nums = added.drop_first();
            match parse_u32_text(before_char(nums, ',')) {
                None => None,
                Some(start) => {
                    let count: u32 = if first_at(nums, seq![',']) is Some {
                        match parse_u32_text(before_char(after_char(nums, ','), ',')) {
                            Some(c) => c,
                            None => 1,
                        }
                    } else {
                        1
                    };
                    Some((start, count))
                },
            }
        },
    }
}

/// The number of lines a hunk spans beyond its first.
pub open spec fn extra_lines(count: u32) -> int {
    if count > 0 {
        count - 1
    } else {
        0
    }
}

/// The first and last line of a hunk header.
pub open spec fn hunk_span(l: Seq<char>) -> Option<(u32, u32)> {
    match hunk_start_count(l) {
        None => None,
        Some((start, count)) => Some((start, (start + extra_lines(count)) as u32)),
    }
}

/// A hunk header that the parser cannot read: its range word starts with a
/// character outside ASCII, or its last line does not fit in 32 bits.
pub open spec fn hunk_fault(l: Seq<char>) -> bool {
    &&& has_prefix(l, "@@ "@)
    &&& match hunk_added(l) {
        None => false,
        Some(added) => added[0] as u32 >= 128 || match hunk_start_count(l) {
            Some((start, count)) => start + extra_lines(count) > u32::MAX,
            None => false,
        },
    }
}

/// The hunks of the diff lines `lines`, where `file` is the file of the
/// last `+++ b/` header seen.
pub open spec fn hunks_from(lines: Seq<Seq<char>>, file: Seq<char>) -> Seq<HunkView>
    decreases lines.len(),
{
    if lines.len() == 0 {
        Seq::empty()
    } else {
        let l = lines[0];
        let rest = lines.drop_first();
        if has_prefix(l, "+++ b/"@) {
            hunks_from(rest, l.subrange("+++ b/"@.len() as int, l.len() as int))
        } else if has_prefix(l, "@@ "@) {
            match hunk_span(l) {
                Some((s, e)) => seq![HunkView { file, line_start: s, line_end: e, commit: "pending"@ }]
                    + hunks_from(rest, file),
                None => hunks_from(rest, file),
            }
        } else {
            hunks_from(rest, file)
        }
    }
}

/// The hunks of a unified diff.
pub open spec fn diff_hunks(patch: Seq<char>) -> Seq<HunkView> {
    hunks_from(text_lines(patch), Seq::empty())
}

/// Some hunk header of the diff cannot be read.
pub open spec fn diff_faults(patch: Seq<char>) -> bool {
    exists|i: int| 0 <= i < text_lines(patch).len() && hunk_fault(#[trigger] text_lines(patch)[i])
}

proof fn lemma_words_nonempty(s: Seq<char>, cur: Seq<char>)
    ensures
        forall|i: int| 0 <= i < words_from(s, cur).len() ==> #[trigger] words_from(s, cur)[i].len() > 0,
    decreases s.len(),
{
    if s.len() > 0 {
        if is_white(s[0]) {
            lemma_words_nonempty(s.drop_first(), Seq::empty());
            let head: Seq<Seq<char>> = if cur.len() == 0 { Seq::empty() } else { seq![cur] };
            assert forall|i: int| 0 <= i < words_from(s, cur).len() implies #[trigger] words_from(s, cur)[i].len() > 0 by {
                if i < head.len() {
                    assert(words_from(s, cur)[i] == head[i]);
                } else {
                    assert(words_from(s, cur)[i] == words_from(s.drop_first(), Seq::empty())[i - head.len()]);
                }
            }
        } else {
            lemma_words_nonempty(s.drop_first(), cur.push(s[0]));
            assert(words_from(s, cur) == words_from(s.drop_first(), cur.push(s[0])));
        }
    }
}

/// The first and last line of the hunk header `line`; `Err` where the
/// header cannot be read.
fn hunk_range(line: &[char]) -> (r: Result<Option<(u32, u32)>, ()>)
    requires
        has_prefix(line@, "@@ "@),
    ensures
        r is Err <==> hunk_fault(line@),
        r matches Ok(x) ==> x == hunk_span(line@),
{
    let opener = chars_of("@@ ");
    let rest = slice_chars(line, opener.len(), line.len());
    let closer = chars_of(" @@");
    match find_at(&rest, &closer) {
        None => Ok(None),
        Some(e) => {
            let info = slice_chars(&rest, 0, e);
            let toks = split_words(&info);
            if toks.len() < 2 {
                return Ok(None);
            }
            proof {
                lemma_words_nonempty(info@, Seq::empty());
                assert(rows_view(toks@)[1] == toks@[1]@);
            }
            let added = &toks[1];
            assert(added@ == hunk_added(line@).unwrap());
            if added[0] as u32 >= 128 {
                return Err(());
            }
            let nums = slice_chars(added, 1, added.len());
            assert(nums@ =~= added@.drop_first());
            let comma = vec![','];
            assert(comma@ =~= seq![',']);
            let (first, second) = match find_at(&nums, &comma) {
                Some(c) => {
                    let f = slice_chars(&nums, 0, c);
                    let rest2 = slice_chars(&nums, c + 1, nums.len());
                    let sec = match find_at(&rest2, &comma) {
                        Some(c2) => slice_chars(&rest2, 0, c2),
                        None => rest2,
                    };
                    (f, Some(sec))
                },
                None => (nums, None),
            };
            match parse_u32(&first) {
                None => Ok(None),
                Some(start) => {
                    let count: u32 = match second {
                        Some(sec) => match parse_u32(&sec) {
                            Some(c) => c,
                            None => 1,
                        },
                        None => 1,
                    };
                    let extra: u32 = if count > 0 { count - 1 } else { 0 };
                    if extra > 4294967295u32 - start {
                        return Err(());
                    }
                    Ok(Some((start, start + extra)))
                },
            }
        },
    }
}

/// The hunks of a diff, or `None` where some hunk header cannot be read.
pub fn try_parse_diff_hunks(patch: &str) -> (r: Option<Vec<HunkAnchor>>)
    ensures
        r is None <==> diff_faults(patch@),
        r matches Some(v) ==> hunks_view(v@) == diff_hunks(patch@),
{
    let text = chars_of(patch);
    let lines = split_lines(&text);
    let plus = chars_of("+++ b/");
    let at = chars_of("@@ ");
    let mut anchors: Vec<HunkAnchor> = Vec::new();
    let mut current_file: Vec<char> = Vec::new();
    let ghost all = rows_view(lines@);
    let mut j: usize = 0;
    assert(all.subrange(0, all.len() as int) =~= all);
    while j < lines.len()
        invariant
            j <= lines@.len(),
            all == rows_view(lines@),
            all == text_lines(patch@),
            plus@ == "+++ b/"@,
            at@ == "@@ "@,
            hunks_view(anchors@) + hunks_from(all.subrange(j as int, all.len() as int), current_file@)
                == diff_hunks(patch@),
            forall|i: int| 0 <= i < j ==> !hunk_fault(#[trigger] all[i]),
        decreases lines.len() - j,
    {
        let line = &lines[j];
        let ghost rest = all.subrange(j as int, all.len() as int);
        assert(rest[0] == line@);
        assert(rest.drop_first() =~= all.subrange(j + 1, all.len() as int));
        let ghost before = hunks_view(anchors@);
        if starts_with(line, &plus) {
            current_file = slice_chars(line, plus.len(), line.len());
            assert(!hunk_fault(line@)) by {
                reveal_strlit("+++ b/");
                reveal_strlit("@@ ");
                assert(line@.subrange(0, 6)[0] == '+');
                if has_prefix(line@, "@@ "@) {
                    assert(line@.subrange(0, 3)[0] == '@');
                }
            }
        } else if starts_with(line, &at) {
            match hunk_range(line) {
                Err(_) => {
                    assert(diff_faults(patch@));
                    return None;
                },
                Ok(Some((s, e))) => {
                    let h = HunkAnchor {
                        file: string_of(&current_file),
                        line_start: s,
                        line_end: e,
                        commit: "pending".to_owned(),
                    };
                    anchors.push(h);
                    assert(hunks_view(anchors@) =~= before + seq![HunkView { file: current_file@, line_start: s, line_end: e, commit: "pending"@ }]);
                },
                Ok(None) => {},
            }
        } else {
            assert(!hunk_fault(line@));
        }
        j = j + 1;
    }
    assert(all.subrange(j as int, all.len() as int) =~= Seq::<Seq<char>>::empty());
    assert(hunks_view(anchors@) =~= diff_hunks(patch@));
    assert forall|i: int| 0 <= i < text_lines(patch@).len() implies !hunk_fault(#[trigger] text_lines(patch@)[i]) by {
        assert(all[i] == text_lines(patch@)[i]);
    }
    Some(anchors)
}

/// The hunks of a unified diff, for a diff whose hunk headers can all be
/// read.
pub fn parse_diff_hunks(patch: &str) -> (r: Vec<HunkAnchor>)
    requires
        !diff_faults(patch@),
    ensures
        hunks_view(r@) == diff_hunks(patch@),
{
    match try_parse_diff_hunks(patch) {
        Some(v) => v,
        None => Vec::new(),
    }
}

/// A note is attached to a hunk only on the hunk's commit and, where it
/// names a file, on the hunk's file; a note on the commit with neither a
/// file nor lines is attached to every hunk of it.
pub proof fn law_touch_needs_commit_and_file(h: HunkView, n: NoteView)
    ensures
        touches(h, n) ==> n.commit == h.commit,
        (n.file matches Some(f) && f != h.file) ==> !touches(h, n),
        n.commit == h.commit && n.file is None && n.line_start is None ==> touches(h, n),
{
}

/// Line `l` lies in the range `lo..=hi`.
pub open spec fn in_lines(l: int, lo: u32, hi: u32) -> bool {
    lo <= l <= hi
}

/// A note with a line range on the hunk's commit and file is attached to
/// the hunk exactly when some line lies in both the note's range and the
/// hunk's.
pub proof fn law_touch_is_overlap(h: HunkView, n: NoteView, s: u32, e: u32)
    requires
        n.commit == h.commit,
        n.file == Some(h.file),
        n.line_start == Some(s),
        n.line_end == Some(e),
        s <= e,
        h.line_start <= h.line_end,
    ensures
        touches(h, n) <==> exists|l: int| #[trigger] in_lines(l, s, e) && in_lines(l, h.line_start, h.line_end),
{
    if touches(h, n) {
        let l = if s >= h.line_start { s as int } else { h.line_start as int };
        assert(in_lines(l, s, e) && in_lines(l, h.line_start, h.line_end));
    }
}

} // verus!
