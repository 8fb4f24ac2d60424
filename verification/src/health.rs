//! Setting up a repository for notes and checking its health: the fetch
//! refspec for notes, the auto-sync hooks, and the verdict of the checks.

use vstd::prelude::*;
use crate::json::{as_str, get, json_get, json_parsed, json_str, parse_json, Json};
use crate::text::{chars_equal, chars_of, find_at, first_at, rows_view, split_lines, text_lines, trim, trim_white};

verus! {

/// Some line of `git remote`, trimmed, is `origin`.
pub open spec fn lists_origin(lines: Seq<Seq<char>>) -> bool {
    exists|i: int| 0 <= i < lines.len() && trim_white(#[trigger] lines[i]) == "origin"@
}

/// Whether the output of `git remote` lists `origin`.
pub fn has_origin(remotes: &str) -> (r: bool)
    ensures
        r == lists_origin(text_lines(remotes@)),
{
    let lines = split_lines(&chars_of(remotes));
    let ghost all = rows_view(lines@);
    let origin = chars_of("origin");
    let mut i: usize = 0;
    while i < lines.len()
        invariant
            i <= lines@.len(),
            all == rows_view(lines@),
            all == text_lines(remotes@),
            origin@ == "origin"@,
            forall|j: int| 0 <= j < i ==> trim_white(#[trigger] all[j]) != "origin"@,
        decreases lines.len() - i,
    {
        assert(all[i as int] == lines@[i as int]@);
        if chars_equal(&trim(&lines[i]), &origin) {
            return true;
        }
        i = i + 1;
    }
    false
}

/// The fetch refspecs of `origin` already cover the notes refs.
pub open spec fn fetches_notes(config: Seq<char>) -> bool {
    first_at(config, "refs/notes/*"@) is Some
}

/// Whether the configured fetch refspecs cover the notes refs.
pub fn has_notes_fetch(config: &str) -> (r: bool)
    ensures
        r == fetches_notes(config@),
{
    find_at(&chars_of(config), &chars_of("refs/notes/*")).is_some()
}

/// A hook that the tools installed: one that mentions `git-notes`.
pub open spec fn is_notes_hook_text(content: Seq<char>) -> bool {
    first_at(content, "git-notes"@) is Some
}

/// Whether a hook script was installed by the tools.
pub fn is_notes_hook(content: &str) -> (r: bool)
    ensures
        r == is_notes_hook_text(content@),
{
    find_at(&chars_of(content), &chars_of("git-notes")).is_some()
}

/// The auto-sync hook scripts: after a merge, notes are pulled; before a
/// push, they are pushed; failures are ignored.
pub open spec fn hook_script_text(before_push: bool) -> Seq<char> {
    if before_push {
        "#!/bin/sh\n# git-notes auto-sync hook\ngit-notes sync push --quiet 2>/dev/null || true\n"@
    } else {
        "#!/bin/sh\n# git-notes auto-sync hook\ngit-notes sync pull --quiet 2>/dev/null || true\n"@
    }
}

/// The auto-sync hook script to run before a push, or after a merge.
pub fn hook_script(before_push: bool) -> (r: &'static str)
    ensures
        r@ == hook_script_text(before_push),
{
    if before_push {
        "#!/bin/sh\n# git-notes auto-sync hook\ngit-notes sync push --quiet 2>/dev/null || true\n"
    } else {
        "#!/bin/sh\n# git-notes auto-sync hook\ngit-notes sync pull --quiet 2>/dev/null || true\n"
    }
}

/// The hook scripts of the synchronisation library, which sync without
/// silencing errors.
pub open spec fn sync_hook_script_text(before_push: bool) -> Seq<char> {
    if before_push {
        "#!/bin/sh\n# git-notes auto-sync push\ngit-notes sync push\n"@
    } else {
        "#!/bin/sh\n# git-notes auto-sync pull\ngit-notes sync pull\n"@
    }
}

/// The synchronisation library's hook script to run before a push, or
/// after a merge.
pub fn sync_hook_script(before_push: bool) -> (r: &'static str)
    ensures
        r@ == sync_hook_script_text(before_push),
{
    if before_push {
        "#!/bin/sh\n# git-notes auto-sync push\ngit-notes sync push\n"
    } else {
        "#!/bin/sh\n# git-notes auto-sync pull\ngit-notes sync pull\n"
    }
}

/// The hooks installed by either script mention `git-notes`, so
/// uninstalling removes them.
pub proof fn law_installed_hooks_are_recognized(before_push: bool)
    ensures
        is_notes_hook_text(hook_script_text(before_push)),
        is_notes_hook_text(sync_hook_script_text(before_push)),
{
    let g = "git-notes"@;
    let a = hook_script_text(before_push);
    let b = sync_hook_script_text(before_push);
    reveal_strlit("git-notes");
    reveal_strlit("#!/bin/sh\n# git-notes auto-sync hook\ngit-notes sync push --quiet 2>/dev/null || true\n");
    reveal_strlit("#!/bin/sh\n# git-notes auto-sync hook\ngit-notes sync pull --quiet 2>/dev/null || true\n");
    reveal_strlit("#!/bin/sh\n# git-notes auto-sync push\ngit-notes sync push\n");
    reveal_strlit("#!/bin/sh\n# git-notes auto-sync pull\ngit-notes sync pull\n");
    assert(a.subrange(12, 21) =~= g);
    assert(b.subrange(12, 21) =~= g);
    assert(crate::text::occurs_at(a, g, 12));
    assert(crate::text::occurs_at(b, g, 12));
}

/// The file a stored note refers to: its non-empty `file` text, where it
/// has one.
pub open spec fn referenced_path(note: Json) -> Option<Seq<char>> {
    match json_str(json_get(note, "file"@)) {
        Some(f) => if f.len() > 0 {
            Some(f)
        } else {
            None
        },
        None => None,
    }
}

/// The file that a stored note, read as JSON, refers to.
pub fn referenced_file(note: &Json) -> (r: Option<String>)
    ensures
        r.deep_view() == referenced_path(*note),
{
    match as_str(get(note, "file")) {
        Some(f) => if chars_of(f.as_str()).len() > 0 {
            Some(f)
        } else {
            None
        },
        None => None,
    }
}

/// The file that a stored note blob refers to, where the blob is a JSON
/// document with a non-empty `file` text.
pub fn note_blob_file(blob: &[u8]) -> (r: Option<String>)
    ensures
        r.deep_view() == match json_parsed(blob@) {
            Some(j) => referenced_path(j),
            None => None,
        },
{
    match parse_json(blob) {
        Some(j) => referenced_file(&j),
        None => None,
    }
}

/// Where the lines a note was anchored to stand in the file today.
#[derive(Debug, Clone, Copy, PartialEq, Eq, Structural)]
pub enum AnchorState {
    /// The lines are where they were.
    Intact,
    /// The lines are found first starting at this line (counting from one),
    /// but not where they were.
    Moved(usize),
    /// The lines are nowhere in the file.
    Deleted,
}

/// The lines `block` stand in `lines` starting at position `k` (from zero).
pub open spec fn block_at(lines: Seq<Seq<char>>, block: Seq<Seq<char>>, k: int) -> bool {
    0 <= k && k + block.len() <= lines.len() && lines.subrange(k, k + block.len()) == block
}

/// The range `start..=end` (from one) names lines of a file of `len` lines.
pub open spec fn range_in(start: u32, end: u32, len: nat) -> bool {
    1 <= start && start <= end && end <= len
}

/// The lines `start..=end` (from one) of a text.
pub open spec fn anchored_block(text: Seq<char>, start: u32, end: u32) -> Seq<Seq<char>> {
    text_lines(text).subrange(start - 1, end as int)
}

fn block_matches(cur: &Vec<Vec<char>>, old: &Vec<Vec<char>>, from: usize, len: usize, k: usize) -> (r: bool)
    requires
        from + len <= old@.len(),
        k + len <= cur@.len(),
    ensures
        r == block_at(rows_view(cur@), rows_view(old@).subrange(from as int, from + len), k as int),
{
    let ghost cv = rows_view(cur@);
    let ghost block = rows_view(old@).subrange(from as int, from + len);
    let cl = cur.len();
    let ol = old.len();
    let mut t: usize = 0;
    while t < len
        invariant
            cl == cur@.len(),
            ol == old@.len(),
            t <= len,
            from + len <= old@.len(),
            k + len <= cur@.len(),
            cv == rows_view(cur@),
            block == rows_view(old@).subrange(from as int, from + len),
            forall|u: int| 0 <= u < t ==> cv[k + u] == block[u],
        decreases len - t,
    {
        if !chars_equal(&cur[k + t], &old[from + t]) {
            assert(cv.subrange(k as int, k + len)[t as int] != block[t as int]);
            return false;
        }
        t = t + 1;
    }
    assert(cv.subrange(k as int, k + len) =~= block);
    true
}

/// Judges whether the lines `start..=end` (from one) of the file as it was
/// when the note was anchored (`old_text`) are still where they were in the
/// file today (`new_text`), have moved (and where they are first found), or
/// are gone; `None` where the range does not name lines of the old file.
pub fn anchor_state(old_text: &str, new_text: &str, start: u32, end: u32) -> (r: Option<AnchorState>)
    ensures
        ({
            let block = anchored_block(old_text@, start, end);
            let cur = text_lines(new_text@);
            match r {
                None => !range_in(start, end, text_lines(old_text@).len()),
                Some(st) => range_in(start, end, text_lines(old_text@).len()) && match st {
                    AnchorState::Intact => block_at(cur, block, start - 1),
                    AnchorState::Moved(k) => !block_at(cur, block, start - 1) && 1 <= k && block_at(cur, block, k - 1)
                        && forall|j: int| 0 <= j < k - 1 ==> !block_at(cur, block, j),
                    AnchorState::Deleted => forall|j: int| !block_at(cur, block, j),
                },
            }
        }),
{
    let old = split_lines(&chars_of(old_text));
    let cur = split_lines(&chars_of(new_text));
    let ghost block = anchored_block(old_text@, start, end);
    let ghost cv = text_lines(new_text@);
    if start < 1 || start > end || end as usize > old.len() {
        return None;
    }
    let from = (start - 1) as usize;
    let len = (end - start + 1) as usize;
    assert(rows_view(old@).subrange(from as int, from + len) =~= block);
    if from + len <= cur.len() && block_matches(&cur, &old, from, len, from) {
        return Some(AnchorState::Intact);
    }
    if len > cur.len() {
        assert forall|j: int| !block_at(cv, block, j) by {}
        return Some(AnchorState::Deleted);
    }
    let cl = cur.len();
    let mut k: usize = 0;
    while k <= cl - len
        invariant
            cl == cur@.len(),
            len >= 1,
            range_in(start, end, text_lines(old_text@).len()),
            from == start - 1,
            cv == text_lines(new_text@),
            block == anchored_block(old_text@, start, end),
            from + len <= old@.len(),
            len <= cur@.len(),
            k <= cur@.len() - len + 1,
            cv == rows_view(cur@),
            block == rows_view(old@).subrange(from as int, from + len),
            block.len() == len,
            !block_at(cv, block, from as int),
            forall|j: int| 0 <= j < k ==> !block_at(cv, block, j),
        decreases cur@.len() - k,
    {
        if block_matches(&cur, &old, from, len, k) {
            return Some(AnchorState::Moved(k + 1));
        }
        k = k + 1;
    }
    assert forall|j: int| !block_at(cv, block, j) by {
        if block_at(cv, block, j) {
            assert(j < k);
        }
    }
    Some(AnchorState::Deleted)
}

} // verus!
