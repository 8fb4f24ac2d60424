//! The notes store: notes live as JSON blobs, one per note, in a tree that
//! a commit under `refs/notes/<namespace>` points to. This module holds the
//! store's handle and reads and writes the listings that Git exchanges with
//! it; the Git processes themselves are run by the caller.

use vstd::prelude::*;
use vstd::utf8::{valid_utf8, decode_utf8};
use crate::ids::{hex_lower, id_hyphenated_text, id_nibble, id_simple_text, id_text};
use crate::note::{Note, NoteView, notes_view};
use crate::text::{
    append_chars, append_str, chars_of, ends_with, has_suffix, parse_bounded, parse_bounded_text,
    rows_view, slice_chars, split_lines, split_words, string_of, text_lines, words, lines_from, strip_cr,
};

verus! {

/// A handle on the notes of one repository.
pub struct NotesEngine {
    pub repo_path: String,
}

impl NotesEngine {
    /// A handle on the repository at `repo_path`.
    pub fn new(repo_path: &str) -> (r: Self)
        ensures
            r.repo_path@ == repo_path@,
    {
        NotesEngine { repo_path: repo_path.to_owned() }
    }
}

/// `std::str::from_utf8`: the text that the bytes encode, where they are
/// valid UTF-8.
#[verifier::external_body]
pub(crate) fn utf8_text(bytes: &[u8]) -> (r: Option<String>)
    ensures
        r is Some <==> valid_utf8(bytes@),
        r matches Some(s) ==> s@ == decode_utf8(bytes@),
{
    match std::str::from_utf8(bytes) {
        Ok(s) => Some(s.to_string()),
        Err(_) => None,
    }
}

/// The third word of each line of a `git ls-tree` listing that has at
/// least four words: the object names of the entries.
pub open spec fn tree_blob_names(lines: Seq<Seq<char>>) -> Seq<Seq<char>>
    decreases lines.len(),
{
    if lines.len() == 0 {
        Seq::empty()
    } else {
        let w = words(lines.last());
        tree_blob_names(lines.drop_last()) + if w.len() >= 4 {
            seq![w[2]]
        } else {
            Seq::empty()
        }
    }
}

/// The object names listed by `git ls-tree -r`.
pub fn ls_tree_blob_hashes(listing: &str) -> (r: Vec<String>)
    ensures
        r.deep_view() == tree_blob_names(text_lines(listing@)),
{
    let lines = split_lines(&chars_of(listing));
    let mut out: Vec<String> = Vec::new();
    let mut i: usize = 0;
    while i < lines.len()
        invariant
            i <= lines@.len(),
            rows_view(lines@) == text_lines(listing@),
            out.deep_view() == tree_blob_names(rows_view(lines@).subrange(0, i as int)),
        decreases lines.len() - i,
    {
        let ghost sub = rows_view(lines@).subrange(0, i + 1);
        assert(sub.drop_last() =~= rows_view(lines@).subrange(0, i as int));
        assert(sub.last() == lines@[i as int]@);
        let parts = split_words(&lines[i]);
        let ghost before = out.deep_view();
        if parts.len() >= 4 {
            assert(rows_view(parts@)[2] == parts@[2]@);
            out.push(string_of(&parts[2]));
            assert(out.deep_view() =~= before + seq![parts@[2]@]);
        } else {
            assert(out.deep_view() =~= before + Seq::<Seq<char>>::empty());
        }
        i = i + 1;
    }
    assert(rows_view(lines@).subrange(0, lines@.len() as int) =~= rows_view(lines@));
    out
}

/// The first line feed in `data` at or after `from`.
#[verifier::opaque]
pub open spec fn newline_at(data: Seq<u8>, from: int) -> Option<int> {
    if exists|j: int| from <= j < data.len() && data[j] == 10u8 {
        Some(choose|j: int| from <= j < data.len() && data[j] == 10u8 && forall|k: int| from <= k < j ==> data[k] != 10u8)
    } else {
        None
    }
}

/// The blobs of a `git cat-file --batch` output from position `cursor` on:
/// after each header line `<name> <type> <size>` come `size` bytes of
/// content and a line feed. Header lines with fewer than three words are
/// skipped; reading stops at a missing line feed, a header that is not
/// UTF-8, a size that is not a number, or content that runs past the end.
/// `None` where a size is so large that adding it to the position
/// overflows.
#[verifier::opaque]
pub open spec fn batch_from(data: Seq<u8>, cursor: int) -> Option<Seq<Seq<u8>>>
    decreases data.len() - cursor,
{
    if cursor < 0 || cursor >= data.len() {
        Some(Seq::empty())
    } else {
        match newline_at(data, cursor) {
            None => Some(Seq::empty()),
            Some(nl) => if nl < cursor || nl >= data.len() {
                Some(Seq::empty())
            } else {
                let header = data.subrange(cursor, nl);
                if !valid_utf8(header) {
                    Some(Seq::empty())
                } else {
                    let parts = words(decode_utf8(header));
                    let c2 = nl + 1;
                    if parts.len() < 3 {
                        batch_from(data, c2)
                    } else {
                        match parse_bounded_text(parts[2], usize::MAX as nat) {
                            None => Some(Seq::empty()),
                            Some(size) => if c2 + size > usize::MAX {
                                None
                            } else if c2 + size > data.len() {
                                Some(Seq::empty())
                            } else {
                                let c3 = c2 + size;
                                let c4 = if c3 < data.len() && data[c3] == 10u8 {
                                    c3 + 1
                                } else {
                                    c3
                                };
                                match batch_from(data, c4) {
                                    Some(rest) => Some(seq![data.subrange(c2, c3)] + rest),
                                    None => None,
                                }
                            },
                        }
                    }
                }
            },
        }
    }
}

/// The blobs of a `git cat-file --batch` output.
pub open spec fn batch_blobs(data: Seq<u8>) -> Option<Seq<Seq<u8>>> {
    batch_from(data, 0)
}

/// The views of a list of byte vectors.
pub open spec fn byte_rows(v: Seq<Vec<u8>>) -> Seq<Seq<u8>> {
    v.map_values(|r: Vec<u8>| r@)
}

fn find_newline(data: &[u8], from: usize) -> (r: Option<usize>)
    requires
        from <= data@.len(),
    ensures
        match r {
            Some(j) => newline_at(data@, from as int) == Some(j as int),
            None => newline_at(data@, from as int) is None,
        },
        r matches Some(j) ==> from <= j < data.len(),
{
    reveal(newline_at);
    let mut j = from;
    while j < data.len()
        invariant
            from <= j <= data@.len(),
            forall|k: int| from <= k < j ==> data@[k] != 10u8,
        decreases data.len() - j,
    {
        if data[j] == 10 {
            proof {
                reveal(newline_at);
                let d = data@;
                let f = from as int;
                let c = choose|x: int| f <= x < d.len() && d[x] == 10u8 && forall|k: int| f <= k < x ==> d[k] != 10u8;
                assert(f <= j < d.len() && d[j as int] == 10u8);
                assert(exists|x: int| f <= x < d.len() && d[x] == 10u8 && forall|k: int| f <= k < x ==> d[k] != 10u8);
                assert(exists|x: int| f <= x < d.len() && d[x] == 10u8);
                assert(newline_at(d, f) == Some(c));
                assert(c == j as int) by {
                    if c < j {
                        assert(d[c] != 10u8);
                    }
                    if c > j {
                        assert(d[j as int] != 10u8);
                    }
                }
            }
            return Some(j);
        }
        j = j + 1;
    }
    proof {
        reveal(newline_at);
    }
    None
}

fn copy_bytes(data: &[u8], from: usize, to: usize) -> (r: Vec<u8>)
    requires
        from <= to <= data@.len(),
    ensures
        r@ == data@.subrange(from as int, to as int),
{
    let mut r: Vec<u8> = Vec::new();
    let mut i = from;
    while i < to
        invariant
            from <= i <= to <= data@.len(),
            r@ == data@.subrange(from as int, i as int),
        decreases to - i,
    {
        r.push(data[i]);
        i = i + 1;
        assert(r@ =~= data@.subrange(from as int, i as int));
    }
    r
}

/// One step of reading a `git cat-file --batch` output.
enum BatchStep {
    /// Reading stops here.
    End,
    /// A size makes the position overflow.
    Overflow,
    /// A header without a size; reading goes on at the position given.
    Skip(usize),
    /// A blob between the first two positions; reading goes on at the third.
    Blob(usize, usize, usize),
}

fn batch_step(data: &[u8], cursor: usize) -> (r: BatchStep)
    requires
        cursor < data@.len(),
    ensures
        match r {
            BatchStep::End => batch_from(data@, cursor as int) == Some(Seq::<Seq<u8>>::empty()),
            BatchStep::Overflow => batch_from(data@, cursor as int) is None,
            BatchStep::Skip(n) => cursor < n <= data@.len() && batch_from(data@, cursor as int)
                == batch_from(data@, n as int),
            BatchStep::Blob(a, b, n) => {
                &&& cursor < a <= b <= n <= data@.len()
                &&& cursor < n
                &&& batch_from(data@, cursor as int) == match batch_from(data@, n as int) {
                    Some(rest) => Some(seq![data@.subrange(a as int, b as int)] + rest),
                    None => None,
                }
            },
        },
{
    reveal(batch_from);
    let nl = match find_newline(data, cursor) {
        Some(nl) => nl,
        None => {
            return BatchStep::End;
        },
    };
    let header_bytes = copy_bytes(data, cursor, nl);
    let header = match utf8_text(&header_bytes) {
        Some(h) => h,
        None => {
            return BatchStep::End;
        },
    };
    let parts = split_words(&chars_of(header.as_str()));
    let c2 = nl + 1;
    if parts.len() < 3 {
        return BatchStep::Skip(c2);
    }
    assert(rows_view(parts@)[2] == parts@[2]@);
    let size = match parse_bounded(&parts[2], usize::MAX as u64) {
        Some(s) => s as usize,
        None => {
            return BatchStep::End;
        },
    };
    if size > usize::MAX - c2 {
        return BatchStep::Overflow;
    }
    if c2 + size > data.len() {
        return BatchStep::End;
    }
    let c3 = c2 + size;
    let c4 = if c3 < data.len() && data[c3] == 10 {
        c3 + 1
    } else {
        c3
    };
    BatchStep::Blob(c2, c3, c4)
}

/// The blobs of a `git cat-file --batch` output, or `None` where a size is
/// so large that the position would overflow.
pub fn try_parse_cat_file_batch(data: &[u8]) -> (r: Option<Vec<Vec<u8>>>)
    ensures
        match r {
            Some(v) => batch_blobs(data@) == Some(byte_rows(v@)),
            None => batch_blobs(data@) is None,
        },
{
    let mut out: Vec<Vec<u8>> = Vec::new();
    let mut cursor: usize = 0;
    assert(byte_rows(out@) =~= Seq::<Seq<u8>>::empty());
    while cursor < data.len()
        invariant
            cursor <= data@.len(),
            match batch_from(data@, cursor as int) {
                Some(rest) => batch_blobs(data@) == Some(byte_rows(out@) + rest),
                None => batch_blobs(data@) is None,
            },
        decreases data.len() - cursor,
    {
        let ghost before = byte_rows(out@);
        match batch_step(data, cursor) {
            BatchStep::End => {
                assert(before + Seq::<Seq<u8>>::empty() =~= before);
                return Some(out);
            },
            BatchStep::Overflow => {
                return None;
            },
            BatchStep::Skip(n) => {
                cursor = n;
            },
            BatchStep::Blob(a, b, n) => {
                let blob = copy_bytes(data, a, b);
                out.push(blob);
                proof {
                    assert(byte_rows(out@) =~= before.push(data@.subrange(a as int, b as int)));
                    match batch_from(data@, n as int) {
                        Some(rest) => {
                            assert(byte_rows(out@) + rest =~= before + (seq![data@.subrange(a as int, b as int)] + rest));
                        },
                        None => {},
                    }
                }
                cursor = n;
            },
        }
    }
    proof {
        reveal(batch_from);
    }
    assert(byte_rows(out@) + Seq::<Seq<u8>>::empty() =~= byte_rows(out@));
    Some(out)
}

/// The blobs of a `git cat-file --batch` output whose sizes do not make
/// the position overflow.
pub fn parse_cat_file_batch(data: &[u8]) -> (r: Vec<Vec<u8>>)
    requires
        batch_blobs(data@) is Some,
    ensures
        batch_blobs(data@) == Some(byte_rows(r@)),
{
    match try_parse_cat_file_batch(data) {
        Some(v) => v,
        None => Vec::new(),
    }
}

/// The lines of a tree listing that do not end with `id`.
pub open spec fn kept_entries(lines: Seq<Seq<char>>, id: Seq<char>) -> Seq<char>
    decreases lines.len(),
{
    if lines.len() == 0 {
        Seq::empty()
    } else {
        kept_entries(lines.drop_last(), id) + if has_suffix(lines.last(), id) {
            Seq::empty()
        } else {
            lines.last() + "\n"@
        }
    }
}

/// Some line of a tree listing ends with `id`.
pub open spec fn has_entry(lines: Seq<Seq<char>>, id: Seq<char>) -> bool {
    exists|i: int| 0 <= i < lines.len() && has_suffix(#[trigger] lines[i], id)
}

fn filter_entries(entries: &str, id: &str) -> (r: (Vec<char>, bool))
    ensures
        r.0@ == kept_entries(text_lines(entries@), id@),
        r.1 == has_entry(text_lines(entries@), id@),
{
    let lines = split_lines(&chars_of(entries));
    let idc = chars_of(id);
    let mut out: Vec<char> = Vec::new();
    let mut found = false;
    let mut i: usize = 0;
    while i < lines.len()
        invariant
            i <= lines@.len(),
            rows_view(lines@) == text_lines(entries@),
            idc@ == id@,
            out@ == kept_entries(rows_view(lines@).subrange(0, i as int), id@),
            found == has_entry(rows_view(lines@).subrange(0, i as int), id@),
        decreases lines.len() - i,
    {
        let ghost sub = rows_view(lines@).subrange(0, i + 1);
        let ghost pre = rows_view(lines@).subrange(0, i as int);
        assert(sub.drop_last() =~= pre);
        assert(sub.last() == lines@[i as int]@);
        if ends_with(&lines[i], &idc) {
            found = true;
            assert(has_suffix(sub[i as int], id@));
        } else {
            append_chars(&mut out, &lines[i]);
            append_str(&mut out, "\n");
            assert(has_entry(sub, id@) == has_entry(pre, id@)) by {
                if has_entry(sub, id@) {
                    let k = choose|k: int| 0 <= k < sub.len() && has_suffix(#[trigger] sub[k], id@);
                    assert(pre[k] == sub[k]);
                }
                if has_entry(pre, id@) {
                    let k = choose|k: int| 0 <= k < pre.len() && has_suffix(#[trigger] pre[k], id@);
                    assert(pre[k] == sub[k]);
                }
            }
        }
        assert(found ==> has_entry(sub, id@)) by {
            if found && has_entry(pre, id@) {
                let k = choose|k: int| 0 <= k < pre.len() && has_suffix(#[trigger] pre[k], id@);
                assert(pre[k] == sub[k]);
            }
        }
        assert(has_entry(sub, id@) ==> found) by {
            if has_entry(sub, id@) {
                let k = choose|k: int| 0 <= k < sub.len() && has_suffix(#[trigger] sub[k], id@);
                if k < i {
                    assert(pre[k] == sub[k]);
                }
            }
        }
        assert(out@ =~= kept_entries(sub, id@));
        i = i + 1;
    }
    assert(rows_view(lines@).subrange(0, lines@.len() as int) =~= rows_view(lines@));
    (out, found)
}

/// The `git mktree` input that stores blob `blob_hash` under the name `id`:
/// the existing entries except those ending with `id`, then the new entry.
pub open spec fn tree_with_entry(entries: Seq<char>, id: Seq<char>, blob_hash: Seq<char>) -> Seq<char> {
    kept_entries(text_lines(entries), id) + "100644 blob "@ + blob_hash + "\t"@ + id + "\n"@
}

/// The `git mktree` input that adds or replaces the entry for `id`.
pub fn tree_input_with_entry(entries: &str, id: &str, blob_hash: &str) -> (r: String)
    ensures
        r@ == tree_with_entry(entries@, id@, blob_hash@),
{
    let (mut out, _) = filter_entries(entries, id);
    append_str(&mut out, "100644 blob ");
    append_str(&mut out, blob_hash);
    append_str(&mut out, "\t");
    append_str(&mut out, id);
    append_str(&mut out, "\n");
    string_of(&out)
}

/// The `git mktree` input without the entry for `id`, or `None` where the
/// tree has no entry for it.
pub fn tree_input_without_entry(entries: &str, id: &str) -> (r: Option<String>)
    ensures
        match r {
            Some(t) => has_entry(text_lines(entries@), id@) && t@ == kept_entries(text_lines(entries@), id@),
            None => !has_entry(text_lines(entries@), id@),
        },
{
    let (out, found) = filter_entries(entries, id);
    if found {
        Some(string_of(&out))
    } else {
        None
    }
}

/// The lines of a tree listing that do not end with `id`, in order.
pub open spec fn kept_lines(lines: Seq<Seq<char>>, id: Seq<char>) -> Seq<Seq<char>>
    decreases lines.len(),
{
    if lines.len() == 0 {
        Seq::empty()
    } else {
        kept_lines(lines.drop_last(), id) + if has_suffix(lines.last(), id) {
            Seq::empty()
        } else {
            seq![lines.last()]
        }
    }
}

/// `s` holds neither a line feed nor a carriage return.
pub open spec fn single_line(s: Seq<char>) -> bool {
    forall|i: int| 0 <= i < s.len() ==> #[trigger] s[i] != '\n' && s[i] != '\r'
}

/// `s` holds no carriage return.
pub open spec fn no_cr(s: Seq<char>) -> bool {
    forall|i: int| 0 <= i < s.len() ==> #[trigger] s[i] != '\r'
}

/// The entry line that `tree_with_entry` adds for `id`.
pub open spec fn entry_line(id: Seq<char>, blob_hash: Seq<char>) -> Seq<char> {
    "100644 blob "@ + blob_hash + "\t"@ + id
}

proof fn lemma_lines_append(a: Seq<char>, b: Seq<char>, cur: Seq<char>)
    requires
        a.len() > 0,
        a.last() == '\n',
    ensures
        lines_from(a + b, cur) == lines_from(a, cur) + lines_from(b, Seq::empty()),
    decreases a.len(),
{
    let ab = a + b;
    assert(ab[0] == a[0]);
    assert(ab.drop_first() =~= a.drop_first() + b);
    if a[0] == '\n' {
        if a.len() == 1 {
            assert(a.drop_first() =~= Seq::<char>::empty());
            assert(a.drop_first() + b =~= b);
            assert(lines_from(a.drop_first(), Seq::empty()) =~= Seq::<Seq<char>>::empty());
            assert(lines_from(a, cur) =~= seq![strip_cr(cur)]);
        } else {
            lemma_lines_append(a.drop_first(), b, Seq::empty());
            assert(lines_from(a + b, cur) =~= lines_from(a, cur) + lines_from(b, Seq::empty()));
        }
    } else {
        lemma_lines_append(a.drop_first(), b, cur.push(a[0]));
    }
}

proof fn lemma_one_line(l: Seq<char>, cur: Seq<char>)
    requires
        single_line(l),
        single_line(cur),
    ensures
        lines_from(l + "\n"@, cur) == seq![cur + l],
    decreases l.len(),
{
    reveal_strlit("\n");
    let s = l + "\n"@;
    if l.len() == 0 {
        assert(s =~= "\n"@);
        assert(s.drop_first() =~= Seq::<char>::empty());
        assert(cur + l =~= cur);
        if cur.len() > 0 {
            assert(cur[cur.len() - 1] != '\r');
        }
        assert(strip_cr(cur) == cur);
        assert(s.len() == 1 && s[0] == '\n');
        assert(lines_from(s.drop_first(), Seq::empty()) =~= Seq::<Seq<char>>::empty());
        assert(lines_from(s, cur) =~= seq![cur]);
    } else {
        assert(s[0] == l[0]);
        assert(s.drop_first() =~= l.drop_first() + "\n"@);
        let c2 = cur.push(l[0]);
        assert forall|i: int| 0 <= i < c2.len() implies #[trigger] c2[i] != '\n' && c2[i] != '\r' by {
            if i < cur.len() {
                assert(c2[i] == cur[i]);
            }
        }
        assert forall|i: int| 0 <= i < l.drop_first().len() implies #[trigger] l.drop_first()[i] != '\n'
            && l.drop_first()[i] != '\r' by {
            assert(l.drop_first()[i] == l[i + 1]);
        }
        lemma_one_line(l.drop_first(), c2);
        assert(c2 + l.drop_first() =~= cur + l);
    }
}

proof fn lemma_lines_single(s: Seq<char>, cur: Seq<char>)
    requires
        single_line(cur),
        no_cr(s),
    ensures
        forall|k: int| 0 <= k < lines_from(s, cur).len() ==> single_line(#[trigger] lines_from(s, cur)[k]),
    decreases s.len(),
{
    if s.len() == 0 {
        if cur.len() > 0 {
            assert(lines_from(s, cur) =~= seq![cur]);
        } else {
            assert(lines_from(s, cur) =~= Seq::<Seq<char>>::empty());
        }
    } else if s[0] == '\n' {
        assert forall|i: int| 0 <= i < s.drop_first().len() implies #[trigger] s.drop_first()[i] != '\r' by {
            assert(s.drop_first()[i] == s[i + 1]);
        }
        lemma_lines_single(s.drop_first(), Seq::empty());
        if cur.len() > 0 {
            assert(cur[cur.len() - 1] != '\r');
        }
        assert(strip_cr(cur) == cur);
        let rest = lines_from(s.drop_first(), Seq::empty());
        assert(lines_from(s, cur) == seq![cur] + rest);
        assert forall|k: int| 0 <= k < lines_from(s, cur).len() implies single_line(
            #[trigger] lines_from(s, cur)[k],
        ) by {
            if k > 0 {
                assert(lines_from(s, cur)[k] == rest[k - 1]);
            }
        }
    } else {
        let c2 = cur.push(s[0]);
        assert forall|i: int| 0 <= i < c2.len() implies #[trigger] c2[i] != '\n' && c2[i] != '\r' by {
            if i < cur.len() {
                assert(c2[i] == cur[i]);
            }
        }
        assert forall|i: int| 0 <= i < s.drop_first().len() implies #[trigger] s.drop_first()[i] != '\r' by {
            assert(s.drop_first()[i] == s[i + 1]);
        }
        lemma_lines_single(s.drop_first(), c2);
        assert(lines_from(s, cur) == lines_from(s.drop_first(), c2));
    }
}

proof fn lemma_kept_lines(lines: Seq<Seq<char>>, id: Seq<char>)
    requires
        forall|k: int| 0 <= k < lines.len() ==> single_line(#[trigger] lines[k]),
    ensures
        text_lines(kept_entries(lines, id)) == kept_lines(lines, id),
        kept_entries(lines, id).len() > 0 ==> kept_entries(lines, id).last() == '\n',
    decreases lines.len(),
{
    reveal_strlit("\n");
    if lines.len() == 0 {
        assert(text_lines(Seq::empty()) =~= Seq::<Seq<char>>::empty());
    } else {
        let init = lines.drop_last();
        let last = lines.last();
        assert forall|k: int| 0 <= k < init.len() implies single_line(#[trigger] init[k]) by {
            assert(init[k] == lines[k]);
        }
        lemma_kept_lines(init, id);
        let k0 = kept_entries(init, id);
        if has_suffix(last, id) {
            assert(kept_entries(lines, id) =~= k0);
            assert(kept_lines(lines, id) =~= kept_lines(init, id));
        } else {
            assert(single_line(lines[lines.len() - 1]));
            let x = last + "\n"@;
            assert(kept_entries(lines, id) == k0 + x);
            lemma_one_line(last, Seq::empty());
            assert(Seq::<char>::empty() + last =~= last);
            assert(x.last() == '\n');
            assert((k0 + x).last() == '\n');
            if k0.len() == 0 {
                assert(k0 + x =~= x);
                assert(kept_lines(init, id) =~= Seq::<Seq<char>>::empty()) by {
                    assert(text_lines(k0) =~= Seq::<Seq<char>>::empty());
                }
                assert(kept_lines(lines, id) =~= seq![last]);
            } else {
                lemma_lines_append(k0, x, Seq::empty());
                assert(kept_lines(lines, id) =~= kept_lines(init, id) + seq![last]);
            }
        }
    }
}

proof fn lemma_kept_again(lines: Seq<Seq<char>>, id: Seq<char>)
    ensures
        kept_entries(kept_lines(lines, id), id) == kept_entries(lines, id),
    decreases lines.len(),
{
    if lines.len() > 0 {
        let init = lines.drop_last();
        let last = lines.last();
        lemma_kept_again(init, id);
        if has_suffix(last, id) {
            assert(kept_lines(lines, id) =~= kept_lines(init, id));
        } else {
            let m = kept_lines(lines, id);
            assert(m =~= kept_lines(init, id) + seq![last]);
            assert(m.drop_last() =~= kept_lines(init, id));
            assert(m.last() == last);
        }
    }
}

proof fn lemma_tree_lines(entries: Seq<char>, id: Seq<char>, blob_hash: Seq<char>)
    requires
        no_cr(entries),
        single_line(id),
        single_line(blob_hash),
    ensures
        text_lines(tree_with_entry(entries, id, blob_hash)) == kept_lines(text_lines(entries), id).push(
            entry_line(id, blob_hash),
        ),
        has_suffix(entry_line(id, blob_hash), id),
{
    reveal_strlit("100644 blob ");
    reveal_strlit("\t");
    reveal_strlit("\n");
    let lines = text_lines(entries);
    lemma_lines_single(entries, Seq::empty());
    lemma_kept_lines(lines, id);
    let k0 = kept_entries(lines, id);
    let e = entry_line(id, blob_hash);
    assert(tree_with_entry(entries, id, blob_hash) =~= k0 + (e + "\n"@));
    assert(e.subrange(e.len() - id.len(), e.len() as int) =~= id);
    assert forall|i: int| 0 <= i < e.len() implies #[trigger] e[i] != '\n' && e[i] != '\r' by {
        let p = "100644 blob "@;
        if i < p.len() {
        } else if i < p.len() + blob_hash.len() {
            assert(e[i] == blob_hash[i - p.len()]);
        } else if i == p.len() + blob_hash.len() {
        } else {
            assert(e[i] == id[i - p.len() - blob_hash.len() - 1]);
        }
    }
    lemma_one_line(e, Seq::empty());
    assert(Seq::<char>::empty() + e =~= e);
    if k0.len() == 0 {
        assert(k0 + (e + "\n"@) =~= e + "\n"@);
        assert(kept_lines(lines, id) =~= Seq::<Seq<char>>::empty()) by {
            assert(text_lines(k0) =~= Seq::<Seq<char>>::empty());
        }
    } else {
        lemma_lines_append(k0, e + "\n"@, Seq::empty());
    }
    assert(text_lines(tree_with_entry(entries, id, blob_hash)) =~= kept_lines(lines, id).push(e));
}

/// A second write of a note leaves the tree that the second write alone
/// would make: the later blob replaces the earlier one, and the other
/// entries stay. (Tree listings hold no carriage returns; identifiers and
/// hashes are single lines.)
pub proof fn law_second_write_replaces(entries: Seq<char>, id: Seq<char>, first: Seq<char>, second: Seq<char>)
    requires
        no_cr(entries),
        single_line(id),
        single_line(first),
    ensures
        tree_with_entry(tree_with_entry(entries, id, first), id, second) == tree_with_entry(entries, id, second),
{
    lemma_tree_lines(entries, id, first);
    let m = kept_lines(text_lines(entries), id).push(entry_line(id, first));
    assert(m.drop_last() =~= kept_lines(text_lines(entries), id));
    assert(kept_entries(m, id) == kept_entries(kept_lines(text_lines(entries), id), id));
    lemma_kept_again(text_lines(entries), id);
}

/// A note just written is in the tree, and deleting it leaves the other
/// entries as they were before the write.
pub proof fn law_delete_after_write(entries: Seq<char>, id: Seq<char>, blob_hash: Seq<char>)
    requires
        no_cr(entries),
        single_line(id),
        single_line(blob_hash),
    ensures
        has_entry(text_lines(tree_with_entry(entries, id, blob_hash)), id),
        kept_entries(text_lines(tree_with_entry(entries, id, blob_hash)), id) == kept_entries(
            text_lines(entries),
            id,
        ),
{
    lemma_tree_lines(entries, id, blob_hash);
    let m = kept_lines(text_lines(entries), id).push(entry_line(id, blob_hash));
    assert(m[m.len() - 1] == entry_line(id, blob_hash));
    assert(m.drop_last() =~= kept_lines(text_lines(entries), id));
    lemma_kept_again(text_lines(entries), id);
}

proof fn lemma_nibble_small(x: u128)
    ensures
        x & 15u128 < 16,
{
    assert(x & 15u128 < 16) by (bit_vector);
}

proof fn lemma_id_single_line(id: u128)
    ensures
        single_line(id_hyphenated_text(id)),
{
    let t = id_simple_text(id);
    assert forall|i: int| 0 <= i < t.len() implies #[trigger] t[i] != '\n' && t[i] != '\r' by {
        lemma_nibble_small(id >> ((124 - 4 * i) as u128));
        let n = id_nibble(id, i);
        assert(0 <= n < 16);
        assert(t[i] == hex_lower(n));
        if n < 10 {
            assert(hex_lower(n) == (48 + n) as char);
        } else {
            assert(hex_lower(n) == (87 + n) as char);
        }
    }
    let h = id_hyphenated_text(id);
    assert forall|i: int| 0 <= i < h.len() implies #[trigger] h[i] != '\n' && h[i] != '\r' by {
        if i < 8 {
            assert(h[i] == t[i]);
        } else if i == 8 || i == 13 || i == 18 || i == 23 {
        } else if i < 13 {
            assert(h[i] == t[i - 1]);
        } else if i < 18 {
            assert(h[i] == t[i - 2]);
        } else if i < 23 {
            assert(h[i] == t[i - 3]);
        } else {
            assert(h[i] == t[i - 4]);
        }
    }
}

/// Stores for every note: writing note `id` and then deleting it leaves the
/// other entries of the tree as they were; the entry written is found.
pub proof fn law_note_delete_after_write(entries: Seq<char>, id: u128, blob_hash: Seq<char>)
    requires
        no_cr(entries),
        single_line(blob_hash),
    ensures
        has_entry(text_lines(tree_with_entry(entries, id_hyphenated_text(id), blob_hash)), id_hyphenated_text(id)),
        kept_entries(text_lines(tree_with_entry(entries, id_hyphenated_text(id), blob_hash)), id_hyphenated_text(id))
            == kept_entries(text_lines(entries), id_hyphenated_text(id)),
{
    lemma_id_single_line(id);
    law_delete_after_write(entries, id_hyphenated_text(id), blob_hash);
}

/// The notes of `notes` anchored to `commit`, in order.
pub open spec fn on_commit(notes: Seq<NoteView>, commit: Seq<char>) -> Seq<NoteView> {
    notes.filter(|n: NoteView| n.commit == commit)
}

/// Keeps the notes anchored to `commit`.
pub fn notes_for_commit(notes: Vec<Note>, commit: &str) -> (r: Vec<Note>)
    ensures
        notes_view(r@) == on_commit(notes_view(notes@), commit@),
{
    let c = commit.to_owned();
    let mut out: Vec<Note> = Vec::new();
    let mut i: usize = 0;
    let ghost all = notes_view(notes@);
    while i < notes.len()
        invariant
            i <= notes@.len(),
            all == notes_view(notes@),
            c@ == commit@,
            notes_view(out@) == all.subrange(0, i as int).filter(|n: NoteView| n.commit == commit@),
        decreases notes.len() - i,
    {
        let ghost sub = all.subrange(0, i + 1);
        assert(sub.drop_last() =~= all.subrange(0, i as int));
        reveal_with_fuel(Seq::<_>::filter, 1);
        if String::eq(&notes[i].commit, &c) {
            out.push(notes[i].clone());
        }
        assert(notes_view(out@) =~= sub.filter(|n: NoteView| n.commit == commit@));
        i = i + 1;
    }
    assert(all.subrange(0, notes@.len() as int) =~= all);
    out
}


/// The commit message of a notes tree that stores note `id`.
pub open spec fn update_message_text(id: u128) -> Seq<char> {
    "Update note "@ + id_hyphenated_text(id)
}

/// The commit message for storing note `id`.
pub fn update_message(id: u128) -> (r: String)
    ensures
        r@ == update_message_text(id),
{
    let mut out = chars_of("Update note ");
    append_str(&mut out, id_text(id).as_str());
    crate::text::string_of(&out)
}

/// The commit message of a notes tree that no longer holds note `id`.
pub open spec fn delete_message_text(id: u128) -> Seq<char> {
    "Delete note "@ + id_hyphenated_text(id)
}

/// The commit message for deleting note `id`.
pub fn delete_message(id: u128) -> (r: String)
    ensures
        r@ == delete_message_text(id),
{
    let mut out = chars_of("Delete note ");
    append_str(&mut out, id_text(id).as_str());
    crate::text::string_of(&out)
}

} // verus!
