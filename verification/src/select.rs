//! Choosing and filtering notes as the commands do: a target given by
//! number, id prefix or `latest`, the filters of `list`, line ranges and
//! status names typed by the user.

use vstd::prelude::*;
use crate::ids::{id_hyphenated_text, id_text};
use crate::note::{Note, NoteStatus, NoteView, notes_view};
use crate::text::{
    after_char, append_chars, append_str, before_char, chars_equal, chars_of, find_at, first_at,
    has_prefix, occurs_at, parse_bounded, parse_bounded_text, parse_u32, parse_u32_text, slice_chars,
    starts_with, string_of, trim, trim_start_all, trim_start_copies, trim_white,
};

verus! {

/// What `str::to_lowercase` gives for a text.
pub uninterp spec fn lowercase_of(s: Seq<char>) -> Seq<char>;

/// `str::to_lowercase`: the text with each character replaced by its
/// Unicode lowercase mapping. The mapping is the standard library's; the
/// result is named by `lowercase_of`.
#[verifier::external_body]
pub(crate) fn lowercase(s: &str) -> (r: String)
    ensures
        r@ == lowercase_of(s@),
{
    s.to_lowercase()
}

/// The ASCII lowercase of a character: `A`-`Z` mapped to `a`-`z`.
pub open spec fn ascii_lower(c: char) -> char {
    if 'A' <= c <= 'Z' {
        ((c as u32) + 32) as char
    } else {
        c
    }
}

/// Two texts are equal once ASCII letters are lowercased, as
/// `str::eq_ignore_ascii_case` decides.
#[verifier::opaque]
pub open spec fn same_ignoring_ascii_case(a: Seq<char>, b: Seq<char>) -> bool {
    a.len() == b.len() && forall|i: int| 0 <= i < a.len() ==> ascii_lower(#[trigger] a[i]) == ascii_lower(b[i])
}

fn lower_ascii(c: char) -> (r: char)
    ensures
        r == ascii_lower(c),
{
    if 'A' <= c && c <= 'Z' {
        let n = (c as u32) + 32;
        let r = crate::remote::ascii_char(n as u8);
        assert(r == ((c as u32) + 32) as char);
        r
    } else {
        c
    }
}

/// Whether two texts are equal once ASCII letters are lowercased.
pub fn eq_ignore_ascii_case(a: &[char], b: &[char]) -> (r: bool)
    ensures
        r == same_ignoring_ascii_case(a@, b@),
{
    if a.len() != b.len() {
        proof {
            reveal(same_ignoring_ascii_case);
        }
        return false;
    }
    let mut i: usize = 0;
    while i < a.len()
        invariant
            a@.len() == b@.len(),
            i <= a@.len(),
            forall|j: int| 0 <= j < i ==> ascii_lower(#[trigger] a@[j]) == ascii_lower(b@[j]),
        decreases a.len() - i,
    {
        if lower_ascii(a[i]) != lower_ascii(b[i]) {
            proof {
                reveal(same_ignoring_ascii_case);
            }
            return false;
        }
        i = i + 1;
    }
    proof {
        reveal(same_ignoring_ascii_case);
    }
    true
}

/// The target text of a note reference: trimmed, without leading `#`.
pub open spec fn target_text(raw: Seq<char>) -> Seq<char> {
    trim_start_all(trim_white(raw), seq!['#'])
}

/// The position of the first note whose hyphenated id starts with `p`.
#[verifier::opaque]
pub open spec fn first_with_prefix(notes: Seq<NoteView>, p: Seq<char>) -> Option<int> {
    if exists|i: int| 0 <= i < notes.len() && has_prefix(id_hyphenated_text(#[trigger] notes[i].id), p) {
        Some(
            choose|i: int|
                0 <= i < notes.len() && has_prefix(id_hyphenated_text(#[trigger] notes[i].id), p) && forall|j: int|
                    0 <= j < i ==> !has_prefix(id_hyphenated_text(#[trigger] notes[j].id), p),
        )
    } else {
        None
    }
}

/// The position of the note a reference names: `latest` (in any ASCII
/// case) or `^` name the last note; a number `k` names the `k`-th note,
/// counting from one, where there is one; any other text names the first
/// note whose id starts with it.
pub open spec fn chosen_index(notes: Seq<NoteView>, raw: Seq<char>) -> Option<int> {
    let t = target_text(raw);
    if same_ignoring_ascii_case(t, "latest"@) || t == "^"@ {
        if notes.len() > 0 {
            Some(notes.len() - 1)
        } else {
            None
        }
    } else {
        match parse_bounded_text(t, usize::MAX as nat) {
            Some(k) => if 1 <= k <= notes.len() {
                Some(k - 1)
            } else {
                None
            },
            None => first_with_prefix(notes, t),
        }
    }
}

/// The position of the first note whose id starts with `p`.
pub fn find_by_prefix(notes: &[Note], p: &[char]) -> (r: Option<usize>)
    ensures
        match r {
            Some(i) => first_with_prefix(notes_view(notes@), p@) == Some(i as int) && i < notes@.len(),
            None => first_with_prefix(notes_view(notes@), p@) is None,
        },
{
    let ghost nv = notes_view(notes@);
    let mut i: usize = 0;
    while i < notes.len()
        invariant
            i <= notes@.len(),
            nv == notes_view(notes@),
            forall|j: int| 0 <= j < i ==> !has_prefix(id_hyphenated_text(#[trigger] nv[j].id), p@),
        decreases notes.len() - i,
    {
        let id = id_text(notes[i].id);
        assert(nv[i as int].id == notes@[i as int].id);
        if starts_with(&chars_of(id.as_str()), p) {
            proof {
                reveal(first_with_prefix);
                let c = choose|k: int|
                    0 <= k < nv.len() && has_prefix(id_hyphenated_text(#[trigger] nv[k].id), p@) && forall|j: int|
                        0 <= j < k ==> !has_prefix(id_hyphenated_text(#[trigger] nv[j].id), p@);
                assert(0 <= i < nv.len() && has_prefix(id_hyphenated_text(nv[i as int].id), p@));
                if c < i {
                    assert(!has_prefix(id_hyphenated_text(nv[c].id), p@));
                }
                if c > i {
                    assert(!has_prefix(id_hyphenated_text(nv[i as int].id), p@));
                }
            }
            return Some(i);
        }
        i = i + 1;
    }
    proof {
        reveal(first_with_prefix);
    }
    None
}

/// The position of the note that a reference such as `3`, `#3`, `latest`,
/// `^` or an id prefix names.
pub fn select_note(notes: &[Note], raw: &str) -> (r: Option<usize>)
    ensures
        match r {
            Some(i) => chosen_index(notes_view(notes@), raw@) == Some(i as int) && i < notes@.len(),
            None => chosen_index(notes_view(notes@), raw@) is None,
        },
{
    let hash = vec!['#'];
    assert(hash@ =~= seq!['#']);
    let t = trim_start_copies(&trim(&chars_of(raw)), &hash);
    if eq_ignore_ascii_case(&t, &chars_of("latest")) || chars_equal(&t, &chars_of("^")) {
        if notes.len() > 0 {
            return Some(notes.len() - 1);
        } else {
            return None;
        }
    }
    assert(usize::MAX as u64 == usize::MAX);
    match parse_bounded(&t, usize::MAX as u64) {
        Some(k) => {
            if 1 <= k && k <= notes.len() as u64 {
                Some((k - 1) as usize)
            } else {
                None
            }
        },
        None => find_by_prefix(notes, &t),
    }
}

/// The notes that reply to the note `id`, in order.
pub open spec fn replies_of(notes: Seq<NoteView>, id: u128) -> Seq<NoteView> {
    notes.filter(|n: NoteView| n.thread_id == Some(id))
}

/// Copies the notes that reply to the note `id`.
pub fn replies_to(notes: &[Note], id: u128) -> (r: Vec<Note>)
    ensures
        notes_view(r@) == replies_of(notes_view(notes@), id),
{
    let ghost all = notes_view(notes@);
    let mut out: Vec<Note> = Vec::new();
    let mut i: usize = 0;
    while i < notes.len()
        invariant
            i <= notes@.len(),
            all == notes_view(notes@),
            notes_view(out@) == all.subrange(0, i as int).filter(|n: NoteView| n.thread_id == Some(id)),
        decreases notes.len() - i,
    {
        let ghost sub = all.subrange(0, i + 1);
        assert(sub.drop_last() =~= all.subrange(0, i as int));
        reveal_with_fuel(Seq::<_>::filter, 1);
        if notes[i].thread_id == Some(id) {
            out.push(notes[i].clone());
        }
        assert(notes_view(out@) =~= sub.filter(|n: NoteView| n.thread_id == Some(id)));
        i = i + 1;
    }
    assert(all.subrange(0, notes@.len() as int) =~= all);
    out
}

/// The lowercase name of a status.
pub open spec fn status_lower(s: NoteStatus) -> Seq<char> {
    match s {
        NoteStatus::Open => "open"@,
        NoteStatus::Resolved => "resolved"@,
        NoteStatus::Approved => "approved"@,
        NoteStatus::Rejected => "rejected"@,
    }
}

fn status_lower_text(s: NoteStatus) -> (r: &'static str)
    ensures
        r@ == status_lower(s),
{
    match s {
        NoteStatus::Open => "open",
        NoteStatus::Resolved => "resolved",
        NoteStatus::Approved => "approved",
        NoteStatus::Rejected => "rejected",
    }
}

/// `s` occurs somewhere in `t`.
pub open spec fn contains_text(t: Seq<char>, s: Seq<char>) -> bool {
    first_at(t, s) is Some
}

/// The filters of `list`: a file, a commit, a status (compared in
/// lowercase) and a text that the author contains; each applies where given.
pub open spec fn list_keeps(
    n: NoteView,
    file: Option<Seq<char>>,
    commit: Option<Seq<char>>,
    status: Option<Seq<char>>,
    author: Option<Seq<char>>,
) -> bool {
    &&& (file matches Some(f) ==> n.file == Some(f))
    &&& (commit matches Some(c) ==> n.commit == c)
    &&& (status matches Some(s) ==> status_lower(n.status) == lowercase_of(s))
    &&& (author matches Some(a) ==> contains_text(n.author, a))
}

fn opt_text(s: &Option<String>) -> (r: Option<Vec<char>>)
    ensures
        match r {
            Some(v) => s.deep_view() == Some(v@),
            None => s is None,
        },
{
    match s {
        Some(t) => Some(chars_of(t.as_str())),
        None => None,
    }
}

/// Keeps the notes that pass the filters of `list`, in order.
pub fn filter_notes(
    notes: &[Note],
    file: &Option<String>,
    commit: &Option<String>,
    status: &Option<String>,
    author: &Option<String>,
) -> (r: Vec<Note>)
    ensures
        notes_view(r@) == notes_view(notes@).filter(
            |n: NoteView| list_keeps(n, file.deep_view(), commit.deep_view(), status.deep_view(), author.deep_view()),
        ),
{
    let fc = opt_text(file);
    let cc = opt_text(commit);
    let sc: Option<Vec<char>> = match status {
        Some(s) => Some(chars_of(lowercase(s.as_str()).as_str())),
        None => None,
    };
    let ac = opt_text(author);
    let ghost keep = |n: NoteView| list_keeps(n, file.deep_view(), commit.deep_view(), status.deep_view(), author.deep_view());
    let ghost all = notes_view(notes@);
    let mut out: Vec<Note> = Vec::new();
    let mut i: usize = 0;
    while i < notes.len()
        invariant
            i <= notes@.len(),
            all == notes_view(notes@),
            keep == (|n: NoteView| list_keeps(n, file.deep_view(), commit.deep_view(), status.deep_view(), author.deep_view())),
            match fc { Some(v) => file.deep_view() == Some(v@), None => file is None },
            match cc { Some(v) => commit.deep_view() == Some(v@), None => commit is None },
            match sc { Some(v) => status is Some && v@ == lowercase_of(status.deep_view().unwrap()), None => status is None },
            match ac { Some(v) => author.deep_view() == Some(v@), None => author is None },
            notes_view(out@) == all.subrange(0, i as int).filter(keep),
        decreases notes.len() - i,
    {
        let ghost sub = all.subrange(0, i + 1);
        assert(sub.drop_last() =~= all.subrange(0, i as int));
        reveal_with_fuel(Seq::<_>::filter, 1);
        let n = &notes[i];
        assert(all[i as int] == n@);
        let ok_file = match &fc {
            Some(f) => match &n.file {
                Some(nf) => chars_equal(&chars_of(nf.as_str()), f),
                None => false,
            },
            None => true,
        };
        let ok_commit = match &cc {
            Some(c) => chars_equal(&chars_of(n.commit.as_str()), c),
            None => true,
        };
        let ok_status = match &sc {
            Some(s) => chars_equal(&chars_of(status_lower_text(n.status)), s),
            None => true,
        };
        let ok_author = match &ac {
            Some(a) => find_at(&chars_of(n.author.as_str()), a).is_some(),
            None => true,
        };
        if ok_file && ok_commit && ok_status && ok_author {
            out.push(n.clone());
        }
        assert(notes_view(out@) =~= sub.filter(keep));
        i = i + 1;
    }
    assert(all.subrange(0, notes@.len() as int) =~= all);
    out
}

/// A status named by the user, in any case: `approved`, `rejected`,
/// `resolved` or `open`.
pub open spec fn status_named(s: Seq<char>) -> Option<NoteStatus> {
    let l = lowercase_of(s);
    if l == "approved"@ {
        Some(NoteStatus::Approved)
    } else if l == "rejected"@ {
        Some(NoteStatus::Rejected)
    } else if l == "resolved"@ {
        Some(NoteStatus::Resolved)
    } else if l == "open"@ {
        Some(NoteStatus::Open)
    } else {
        None
    }
}

/// Reads a status name, or the error that names the accepted ones.
pub fn parse_status(s: &str) -> (r: Result<NoteStatus, String>)
    ensures
        match r {
            Ok(st) => status_named(s@) == Some(st),
            Err(e) => status_named(s@) is None && e@ == "Invalid status. Use approved, rejected, resolved, or open."@,
        },
{
    let l = chars_of(lowercase(s).as_str());
    if chars_equal(&l, &chars_of("approved")) {
        Ok(NoteStatus::Approved)
    } else if chars_equal(&l, &chars_of("rejected")) {
        Ok(NoteStatus::Rejected)
    } else if chars_equal(&l, &chars_of("resolved")) {
        Ok(NoteStatus::Resolved)
    } else if chars_equal(&l, &chars_of("open")) {
        Ok(NoteStatus::Open)
    } else {
        Err("Invalid status. Use approved, rejected, resolved, or open.".to_string())
    }
}

/// The line range that `add` reads from `10` or `10-15`: nothing from an
/// empty text; with one hyphen, the numbers on either side (each where it
/// is one); with more hyphens, nothing; else the number as both ends.
pub open spec fn line_range(s: Seq<char>) -> (Option<u32>, Option<u32>) {
    if s.len() == 0 {
        (None, None)
    } else if first_at(s, seq!['-']) is Some {
        let a = before_char(s, '-');
        let b = after_char(s, '-');
        if first_at(b, seq!['-']) is None {
            (parse_u32_text(a), parse_u32_text(b))
        } else {
            (None, None)
        }
    } else {
        (parse_u32_text(s), parse_u32_text(s))
    }
}

/// Reads a line range such as `10` or `10-15`.
pub fn parse_line_range(s: &str) -> (r: (Option<u32>, Option<u32>))
    ensures
        r == line_range(s@),
{
    let c = chars_of(s);
    if c.len() == 0 {
        return (None, None);
    }
    let dash = vec!['-'];
    assert(dash@ =~= seq!['-']);
    match find_at(&c, &dash) {
        Some(i) => {
            assert(i + 1 <= c@.len());
            let a = slice_chars(&c, 0, i);
            let b = slice_chars(&c, i + 1, c.len());
            if find_at(&b, &dash).is_none() {
                (parse_u32(&a), parse_u32(&b))
            } else {
                (None, None)
            }
        },
        None => {
            let v = parse_u32(&c);
            (v, v)
        },
    }
}

/// The name part of an author line `Name <email>`: the text before the
/// first `<`, trimmed.
pub open spec fn author_name(author: Seq<char>) -> Seq<char> {
    trim_white(before_char(author, '<'))
}

/// The name part of an author line.
pub fn author_short(author: &str) -> (r: String)
    ensures
        r@ == author_name(author@),
{
    let c = chars_of(author);
    let lt = vec!['<'];
    assert(lt@ =~= seq!['<']);
    let before = match find_at(&c, &lt) {
        Some(i) => slice_chars(&c, 0, i),
        None => c,
    };
    string_of(&trim(&before))
}

/// An author line made of a name and an e-mail address, each trimmed.
pub open spec fn author_line_text(name: Seq<char>, email: Seq<char>) -> Seq<char> {
    trim_white(name) + " <"@ + trim_white(email) + ">"@
}

/// Builds the author line `Name <email>`.
pub fn author_line(name: &str, email: &str) -> (r: String)
    ensures
        r@ == author_line_text(name@, email@),
{
    let mut out = trim(&chars_of(name));
    append_str(&mut out, " <");
    let e = trim(&chars_of(email));
    append_chars(&mut out, &e);
    append_str(&mut out, ">");
    string_of(&out)
}

/// The author filter of `list` keeps a note exactly when the filter text
/// occurs somewhere in the note's author, at any position.
pub proof fn law_author_filter_is_substring(n: NoteView, a: Seq<char>)
    ensures
        list_keeps(n, None, None, None, Some(a)) <==> exists|i: int|
            0 <= i && i + a.len() <= n.author.len() && #[trigger] n.author.subrange(i, i + a.len()) == a,
{
    if exists|i: int| 0 <= i && i + a.len() <= n.author.len() && #[trigger] n.author.subrange(i, i + a.len()) == a {
        let i = choose|i: int| 0 <= i && i + a.len() <= n.author.len() && #[trigger] n.author.subrange(i, i + a.len()) == a;
        assert(occurs_at(n.author, a, i));
    }
}

/// The file and commit filters of `list` keep a note exactly when it is on
/// that file, and on that commit; with no filter every note is kept.
pub proof fn law_list_filters(n: NoteView, f: Seq<char>, c: Seq<char>)
    ensures
        list_keeps(n, None, None, None, None),
        list_keeps(n, Some(f), None, None, None) <==> n.file == Some(f),
        list_keeps(n, None, Some(c), None, None) <==> n.commit == c,
{
}

} // verus!
