//! Markdown export of notes, grouped by file.

use vstd::prelude::*;
use crate::ids::{utc_display, utc_display_text};
use crate::note::{Note, NoteStatus, NoteView, notes_view};
use crate::order::{insert_sorted, strictly_sorted, lemma_sorted_unique};
use crate::select::{same_ignoring_ascii_case, status_lower};
use crate::text::{append_chars, append_str, chars_of, decimal, push_decimal, rows_view, string_of, text_or_empty};

verus! {

/// Options of the export command.
pub struct ExportArgs {
    /// Format: json, html or markdown.
    pub format: String,
    /// Output directory.
    pub out_dir: String,
}

/// The name of a status, as `Debug` prints it.
pub open spec fn status_name(s: NoteStatus) -> Seq<char> {
    match s {
        NoteStatus::Open => "Open"@,
        NoteStatus::Resolved => "Resolved"@,
        NoteStatus::Approved => "Approved"@,
        NoteStatus::Rejected => "Rejected"@,
    }
}

/// The name of a status.
pub fn status_text(s: NoteStatus) -> (r: &'static str)
    ensures
        r@ == status_name(s),
{
    match s {
        NoteStatus::Open => "Open",
        NoteStatus::Resolved => "Resolved",
        NoteStatus::Approved => "Approved",
        NoteStatus::Rejected => "Rejected",
    }
}

/// The markdown entry of one note.
pub open spec fn note_entry(n: NoteView) -> Seq<char> {
    "### Line "@ + decimal(
        match n.line_start {
            Some(l) => l as nat,
            None => 0,
        },
    ) + " - "@ + n.author + " ("@ + text_or_empty(utc_display_text(n.timestamp.secs, n.timestamp.nanos))
        + ")\n\n"@ + "**Status:** "@ + status_name(n.status) + "\n\n"@ + n.body + "\n\n"@
}

/// The entries of the notes on file `f`, in the order given.
pub open spec fn file_entries(notes: Seq<NoteView>, f: Seq<char>) -> Seq<char>
    decreases notes.len(),
{
    if notes.len() == 0 {
        Seq::empty()
    } else {
        file_entries(notes.drop_last(), f) + if notes.last().file == Some(f) {
            note_entry(notes.last())
        } else {
            Seq::empty()
        }
    }
}

/// One section per file: a heading, then the file's notes.
pub open spec fn file_sections(files: Seq<Seq<char>>, notes: Seq<NoteView>) -> Seq<char>
    decreases files.len(),
{
    if files.len() == 0 {
        Seq::empty()
    } else {
        file_sections(files.drop_last(), notes) + "## "@ + files.last() + "\n\n"@ + file_entries(
            notes,
            files.last(),
        )
    }
}

/// `files` lists, in ascending order and once each, the files that notes
/// are attached to.
pub open spec fn files_in_order(notes: Seq<NoteView>, files: Seq<Seq<char>>) -> bool {
    &&& strictly_sorted(files)
    &&& forall|x: Seq<char>| files.contains(x) <==> exists|i: int| 0 <= i < notes.len() && #[trigger] notes[i].file == Some(x)
}

/// The markdown document for the notes, with sections for `files`.
pub open spec fn markdown_text(notes: Seq<NoteView>, files: Seq<Seq<char>>) -> Seq<char> {
    "# Git Notes\n\n"@ + file_sections(files, notes)
}

fn push_entry(md: &mut Vec<char>, n: &Note)
    ensures
        final(md)@ == old(md)@ + note_entry(n@),
{
    append_str(md, "### Line ");
    let line: u64 = match n.line_start {
        Some(l) => l as u64,
        None => 0,
    };
    push_decimal(md, line);
    append_str(md, " - ");
    append_str(md, n.author.as_str());
    append_str(md, " (");
    match utc_display(n.timestamp) {
        Some(t) => append_str(md, t.as_str()),
        None => {},
    }
    append_str(md, ")\n\n");
    append_str(md, "**Status:** ");
    append_str(md, status_text(n.status));
    append_str(md, "\n\n");
    append_str(md, n.body.as_str());
    append_str(md, "\n\n");
    assert(final(md)@ =~= old(md)@ + note_entry(n@));
}

/// Renders the notes attached to files as a markdown document: one section
/// per file, in ascending order of file names, listing that file's notes in
/// the order given. Notes without a file are left out.
pub fn generate_markdown(all_notes: &[Note]) -> (r: String)
    ensures
        exists|files: Seq<Seq<char>>| files_in_order(notes_view(all_notes@), files) && r@ == markdown_text(notes_view(all_notes@), files),
{
    let ghost ns = notes_view(all_notes@);
    let mut files: Vec<Vec<char>> = Vec::new();
    let mut i: usize = 0;
    while i < all_notes.len()
        invariant
            i <= all_notes@.len(),
            ns == notes_view(all_notes@),
            strictly_sorted(rows_view(files@)),
            forall|x: Seq<char>| rows_view(files@).contains(x) <==> exists|k: int| 0 <= k < i && #[trigger] ns[k].file == Some(x),
        decreases all_notes.len() - i,
    {
        let ghost before = rows_view(files@);
        match &all_notes[i] {
            n => match &n.file {
                Some(f) => {
                    let fc = chars_of(f.as_str());
                    insert_sorted(&mut files, &fc);
                    assert(ns[i as int].file == Some(fc@));
                },
                None => {
                    assert(ns[i as int].file is None);
                },
            },
        }
        assert forall|x: Seq<char>| rows_view(files@).contains(x) <==> exists|k: int| 0 <= k < i + 1 && #[trigger] ns[k].file == Some(x) by {
            if exists|k: int| 0 <= k < i + 1 && #[trigger] ns[k].file == Some(x) {
                let k = choose|k: int| 0 <= k < i + 1 && #[trigger] ns[k].file == Some(x);
                if k < i {
                    assert(before.contains(x));
                }
            }
        }
        i = i + 1;
    }
    let mut md: Vec<char> = chars_of("# Git Notes\n\n");
    let mut fi: usize = 0;
    while fi < files.len()
        invariant
            fi <= files@.len(),
            ns == notes_view(all_notes@),
            md@ == "# Git Notes\n\n"@ + file_sections(rows_view(files@).subrange(0, fi as int), ns),
        decreases files.len() - fi,
    {
        let ghost fs = rows_view(files@);
        let f = &files[fi];
        let ghost md_head = md@;
        append_str(&mut md, "## ");
        append_chars(&mut md, f);
        append_str(&mut md, "\n\n");
        let ghost md_mid = md@;
        let mut j: usize = 0;
        while j < all_notes.len()
            invariant
                j <= all_notes@.len(),
                ns == notes_view(all_notes@),
                md@ == md_mid + file_entries(ns.subrange(0, j as int), f@),
            decreases all_notes.len() - j,
        {
            let n = &all_notes[j];
            let ghost pre = ns.subrange(0, j as int);
            let ghost post = ns.subrange(0, j + 1);
            assert(post.drop_last() =~= pre);
            assert(post.last() == n@);
            let on_file = match &n.file {
                Some(nf) => {
                    let nfc = chars_of(nf.as_str());
                    crate::text::chars_equal(&nfc, f)
                },
                None => false,
            };
            if on_file {
                push_entry(&mut md, n);
                assert(md@ =~= md_mid + file_entries(post, f@));
            } else {
                assert(md@ =~= md_mid + file_entries(post, f@));
            }
            j = j + 1;
        }
        assert(ns.subrange(0, all_notes@.len() as int) =~= ns);
        let ghost sub = fs.subrange(0, fi + 1);
        assert(sub.drop_last() =~= fs.subrange(0, fi as int));
        assert(sub.last() == f@);
        assert(md@ =~= "# Git Notes\n\n"@ + file_sections(sub, ns));
        fi = fi + 1;
    }
    assert(rows_view(files@).subrange(0, files@.len() as int) =~= rows_view(files@));
    assert(files_in_order(ns, rows_view(files@)));
    string_of(&md)
}

/// The order of the sections is determined: two lists of files that both
/// list the notes' files in ascending order, once each, are the same.
pub proof fn law_sections_unique(notes: Seq<NoteView>, a: Seq<Seq<char>>, b: Seq<Seq<char>>)
    requires
        files_in_order(notes, a),
        files_in_order(notes, b),
    ensures
        a == b,
{
    lemma_sorted_unique(a, b);
}

/// The status written for a note is its status's name as `list --status`
/// accepts it, with the first letter capitalised: it equals the lowercase
/// name ignoring ASCII case, starts with an uppercase letter, and different
/// statuses are written differently.
pub proof fn law_status_names(s: NoteStatus, t: NoteStatus)
    ensures
        same_ignoring_ascii_case(status_name(s), status_lower(s)),
        status_name(s).len() > 0 && 'A' <= status_name(s)[0] <= 'Z',
        status_name(s).drop_first() == status_lower(s).drop_first(),
        s != t ==> status_name(s) != status_name(t),
{
    reveal(same_ignoring_ascii_case);
    reveal_strlit("Open");
    reveal_strlit("Resolved");
    reveal_strlit("Approved");
    reveal_strlit("Rejected");
    reveal_strlit("open");
    reveal_strlit("resolved");
    reveal_strlit("approved");
    reveal_strlit("rejected");
    assert(('O' as u32) + 32 == 'o' as u32);
    assert(('R' as u32) + 32 == 'r' as u32);
    assert(('A' as u32) + 32 == 'a' as u32);
    assert(((('O' as u32) + 32) as char) == 'o');
    assert(((('R' as u32) + 32) as char) == 'r');
    assert(((('A' as u32) + 32) as char) == 'a');
    if s != t {
        if status_name(s).len() == status_name(t).len() {
            assert(status_name(s)[0] != status_name(t)[0] || status_name(s)[2] != status_name(t)[2]);
        }
    }
}

} // verus!
