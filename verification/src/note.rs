//! Notes: comments anchored to a commit and optionally to a file and a
//! range of lines.

use vstd::prelude::*;
use crate::ids::{Timestamp, fresh_id, now, id_text, rfc3339, id_hyphenated_text, rfc3339_text};
use crate::namespace::{Namespace, NamespaceView};
use crate::text::{
    append_str, append_chars, chars_of, clone_opt_string, clone_strings, decimal, push_decimal,
    string_of, text_or_empty,
};

verus! {

/// The review state of a note.
#[derive(Debug, Clone, Copy, PartialEq, Eq, Structural)]
pub enum NoteStatus {
    Open,
    Resolved,
    Approved,
    Rejected,
}

/// A note anchored to a commit.
#[derive(Debug)]
pub struct Note {
    /// Random 128-bit identifier.
    pub id: u128,
    /// The commit the note is anchored to.
    pub commit: String,
    /// Relative file path.
    pub file: Option<String>,
    pub line_start: Option<u32>,
    pub line_end: Option<u32>,
    /// Markdown body.
    pub body: String,
    /// "Name <email>"
    pub author: String,
    pub timestamp: Timestamp,
    pub namespace: Namespace,
    /// For replies: the id of the parent note.
    pub thread_id: Option<u128>,
    pub status: NoteStatus,
    pub tags: Vec<String>,
    pub signature: Option<String>,
}

/// A note as a mathematical value.
pub struct NoteView {
    pub id: u128,
    pub commit: Seq<char>,
    pub file: Option<Seq<char>>,
    pub line_start: Option<u32>,
    pub line_end: Option<u32>,
    pub body: Seq<char>,
    pub author: Seq<char>,
    pub timestamp: Timestamp,
    pub namespace: NamespaceView,
    pub thread_id: Option<u128>,
    pub status: NoteStatus,
    pub tags: Seq<Seq<char>>,
    pub signature: Option<Seq<char>>,
}

impl View for Note {
    type V = NoteView;

    open spec fn view(&self) -> NoteView {
        NoteView {
            id: self.id,
            commit: self.commit@,
            file: self.file.deep_view(),
            line_start: self.line_start,
            line_end: self.line_end,
            body: self.body@,
            author: self.author@,
            timestamp: self.timestamp,
            namespace: self.namespace@,
            thread_id: self.thread_id,
            status: self.status,
            tags: self.tags.deep_view(),
            signature: self.signature.deep_view(),
        }
    }
}

/// The views of a list of notes.
pub open spec fn notes_view(s: Seq<Note>) -> Seq<NoteView> {
    s.map_values(|n: Note| n@)
}

impl Clone for Note {
    fn clone(&self) -> (r: Self)
        ensures
            r@ == self@,
    {
        Note {
            id: self.id,
            commit: self.commit.clone(),
            file: clone_opt_string(&self.file),
            line_start: self.line_start,
            line_end: self.line_end,
            body: self.body.clone(),
            author: self.author.clone(),
            timestamp: self.timestamp,
            namespace: self.namespace.clone(),
            thread_id: self.thread_id,
            status: self.status,
            tags: clone_strings(&self.tags),
            signature: clone_opt_string(&self.signature),
        }
    }
}

/// A fresh note's fields, given its identity and creation time.
pub open spec fn fresh_note(
    id: u128,
    timestamp: Timestamp,
    commit: Seq<char>,
    file: Option<Seq<char>>,
    line_start: Option<u32>,
    line_end: Option<u32>,
    body: Seq<char>,
    author: Seq<char>,
    namespace: NamespaceView,
    thread_id: Option<u128>,
) -> NoteView {
    NoteView {
        id,
        commit,
        file,
        line_start,
        line_end,
        body,
        author,
        timestamp,
        namespace,
        thread_id,
        status: NoteStatus::Open,
        tags: Seq::empty(),
        signature: None,
    }
}

/// An identifier that `fresh_id` can produce: version 4, RFC variant.
pub open spec fn is_random_id(id: u128) -> bool {
    (id >> 76u128) & 15u128 == 4u128 && (id >> 62u128) & 3u128 == 2u128
}

/// A random identifier is never the nil identifier.
pub proof fn lemma_random_id_not_nil(id: u128)
    requires
        is_random_id(id),
    ensures
        id != 0,
{
    assert(id == 0 ==> (id >> 76u128) & 15u128 == 0u128) by (bit_vector);
}

/// The canonical text that is signed and verified for a note.
pub open spec fn signing_payload_text(n: NoteView) -> Seq<char> {
    "id: "@ + id_hyphenated_text(n.id) + "\ncommit: "@ + n.commit + "\nfile: "@ + text_or_empty(
        n.file,
    ) + "\nline_start: "@ + (match n.line_start {
        Some(l) => decimal(l as nat),
        None => Seq::empty(),
    }) + "\nbody: "@ + n.body + "\nauthor: "@ + n.author + "\ntimestamp: "@ + text_or_empty(
        rfc3339_text(n.timestamp.secs, n.timestamp.nanos),
    ) + "\n"@
}

impl Note {
    /// A note with the given identity and creation time, in state `Open`,
    /// without tags or signature.
    pub fn from_parts(
        id: u128,
        timestamp: Timestamp,
        commit: String,
        file: Option<String>,
        line_start: Option<u32>,
        line_end: Option<u32>,
        body: String,
        author: String,
        namespace: Namespace,
        thread_id: Option<u128>,
    ) -> (r: Note)
        ensures
            r@ == fresh_note(
                id,
                timestamp,
                commit@,
                file.deep_view(),
                line_start,
                line_end,
                body@,
                author@,
                namespace@,
                thread_id,
            ),
    {
        let tags: Vec<String> = Vec::new();
        let r = Note {
            id,
            commit,
            file,
            line_start,
            line_end,
            body,
            author,
            timestamp,
            namespace,
            thread_id,
            status: NoteStatus::Open,
            tags,
            signature: None,
        };
        assert(r.tags.deep_view() =~= Seq::<Seq<char>>::empty());
        r
    }

    /// A new open note with a fresh random identifier and the current time.
    pub fn new(
        commit: String,
        file: Option<String>,
        line_start: Option<u32>,
        line_end: Option<u32>,
        body: String,
        author: String,
        namespace: Namespace,
    ) -> (r: Note)
        ensures
            r@ == fresh_note(
                r.id,
                r.timestamp,
                commit@,
                file.deep_view(),
                line_start,
                line_end,
                body@,
                author@,
                namespace@,
                None,
            ),
            is_random_id(r.id),
            r.timestamp.nanos < 1_000_000_000,
            rfc3339_text(r.timestamp.secs, r.timestamp.nanos) is Some,
    {
        let id = fresh_id();
        let timestamp = now();
        Note::from_parts(id, timestamp, commit, file, line_start, line_end, body, author, namespace, None)
    }

    /// A reply to `parent` with the given identity and creation time: it
    /// shares the parent's anchor and namespace and points to the parent.
    pub fn reply_from_parts(parent: &Note, body: String, author: String, id: u128, timestamp: Timestamp) -> (r: Note)
        ensures
            r@ == fresh_note(
                id,
                timestamp,
                parent@.commit,
                parent@.file,
                parent@.line_start,
                parent@.line_end,
                body@,
                author@,
                parent@.namespace,
                Some(parent@.id),
            ),
    {
        Note::from_parts(
            id,
            timestamp,
            parent.commit.clone(),
            clone_opt_string(&parent.file),
            parent.line_start,
            parent.line_end,
            body,
            author,
            parent.namespace.clone(),
            Some(parent.id),
        )
    }

    /// A reply to `parent` with a fresh random identifier and the current time.
    pub fn reply(parent: &Note, body: String, author: String) -> (r: Note)
        ensures
            r@ == fresh_note(
                r.id,
                r.timestamp,
                parent@.commit,
                parent@.file,
                parent@.line_start,
                parent@.line_end,
                body@,
                author@,
                parent@.namespace,
                Some(parent@.id),
            ),
            is_random_id(r.id),
            r.timestamp.nanos < 1_000_000_000,
            rfc3339_text(r.timestamp.secs, r.timestamp.nanos) is Some,
    {
        let id = fresh_id();
        let timestamp = now();
        Note::reply_from_parts(parent, body, author, id, timestamp)
    }

    /// The canonical payload string to sign and verify.
    pub fn signing_payload(&self) -> (r: String)
        ensures
            r@ == signing_payload_text(self@),
    {
        let mut out: Vec<char> = Vec::new();
        append_str(&mut out, "id: ");
        let id = id_text(self.id);
        append_str(&mut out, id.as_str());
        append_str(&mut out, "\ncommit: ");
        append_str(&mut out, self.commit.as_str());
        append_str(&mut out, "\nfile: ");
        match &self.file {
            Some(f) => append_str(&mut out, f.as_str()),
            None => {},
        }
        append_str(&mut out, "\nline_start: ");
        match self.line_start {
            Some(l) => push_decimal(&mut out, l as u64),
            None => {},
        }
        append_str(&mut out, "\nbody: ");
        append_str(&mut out, self.body.as_str());
        append_str(&mut out, "\nauthor: ");
        append_str(&mut out, self.author.as_str());
        append_str(&mut out, "\ntimestamp: ");
        match rfc3339(self.timestamp) {
            Some(t) => append_str(&mut out, t.as_str()),
            None => {},
        }
        append_str(&mut out, "\n");
        let r = string_of(&out);
        assert(r@ =~= signing_payload_text(self@));
        r
    }
}

} // verus!
