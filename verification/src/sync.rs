//! Exchanging notes with peers, remotes and bundle files: addresses, ref
//! names and refspecs.

use vstd::prelude::*;
use crate::ids::{fresh_id, id_simple, id_simple_text};
use crate::namespace::{Namespace, NamespaceView, namespace_name};
use crate::note::{Note, NoteView, notes_view};
use crate::text::{
    append_chars, append_str, chars_of, first_at, has_prefix, has_suffix, find_at, parse_u32,
    parse_u32_text, slice_chars, split_lines, starts_with, ends_with, string_of, text_lines, trim,
    trim_white, trim_end_all, trim_end_copies, rows_view, decimal, push_decimal, occurs_at,
};

verus! {

/// What a peer synchronisation fetched and merged.
pub struct P2pReport {
    pub peer: String,
    pub fetched: usize,
    pub merged: usize,
}

/// What a bundle export or import did.
pub struct BundleReport {
    pub path: String,
    pub refs_count: usize,
    pub fetched: usize,
    pub merged: usize,
}

/// What `str::parse::<u16>` gives.
pub open spec fn parse_u16_text(s: Seq<char>) -> Option<u16> {
    match parse_u32_text(s) {
        Some(v) => if v <= 65535 {
            Some(v as u16)
        } else {
            None
        },
        None => None,
    }
}

/// Parses an unsigned 16-bit decimal number, as `str::parse::<u16>` does.
pub fn parse_u16(s: &[char]) -> (r: Option<u16>)
    ensures
        r == parse_u16_text(s@),
{
    match parse_u32(s) {
        Some(v) => if v <= 65535 {
            Some(v as u16)
        } else {
            None
        },
        None => None,
    }
}

/// A peer address without surrounding white space, without a leading
/// `git://` and without trailing slashes.
pub open spec fn peer_core(peer: Seq<char>) -> Seq<char> {
    let s = trim_white(peer);
    let s = if has_prefix(s, "git://"@) {
        s.subrange("git://"@.len() as int, s.len() as int)
    } else {
        s
    };
    trim_end_all(s, seq!['/'])
}

/// The host and port a peer address denotes: the text before the first
/// colon and the port after it, where that is a valid port; the whole
/// address and the default port otherwise.
pub open spec fn peer_address(peer: Seq<char>, default_port: u16) -> (Seq<char>, u16) {
    let s = peer_core(peer);
    match first_at(s, seq![':']) {
        Some(i) => match parse_u16_text(s.subrange(i + 1, s.len() as int)) {
            Some(p) => (s.subrange(0, i), p),
            None => (s, default_port),
        },
        None => (s, default_port),
    }
}

/// Parses a peer address into host and port, e.g. `192.168.1.50:9418`,
/// `192.168.1.50` (default port) or `git://192.168.1.50:9418/`.
pub fn parse_peer_address(peer: &str, default_port: u16) -> (r: (String, u16))
    ensures
        (r.0@, r.1) == peer_address(peer@, default_port),
{
    let t = trim(&chars_of(peer));
    let scheme = chars_of("git://");
    let s1 = if starts_with(&t, &scheme) {
        slice_chars(&t, scheme.len(), t.len())
    } else {
        t
    };
    let slash = vec!['/'];
    assert(slash@ =~= seq!['/']);
    let s = trim_end_copies(&s1, &slash);
    let colon = vec![':'];
    assert(colon@ =~= seq![':']);
    match find_at(&s, &colon) {
        Some(i) => {
            assert(occurs_at(s@, colon@, i as int));
            assert(i < s.len());
            let port_text = slice_chars(&s, i + 1, s.len());
            match parse_u16(&port_text) {
                Some(p) => (string_of(&slice_chars(&s, 0, i)), p),
                None => (string_of(&s), default_port),
            }
        },
        None => (string_of(&s), default_port),
    }
}

/// The refspec that fetches all note refs below `refs/notes/<token>/`.
pub open spec fn temp_refspec_text(token: Seq<char>) -> Seq<char> {
    "refs/notes/*:refs/notes/"@ + token + "/*"@
}

/// The refspec that fetches all note refs below `refs/notes/<token>/`.
pub fn temp_refspec(token: &str) -> (r: String)
    ensures
        r@ == temp_refspec_text(token@),
{
    let mut v = chars_of("refs/notes/*:refs/notes/");
    append_str(&mut v, token);
    append_str(&mut v, "/*");
    string_of(&v)
}

/// The prefix of the refs fetched under `token`.
pub open spec fn temp_ref_prefix_text(token: Seq<char>) -> Seq<char> {
    "refs/notes/"@ + token + "/"@
}

/// The prefix of the refs fetched under `token`.
pub fn temp_ref_prefix(token: &str) -> (r: String)
    ensures
        r@ == temp_ref_prefix_text(token@),
{
    let mut v = chars_of("refs/notes/");
    append_str(&mut v, token);
    append_str(&mut v, "/");
    string_of(&v)
}

/// A fresh token for temporary refs: the kind, an underscore, and the 32
/// hexadecimal digits of a random identifier.
pub fn fresh_token(kind: &str) -> (r: String)
    ensures
        exists|id: u128| r@ == kind@ + "_"@ + id_simple_text(id),
{
    let id = fresh_id();
    let mut v = chars_of(kind);
    append_str(&mut v, "_");
    let hex = id_simple(id);
    append_str(&mut v, hex.as_str());
    string_of(&v)
}

/// The trimmed lines of a listing that start with `prefix`, in order.
pub open spec fn lines_with_prefix(lines: Seq<Seq<char>>, prefix: Seq<char>) -> Seq<Seq<char>>
    decreases lines.len(),
{
    if lines.len() == 0 {
        Seq::empty()
    } else {
        let l = trim_white(lines.last());
        lines_with_prefix(lines.drop_last(), prefix) + if has_prefix(l, prefix) {
            seq![l]
        } else {
            Seq::empty()
        }
    }
}

/// The refs in a `git for-each-ref` listing that start with `prefix`.
pub fn refs_with_prefix(listing: &str, prefix: &str) -> (r: Vec<String>)
    ensures
        r.deep_view() == lines_with_prefix(text_lines(listing@), prefix@),
{
    let lines = split_lines(&chars_of(listing));
    let p = chars_of(prefix);
    let mut out: Vec<String> = Vec::new();
    let mut i: usize = 0;
    while i < lines.len()
        invariant
            i <= lines@.len(),
            rows_view(lines@) == text_lines(listing@),
            p@ == prefix@,
            out.deep_view() == lines_with_prefix(rows_view(lines@).subrange(0, i as int), prefix@),
        decreases lines.len() - i,
    {
        let ghost sub = rows_view(lines@).subrange(0, i + 1);
        assert(sub.drop_last() =~= rows_view(lines@).subrange(0, i as int));
        assert(sub.last() == lines@[i as int]@);
        let l = trim(&lines[i]);
        let ghost before = out.deep_view();
        if starts_with(&l, &p) {
            out.push(string_of(&l));
            assert(out.deep_view() =~= before + seq![l@]);
        } else {
            assert(out.deep_view() =~= before + Seq::<Seq<char>>::empty());
        }
        i = i + 1;
    }
    assert(rows_view(lines@).subrange(0, lines@.len() as int) =~= rows_view(lines@));
    out
}

/// A ref that a bundle export carries: a note ref that is not one of the
/// temporary refs of bundle imports, peer synchronisation or fetches.
pub open spec fn exportable_ref(l: Seq<char>) -> bool {
    &&& has_prefix(l, "refs/notes/"@)
    &&& first_at(l, "/bundle_"@) is None
    &&& first_at(l, "/imported_"@) is None
    &&& first_at(l, "/p2p_"@) is None
    &&& !has_suffix(l, "_remote"@)
}

/// The exportable refs of a listing, trimmed, in order.
pub open spec fn exportable_refs(lines: Seq<Seq<char>>) -> Seq<Seq<char>>
    decreases lines.len(),
{
    if lines.len() == 0 {
        Seq::empty()
    } else {
        let l = trim_white(lines.last());
        exportable_refs(lines.drop_last()) + if exportable_ref(l) {
            seq![l]
        } else {
            Seq::empty()
        }
    }
}

fn is_exportable(l: &[char]) -> (r: bool)
    ensures
        r == exportable_ref(l@),
{
    starts_with(l, &chars_of("refs/notes/")) && find_at(l, &chars_of("/bundle_")).is_none() && find_at(
        l,
        &chars_of("/imported_"),
    ).is_none() && find_at(l, &chars_of("/p2p_")).is_none() && !ends_with(l, &chars_of("_remote"))
}

/// The note refs of a `git for-each-ref` listing that a bundle export
/// carries.
pub fn exportable_note_refs(listing: &str) -> (r: Vec<String>)
    ensures
        r.deep_view() == exportable_refs(text_lines(listing@)),
{
    let lines = split_lines(&chars_of(listing));
    let mut out: Vec<String> = Vec::new();
    let mut i: usize = 0;
    while i < lines.len()
        invariant
            i <= lines@.len(),
            rows_view(lines@) == text_lines(listing@),
            out.deep_view() == exportable_refs(rows_view(lines@).subrange(0, i as int)),
        decreases lines.len() - i,
    {
        let ghost sub = rows_view(lines@).subrange(0, i + 1);
        assert(sub.drop_last() =~= rows_view(lines@).subrange(0, i as int));
        assert(sub.last() == lines@[i as int]@);
        let l = trim(&lines[i]);
        let ghost before = out.deep_view();
        if is_exportable(&l) {
            out.push(string_of(&l));
            assert(out.deep_view() =~= before + seq![l@]);
        } else {
            assert(out.deep_view() =~= before + Seq::<Seq<char>>::empty());
        }
        i = i + 1;
    }
    assert(rows_view(lines@).subrange(0, lines@.len() as int) =~= rows_view(lines@));
    out
}

/// A ref without `prefix`, where it starts with it.
pub open spec fn strip_ref_prefix(r: Seq<char>, prefix: Seq<char>) -> Seq<char> {
    if has_prefix(r, prefix) {
        r.subrange(prefix.len() as int, r.len() as int)
    } else {
        r
    }
}

/// The namespace part of a temporary ref.
pub fn ref_suffix(r: &str, prefix: &str) -> (s: String)
    ensures
        s@ == strip_ref_prefix(r@, prefix@),
{
    let rc = chars_of(r);
    let pc = chars_of(prefix);
    if starts_with(&rc, &pc) {
        string_of(&slice_chars(&rc, pc.len(), rc.len()))
    } else {
        string_of(&rc)
    }
}

/// The name of the temporary namespace that a fetch from `remote` uses for
/// the namespace named `ns`.
pub open spec fn remote_namespace_text(remote: Seq<char>, ns: Seq<char>) -> Seq<char> {
    remote + "_"@ + ns + "_remote"@
}

/// The name of the temporary namespace for fetching `ns` from `remote`.
pub fn remote_namespace_name(remote: &str, ns: &Namespace) -> (r: String)
    ensures
        r@ == remote_namespace_text(remote@, namespace_name(ns@)),
{
    let mut v = chars_of(remote);
    append_str(&mut v, "_");
    let name = ns.to_string();
    append_str(&mut v, name.as_str());
    append_str(&mut v, "_remote");
    string_of(&v)
}

/// The refspec that fetches `ns` from a remote into its temporary ref.
pub open spec fn fetch_refspec_text(remote: Seq<char>, ns: Seq<char>) -> Seq<char> {
    "refs/notes/"@ + ns + ":refs/notes/"@ + remote_namespace_text(remote, ns)
}

/// The refspec that fetches `ns` from `remote` into its temporary ref.
pub fn fetch_refspec(remote: &str, ns: &Namespace) -> (r: String)
    ensures
        r@ == fetch_refspec_text(remote@, namespace_name(ns@)),
{
    let mut v: Vec<char> = Vec::new();
    let path = ns.ref_path();
    append_str(&mut v, path.as_str());
    append_str(&mut v, ":refs/notes/");
    let tmp = remote_namespace_name(remote, ns);
    append_str(&mut v, tmp.as_str());
    let r = string_of(&v);
    assert(r@ =~= fetch_refspec_text(remote@, namespace_name(ns@)));
    r
}

/// The URL of a peer's git daemon.
pub open spec fn peer_url_text(host: Seq<char>, port: u16) -> Seq<char> {
    "git://"@ + host + ":"@ + decimal(port as nat) + "/"@
}

/// The URL of a peer's git daemon.
pub fn peer_url(host: &str, port: u16) -> (r: String)
    ensures
        r@ == peer_url_text(host@, port),
{
    let mut v = chars_of("git://");
    append_str(&mut v, host);
    append_str(&mut v, ":");
    push_decimal(&mut v, port as u64);
    append_str(&mut v, "/");
    string_of(&v)
}

/// The label of a peer: host and port.
pub open spec fn peer_label_text(host: Seq<char>, port: u16) -> Seq<char> {
    host + ":"@ + decimal(port as nat)
}

/// The label of a peer: host and port.
pub fn peer_label(host: &str, port: u16) -> (r: String)
    ensures
        r@ == peer_label_text(host@, port),
{
    let mut v = chars_of(host);
    append_str(&mut v, ":");
    push_decimal(&mut v, port as u64);
    string_of(&v)
}


/// A note moved to another namespace.
pub open spec fn in_namespace(n: NoteView, ns: NamespaceView) -> NoteView {
    NoteView {
        id: n.id,
        commit: n.commit,
        file: n.file,
        line_start: n.line_start,
        line_end: n.line_end,
        body: n.body,
        author: n.author,
        timestamp: n.timestamp,
        namespace: ns,
        thread_id: n.thread_id,
        status: n.status,
        tags: n.tags,
        signature: n.signature,
    }
}

/// Moves merged notes into the namespace they are stored in, keeping
/// everything else of them.
pub fn retarget(notes: Vec<Note>, ns: &Namespace) -> (r: Vec<Note>)
    ensures
        notes_view(r@) == notes_view(notes@).map_values(|n: NoteView| in_namespace(n, ns@)),
{
    let mut out: Vec<Note> = Vec::new();
    let mut i: usize = 0;
    while i < notes.len()
        invariant
            i <= notes@.len(),
            notes_view(out@) == notes_view(notes@).subrange(0, i as int).map_values(|n: NoteView| in_namespace(n, ns@)),
        decreases notes.len() - i,
    {
        let ghost before = out@;
        let mut n = notes[i].clone();
        n.namespace = ns.clone();
        out.push(n);
        assert(notes_view(out@) =~= notes_view(before).push(in_namespace(notes@[i as int]@, ns@)));
        assert(notes_view(notes@).subrange(0, i + 1).map_values(|n: NoteView| in_namespace(n, ns@)) =~= notes_view(
            notes@,
        ).subrange(0, i as int).map_values(|n: NoteView| in_namespace(n, ns@)).push(in_namespace(notes@[i as int]@, ns@)));
        i = i + 1;
    }
    assert(notes_view(notes@).subrange(0, notes@.len() as int) =~= notes_view(notes@));
    out
}

} // verus!
