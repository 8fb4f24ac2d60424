//! Strategies that merge a local and a remote set of notes into one set
//! holding exactly one note per identifier.

use vstd::prelude::*;
use crate::ids::{later, is_later, Timestamp};
use crate::note::{Note, NoteView, notes_view};
use std::collections::HashMap;

verus! {

broadcast use vstd::std_specs::hash::group_hash_axioms;

/// Some note in `s` has identifier `id`.
pub open spec fn has_id(s: Seq<NoteView>, id: u128) -> bool {
    exists|k: int| 0 <= k < s.len() && #[trigger] s[k].id == id
}

/// No two notes in `s` share an identifier.
pub open spec fn distinct_ids(s: Seq<NoteView>) -> bool {
    forall|i: int, j: int| 0 <= i < s.len() && 0 <= j < s.len() && i != j ==> #[trigger] s[i].id != #[trigger] s[j].id
}

/// `out` holds one note for each identifier found in `all`, and no other.
pub open spec fn one_per_id(all: Seq<NoteView>, out: Seq<NoteView>) -> bool {
    &&& distinct_ids(out)
    &&& forall|id: u128| has_id(out, id) <==> has_id(all, id)
}

/// No note in `all` after position `k` has identifier `id`.
pub open spec fn none_after(all: Seq<NoteView>, k: int, id: u128) -> bool {
    forall|j: int| k < j < all.len() ==> #[trigger] all[j].id != id
}

/// `x` occurs in `all`, and no note after that occurrence shares its identifier.
pub open spec fn is_last_of_id(all: Seq<NoteView>, x: NoteView) -> bool {
    exists|k: int| 0 <= k < all.len() && #[trigger] all[k] == x && none_after(all, k, x.id)
}

/// No note in `all` that shares `x`'s identifier is later than `x`.
pub open spec fn none_later(all: Seq<NoteView>, x: NoteView) -> bool {
    forall|j: int| 0 <= j < all.len() && #[trigger] all[j].id == x.id ==> !later(all[j].timestamp, x.timestamp)
}

/// Every note before position `k` in `all` that shares `x`'s identifier is
/// strictly older than `x`.
pub open spec fn older_before(all: Seq<NoteView>, k: int, x: NoteView) -> bool {
    forall|j: int| 0 <= j < k && #[trigger] all[j].id == x.id ==> later(x.timestamp, all[j].timestamp)
}

/// `x` occurs in `all` at position `k`, no note sharing its identifier is
/// later than it, and every note sharing its identifier before `k` is
/// strictly older.
pub open spec fn newest_at(all: Seq<NoteView>, x: NoteView, k: int) -> bool {
    0 <= k < all.len() && all[k] == x && none_later(all, x) && older_before(all, k, x)
}

/// `x` is the note that last-writer-wins keeps for its identifier: the
/// newest one, and among equally new ones the first given.
pub open spec fn is_newest_of_id(all: Seq<NoteView>, x: NoteView) -> bool {
    exists|k: int| #[trigger] newest_at(all, x, k)
}

/// The result of the union merge of `all` (local notes, then remote ones):
/// one note per identifier, the last one given for it.
pub open spec fn union_merged(all: Seq<NoteView>, out: Seq<NoteView>) -> bool {
    &&& one_per_id(all, out)
    &&& forall|i: int| 0 <= i < out.len() ==> is_last_of_id(all, #[trigger] out[i])
}

/// The result of the last-writer-wins merge of `all` (local notes, then
/// remote ones): one note per identifier, the newest one, and among equally
/// new ones the first given.
pub open spec fn lww_merged(all: Seq<NoteView>, out: Seq<NoteView>) -> bool {
    &&& one_per_id(all, out)
    &&& forall|i: int| 0 <= i < out.len() ==> is_newest_of_id(all, #[trigger] out[i])
}

/// A strategy for merging local and remote notes.
pub trait MergeStrategy {
    /// Merges the two lists into one holding one note per identifier.
    fn merge(&self, local: &[Note], remote: &[Note]) -> (r: Vec<Note>)
        ensures
            one_per_id(notes_view(local@) + notes_view(remote@), notes_view(r@)),
    ;

    /// The strategy's name.
    fn name(&self) -> &'static str;
}

/// Keeps every note; where both sides hold a note with the same identifier,
/// the remote one wins.
pub struct UnionStrategy;

/// Keeps every note; where several share an identifier, the one with the
/// latest timestamp wins.
pub struct LwwStrategy;

/// Last-writer-wins for overlapping notes, union for disjoint ones.
pub struct CompositeStrategy;

proof fn lemma_later_order(a: Timestamp, b: Timestamp, c: Timestamp)
    ensures
        !later(a, a),
        later(a, b) ==> !later(b, a),
        later(a, b) && later(b, c) ==> later(a, c),
        !later(a, b) && later(c, b) ==> later(c, a),
        !later(a, b) && !later(b, a) ==> a == b,
{
}

/// `index` maps each identifier of `out` to its position there, and holds
/// no other identifier.
spec fn indexes(index: Map<u128, usize>, out: Seq<NoteView>) -> bool {
    &&& forall|id: u128| #[trigger] index.contains_key(id) <==> has_id(out, id)
    &&& forall|id: u128| #[trigger] index.contains_key(id) ==> index[id] < out.len() && out[index[id] as int].id == id
}

/// The position of a note with identifier `id` in `out`, if any, looked up
/// in the index by identifier.
fn find_id(index: &HashMap<u128, usize>, id: u128, Ghost(out): Ghost<Seq<NoteView>>) -> (r: Option<usize>)
    requires
        indexes(index@, out),
    ensures
        match r {
            Some(j) => j < out.len() && out[j as int].id == id,
            None => !has_id(out, id),
        },
{
    match index.get(&id) {
        Some(j) => Some(*j),
        None => None,
    }
}

/// The note that a merge keeps for `x`'s identifier is `x`.
spec fn kept(all: Seq<NoteView>, x: NoteView, newest: bool) -> bool {
    if newest {
        is_newest_of_id(all, x)
    } else {
        is_last_of_id(all, x)
    }
}

/// What merging `all` so far into `out` has established.
spec fn merge_state(all: Seq<NoteView>, out: Seq<NoteView>, newest: bool) -> bool {
    &&& one_per_id(all, out)
    &&& forall|i: int| 0 <= i < out.len() ==> #[trigger] kept(all, out[i], newest)
}

proof fn lemma_kept_other(all: Seq<NoteView>, x: NoteView, v: NoteView, newest: bool)
    requires
        kept(all, x, newest),
        x.id != v.id,
    ensures
        kept(all.push(v), x, newest),
{
    let all2 = all.push(v);
    if newest {
        let k = choose|k: int| #[trigger] newest_at(all, x, k);
        assert forall|j: int| 0 <= j < all2.len() && #[trigger] all2[j].id == x.id implies !later(all2[j].timestamp, x.timestamp) by {
            assert(all[j].id == x.id);
        }
        assert forall|j: int| 0 <= j < k && #[trigger] all2[j].id == x.id implies later(x.timestamp, all2[j].timestamp) by {
            assert(all[j].id == x.id);
        }
        assert(newest_at(all2, x, k));
    } else {
        let k = choose|k: int| 0 <= k < all.len() && #[trigger] all[k] == x && none_after(all, k, x.id);
        assert forall|j: int| k < j < all2.len() implies #[trigger] all2[j].id != x.id by {
            if j < all.len() {
                assert(all[j].id != x.id);
            }
        }
        assert(all2[k] == x);
    }
}

proof fn lemma_kept_kept_older(all: Seq<NoteView>, x: NoteView, v: NoteView)
    requires
        is_newest_of_id(all, x),
        x.id == v.id,
        !later(v.timestamp, x.timestamp),
    ensures
        is_newest_of_id(all.push(v), x),
{
    let all2 = all.push(v);
    let k = choose|k: int| #[trigger] newest_at(all, x, k);
    assert forall|j: int| 0 <= j < all2.len() && #[trigger] all2[j].id == x.id implies !later(all2[j].timestamp, x.timestamp) by {
        if j < all.len() {
            assert(all[j].id == x.id);
        }
    }
    assert forall|j: int| 0 <= j < k && #[trigger] all2[j].id == x.id implies later(x.timestamp, all2[j].timestamp) by {
        assert(all[j].id == x.id);
    }
    assert(newest_at(all2, x, k));
}

proof fn lemma_newer_wins(all: Seq<NoteView>, e: NoteView, v: NoteView)
    requires
        is_newest_of_id(all, e),
        e.id == v.id,
        later(v.timestamp, e.timestamp),
    ensures
        is_newest_of_id(all.push(v), v),
{
    let all2 = all.push(v);
    let k = all.len() as int;
    assert forall|j: int| 0 <= j < all2.len() && #[trigger] all2[j].id == v.id implies !later(all2[j].timestamp, v.timestamp) by {
        if j < all.len() {
            assert(all[j].id == e.id);
            assert(!later(all[j].timestamp, e.timestamp));
            lemma_later_order(all[j].timestamp, e.timestamp, v.timestamp);
        } else {
            lemma_later_order(v.timestamp, v.timestamp, v.timestamp);
        }
    }
    assert forall|j: int| 0 <= j < k && #[trigger] all2[j].id == v.id implies later(v.timestamp, all2[j].timestamp) by {
        assert(all[j].id == e.id);
        assert(!later(all[j].timestamp, e.timestamp));
        lemma_later_order(all[j].timestamp, e.timestamp, v.timestamp);
    }
    assert(newest_at(all2, v, k));
}

proof fn lemma_new_id_kept(all: Seq<NoteView>, v: NoteView, newest: bool)
    requires
        !has_id(all, v.id),
    ensures
        kept(all.push(v), v, newest),
{
    let all2 = all.push(v);
    let k = all.len() as int;
    assert forall|j: int| 0 <= j < all2.len() && #[trigger] all2[j].id == v.id implies !later(all2[j].timestamp, v.timestamp) by {
        if j < all.len() {
            assert(all[j].id == v.id);
        } else {
            lemma_later_order(v.timestamp, v.timestamp, v.timestamp);
        }
    }
    assert forall|j: int| 0 <= j < k && #[trigger] all2[j].id == v.id implies later(v.timestamp, all2[j].timestamp) by {
        assert(all[j].id == v.id);
    }
    assert(newest_at(all2, v, k));
    assert(all2[k] == v);
    assert(none_after(all2, k, v.id));
}

proof fn lemma_ids_push(all: Seq<NoteView>, out: Seq<NoteView>, out2: Seq<NoteView>, v: NoteView)
    requires
        forall|id: u128| has_id(out, id) <==> has_id(all, id),
        forall|id: u128| has_id(out2, id) <==> (has_id(out, id) || id == v.id),
    ensures
        forall|id: u128| has_id(out2, id) <==> has_id(all.push(v), id),
{
    let all2 = all.push(v);
    assert forall|id: u128| has_id(out2, id) <==> has_id(all2, id) by {
        if has_id(all2, id) {
            let m = choose|m: int| 0 <= m < all2.len() && #[trigger] all2[m].id == id;
            if m < all.len() {
                assert(all[m].id == id);
            }
        }
        if has_id(all, id) {
            let m = choose|m: int| 0 <= m < all.len() && #[trigger] all[m].id == id;
            assert(all2[m].id == id);
        }
        if id == v.id {
            assert(all2[all.len() as int].id == id);
        }
    }
}

proof fn lemma_absorb_found(
    all: Seq<NoteView>,
    out: Seq<NoteView>,
    v: NoteView,
    j: int,
    newest: bool,
    replace: bool,
)
    requires
        merge_state(all, out, newest),
        0 <= j < out.len(),
        out[j].id == v.id,
        newest ==> (replace <==> later(v.timestamp, out[j].timestamp)),
        !newest ==> replace,
    ensures
        merge_state(all.push(v), if replace { out.update(j, v) } else { out }, newest),
{
    let all2 = all.push(v);
    let out2 = if replace { out.update(j, v) } else { out };
    assert forall|id: u128| has_id(out2, id) <==> (has_id(out, id) || id == v.id) by {
        if has_id(out2, id) {
            let k = choose|k: int| 0 <= k < out2.len() && #[trigger] out2[k].id == id;
            assert(out[k].id == id);
        }
        if has_id(out, id) {
            let k = choose|k: int| 0 <= k < out.len() && #[trigger] out[k].id == id;
            assert(out2[k].id == id);
        }
        if id == v.id {
            assert(out2[j].id == id);
        }
    }
    lemma_ids_push(all, out, out2, v);
    assert(distinct_ids(out2));
    assert forall|i: int| 0 <= i < out2.len() implies #[trigger] kept(all2, out2[i], newest) by {
        assert(kept(all, out[i], newest));
        if i == j {
            if newest {
                if replace {
                    lemma_newer_wins(all, out[j], v);
                } else {
                    lemma_kept_kept_older(all, out[j], v);
                }
            } else {
                let k = all.len() as int;
                assert(all2[k] == v);
                assert(none_after(all2, k, v.id));
            }
        } else {
            assert(out[i].id != out[j].id);
            lemma_kept_other(all, out[i], v, newest);
        }
    }
}

proof fn lemma_absorb_new(all: Seq<NoteView>, out: Seq<NoteView>, v: NoteView, newest: bool)
    requires
        merge_state(all, out, newest),
        !has_id(out, v.id),
    ensures
        merge_state(all.push(v), out.push(v), newest),
{
    let all2 = all.push(v);
    let out2 = out.push(v);
    assert forall|id: u128| has_id(out2, id) <==> (has_id(out, id) || id == v.id) by {
        if has_id(out2, id) {
            let k = choose|k: int| 0 <= k < out2.len() && #[trigger] out2[k].id == id;
            if k < out.len() {
                assert(out[k].id == id);
            }
        }
        if has_id(out, id) {
            let k = choose|k: int| 0 <= k < out.len() && #[trigger] out[k].id == id;
            assert(out2[k].id == id);
        }
        if id == v.id {
            assert(out2[out.len() as int].id == id);
        }
    }
    lemma_ids_push(all, out, out2, v);
    assert forall|a: int, b: int| 0 <= a < out2.len() && 0 <= b < out2.len() && a != b implies #[trigger] out2[a].id != #[trigger] out2[b].id by {
        if a == out.len() {
            assert(out[b].id != v.id);
        } else if b == out.len() {
            assert(out[a].id != v.id);
        }
    }
    assert forall|i: int| 0 <= i < out2.len() implies #[trigger] kept(all2, out2[i], newest) by {
        if i == out.len() {
            lemma_new_id_kept(all, v, newest);
        } else {
            assert(kept(all, out[i], newest));
            assert(out[i].id != v.id);
            lemma_kept_other(all, out[i], v, newest);
        }
    }
}

/// Folds the notes of `src` into `out`, one after the other.
fn absorb(
    out: &mut Vec<Note>,
    index: &mut HashMap<u128, usize>,
    src: &[Note],
    newest: bool,
    Ghost(prev): Ghost<Seq<NoteView>>,
)
    requires
        merge_state(prev, notes_view(old(out)@), newest),
        indexes(old(index)@, notes_view(old(out)@)),
    ensures
        merge_state(prev + notes_view(src@), notes_view(final(out)@), newest),
        indexes(final(index)@, notes_view(final(out)@)),
{
    let mut i: usize = 0;
    while i < src.len()
        invariant
            i <= src@.len(),
            merge_state(prev + notes_view(src@.subrange(0, i as int)), notes_view(out@), newest),
            indexes(index@, notes_view(out@)),
        decreases src.len() - i,
    {
        let ghost all = prev + notes_view(src@.subrange(0, i as int));
        let ghost ov = notes_view(out@);
        let n = &src[i];
        let ghost v = n@;
        assert(all.push(v) =~= prev + notes_view(src@.subrange(0, i + 1)));
        match find_id(index, n.id, Ghost(ov)) {
            Some(j) => {
                assert(ov[j as int].id == v.id);
                let replace = if newest {
                    is_later(n.timestamp, out[j].timestamp)
                } else {
                    true
                };
                proof {
                    lemma_absorb_found(all, ov, v, j as int, newest, replace);
                }
                if replace {
                    let c = n.clone();
                    out.set(j, c);
                    assert(notes_view(out@) =~= ov.update(j as int, v));
                    proof {
                        let nv = notes_view(out@);
                        assert forall|id: u128| #[trigger] index@.contains_key(id) <==> has_id(nv, id) by {
                            if has_id(ov, id) {
                                let k = choose|k: int| 0 <= k < ov.len() && #[trigger] ov[k].id == id;
                                assert(nv[k].id == id);
                            }
                            if has_id(nv, id) {
                                let k = choose|k: int| 0 <= k < nv.len() && #[trigger] nv[k].id == id;
                                assert(ov[k].id == id);
                            }
                        }
                    }
                }
            },
            None => {
                proof {
                    lemma_absorb_new(all, ov, v, newest);
                }
                let c = n.clone();
                let pos = out.len();
                index.insert(n.id, pos);
                out.push(c);
                assert(notes_view(out@) =~= ov.push(v));
                proof {
                    let nv = notes_view(out@);
                    assert forall|id: u128| #[trigger] index@.contains_key(id) <==> has_id(nv, id) by {
                        if id == v.id {
                            assert(nv[ov.len() as int].id == id);
                        } else {
                            if has_id(ov, id) {
                                let k = choose|k: int| 0 <= k < ov.len() && #[trigger] ov[k].id == id;
                                assert(nv[k].id == id);
                            }
                            if has_id(nv, id) {
                                let k = choose|k: int| 0 <= k < nv.len() && #[trigger] nv[k].id == id;
                                assert(k < ov.len());
                                assert(ov[k].id == id);
                            }
                        }
                    }
                }
            },
        }
        i = i + 1;
    }
    assert(src@.subrange(0, src@.len() as int) =~= src@);
}

/// Merges `local` and `remote`; `newest` selects last-writer-wins,
/// otherwise the last note given for an identifier wins.
fn merge_notes(local: &[Note], remote: &[Note], newest: bool) -> (r: Vec<Note>)
    ensures
        one_per_id(notes_view(local@) + notes_view(remote@), notes_view(r@)),
        forall|i: int| 0 <= i < r@.len() ==> #[trigger] kept(notes_view(local@) + notes_view(remote@), notes_view(r@)[i], newest),
{
    let mut out: Vec<Note> = Vec::new();
    let mut index: HashMap<u128, usize> = HashMap::new();
    assert(notes_view(out@) =~= Seq::<NoteView>::empty());
    assert(indexes(index@, notes_view(out@)));
    absorb(&mut out, &mut index, local, newest, Ghost(Seq::empty()));
    assert(Seq::<NoteView>::empty() + notes_view(local@) =~= notes_view(local@));
    absorb(&mut out, &mut index, remote, newest, Ghost(notes_view(local@)));
    out
}

impl MergeStrategy for UnionStrategy {
    fn merge(&self, local: &[Note], remote: &[Note]) -> (r: Vec<Note>)
        ensures
            union_merged(notes_view(local@) + notes_view(remote@), notes_view(r@)),
    {
        let r = merge_notes(local, remote, false);
        let ghost all = notes_view(local@) + notes_view(remote@);
        assert forall|i: int| 0 <= i < notes_view(r@).len() implies is_last_of_id(all, #[trigger] notes_view(r@)[i]) by {
            assert(kept(all, notes_view(r@)[i], false));
        }
        r
    }

    fn name(&self) -> (r: &'static str)
        ensures
            r@ == "union"@,
    {
        "union"
    }
}

impl MergeStrategy for LwwStrategy {
    fn merge(&self, local: &[Note], remote: &[Note]) -> (r: Vec<Note>)
        ensures
            lww_merged(notes_view(local@) + notes_view(remote@), notes_view(r@)),
    {
        let r = merge_notes(local, remote, true);
        let ghost all = notes_view(local@) + notes_view(remote@);
        assert forall|i: int| 0 <= i < notes_view(r@).len() implies is_newest_of_id(all, #[trigger] notes_view(r@)[i]) by {
            assert(kept(all, notes_view(r@)[i], true));
        }
        r
    }

    fn name(&self) -> (r: &'static str)
        ensures
            r@ == "lww"@,
    {
        "lww"
    }
}

impl MergeStrategy for CompositeStrategy {
    fn merge(&self, local: &[Note], remote: &[Note]) -> (r: Vec<Note>)
        ensures
            lww_merged(notes_view(local@) + notes_view(remote@), notes_view(r@)),
    {
        let lww = LwwStrategy;
        lww.merge(local, remote)
    }

    fn name(&self) -> (r: &'static str)
        ensures
            r@ == "composite"@,
    {
        "composite"
    }
}

/// Notes in `all` that share an identifier and a timestamp are the same note.
pub open spec fn consistent(all: Seq<NoteView>) -> bool {
    forall|i: int, j: int|
        0 <= i < all.len() && 0 <= j < all.len() && #[trigger] all[i].id == #[trigger] all[j].id
            && all[i].timestamp == all[j].timestamp ==> all[i] == all[j]
}

proof fn lemma_earliest(all: Seq<NoteView>, x: NoteView, k: int) -> (r: int)
    requires
        0 <= k < all.len(),
        all[k] == x,
        consistent(all),
    ensures
        0 <= r <= k,
        all[r] == x,
        forall|j: int| 0 <= j < r ==> !(#[trigger] all[j].id == x.id && all[j].timestamp == x.timestamp),
    decreases k,
{
    if exists|j: int| 0 <= j < k && #[trigger] all[j].id == x.id && all[j].timestamp == x.timestamp {
        let j = choose|j: int| 0 <= j < k && #[trigger] all[j].id == x.id && all[j].timestamp == x.timestamp;
        assert(all[j] == all[k]);
        lemma_earliest(all, x, j)
    } else {
        k
    }
}

/// Without conflicting duplicates, the note that last-writer-wins keeps is
/// any note with no later note under the same identifier.
proof fn lemma_newest_iff(all: Seq<NoteView>, x: NoteView)
    requires
        consistent(all),
    ensures
        is_newest_of_id(all, x) <==> (all.contains(x) && none_later(all, x)),
{
    if is_newest_of_id(all, x) {
        let k = choose|k: int| #[trigger] newest_at(all, x, k);
        assert(all[k] == x);
    }
    if all.contains(x) && none_later(all, x) {
        let k0 = choose|k: int| 0 <= k < all.len() && all[k] == x;
        let k = lemma_earliest(all, x, k0);
        assert forall|j: int| 0 <= j < k && #[trigger] all[j].id == x.id implies later(x.timestamp, all[j].timestamp) by {
            assert(!later(all[j].timestamp, x.timestamp));
            lemma_later_order(all[j].timestamp, x.timestamp, x.timestamp);
            lemma_later_order(x.timestamp, all[j].timestamp, x.timestamp);
        }
        assert(newest_at(all, x, k));
    }
}

proof fn lemma_newest_unique(all: Seq<NoteView>, x: NoteView, y: NoteView)
    requires
        consistent(all),
        is_newest_of_id(all, x),
        is_newest_of_id(all, y),
        x.id == y.id,
    ensures
        x == y,
{
    let kx = choose|k: int| #[trigger] newest_at(all, x, k);
    let ky = choose|k: int| #[trigger] newest_at(all, y, k);
    assert(all[kx].id == y.id);
    assert(all[ky].id == x.id);
    lemma_later_order(x.timestamp, y.timestamp, x.timestamp);
    assert(all[kx] == all[ky]);
}

proof fn lemma_out_contains_newest(all: Seq<NoteView>, out: Seq<NoteView>, x: NoteView)
    requires
        consistent(all),
        lww_merged(all, out),
        is_newest_of_id(all, x),
    ensures
        out.contains(x),
{
    let k = choose|k: int| #[trigger] newest_at(all, x, k);
    assert(all[k].id == x.id);
    assert(has_id(all, x.id));
    assert(has_id(out, x.id));
    let i = choose|i: int| 0 <= i < out.len() && #[trigger] out[i].id == x.id;
    assert(is_newest_of_id(all, out[i]));
    lemma_newest_unique(all, x, out[i]);
}

/// Last-writer-wins does not depend on which side is local: merging
/// `local` into `remote` or `remote` into `local` keeps the same notes,
/// provided notes that share an identifier and a timestamp are the same note.
pub proof fn law_lww_commutes(
    local: Seq<NoteView>,
    remote: Seq<NoteView>,
    out1: Seq<NoteView>,
    out2: Seq<NoteView>,
)
    requires
        consistent(local + remote),
        lww_merged(local + remote, out1),
        lww_merged(remote + local, out2),
    ensures
        forall|x: NoteView| out1.contains(x) <==> out2.contains(x),
{
    let a = local + remote;
    let b = remote + local;
    assert forall|y: NoteView| a.contains(y) <==> b.contains(y) by {
        if a.contains(y) {
            let k = choose|k: int| 0 <= k < a.len() && a[k] == y;
            if k < local.len() {
                assert(b[remote.len() + k] == y);
            } else {
                assert(b[k - local.len()] == y);
            }
        }
        if b.contains(y) {
            let k = choose|k: int| 0 <= k < b.len() && b[k] == y;
            if k < remote.len() {
                assert(a[local.len() + k] == y);
            } else {
                assert(a[k - remote.len()] == y);
            }
        }
    }
    assert(consistent(b)) by {
        assert forall|i: int, j: int|
            0 <= i < b.len() && 0 <= j < b.len() && #[trigger] b[i].id == #[trigger] b[j].id
                && b[i].timestamp == b[j].timestamp implies b[i] == b[j] by {
            assert(a.contains(b[i]));
            assert(a.contains(b[j]));
            let p = choose|p: int| 0 <= p < a.len() && a[p] == b[i];
            let q = choose|q: int| 0 <= q < a.len() && a[q] == b[j];
            assert(a[p].id == a[q].id);
        }
    }
    assert forall|x: NoteView| none_later(a, x) <==> none_later(b, x) by {
        if none_later(a, x) {
            assert forall|j: int| 0 <= j < b.len() && #[trigger] b[j].id == x.id implies !later(b[j].timestamp, x.timestamp) by {
                assert(a.contains(b[j]));
                let p = choose|p: int| 0 <= p < a.len() && a[p] == b[j];
                assert(a[p].id == x.id);
            }
        }
        if none_later(b, x) {
            assert forall|j: int| 0 <= j < a.len() && #[trigger] a[j].id == x.id implies !later(a[j].timestamp, x.timestamp) by {
                assert(b.contains(a[j]));
                let p = choose|p: int| 0 <= p < b.len() && b[p] == a[j];
                assert(b[p].id == x.id);
            }
        }
    }
    assert forall|x: NoteView| out1.contains(x) <==> out2.contains(x) by {
        lemma_newest_iff(a, x);
        lemma_newest_iff(b, x);
        if out1.contains(x) {
            let i = choose|i: int| 0 <= i < out1.len() && out1[i] == x;
            assert(is_newest_of_id(a, out1[i]));
            lemma_out_contains_newest(b, out2, x);
        }
        if out2.contains(x) {
            let i = choose|i: int| 0 <= i < out2.len() && out2[i] == x;
            assert(is_newest_of_id(b, out2[i]));
            lemma_out_contains_newest(a, out1, x);
        }
    }
}

/// Merging a set of notes with itself, last-writer-wins, gives the same
/// set back, provided no two of its notes share an identifier.
pub proof fn law_lww_self_merge(notes: Seq<NoteView>, out: Seq<NoteView>)
    requires
        distinct_ids(notes),
        lww_merged(notes + notes, out),
    ensures
        forall|x: NoteView| out.contains(x) <==> notes.contains(x),
{
    let a = notes + notes;
    let n = notes.len() as int;
    assert forall|i: int| 0 <= i < a.len() implies #[trigger] a[i] == notes[(if i < n { i } else { i - n })] by {
        if i >= n {
            assert(a[i] == notes[i - n]);
        }
    }
    assert(consistent(a)) by {
        assert forall|i: int, j: int|
            0 <= i < a.len() && 0 <= j < a.len() && #[trigger] a[i].id == #[trigger] a[j].id
                && a[i].timestamp == a[j].timestamp implies a[i] == a[j] by {
            assert(a[i] == notes[(if i < n { i } else { i - n })]);
            assert(a[j] == notes[(if j < n { j } else { j - n })]);
            assert(notes[(if i < n { i } else { i - n })].id == notes[(if j < n { j } else { j - n })].id);
        }
    }
    assert forall|x: NoteView| out.contains(x) <==> notes.contains(x) by {
        lemma_newest_iff(a, x);
        if out.contains(x) {
            let i = choose|i: int| 0 <= i < out.len() && out[i] == x;
            assert(is_newest_of_id(a, out[i]));
            let k = choose|k: int| 0 <= k < a.len() && a[k] == x;
            assert(notes[(if k < n { k } else { k - n })] == x);
        }
        if notes.contains(x) {
            let k = choose|k: int| 0 <= k < notes.len() && notes[k] == x;
            assert(a[k] == x);
            assert forall|j: int| 0 <= j < a.len() && #[trigger] a[j].id == x.id implies !later(a[j].timestamp, x.timestamp) by {
                assert(a[j] == notes[(if j < n { j } else { j - n })]);
                assert(notes[(if j < n { j } else { j - n })].id == notes[k].id);
                lemma_later_order(x.timestamp, x.timestamp, x.timestamp);
            }
            lemma_out_contains_newest(a, out, x);
        }
    }
}

/// In a union merge, where the remote side holds a note with some
/// identifier, the note kept for that identifier comes from the remote side.
pub proof fn law_union_remote_wins(local: Seq<NoteView>, remote: Seq<NoteView>, out: Seq<NoteView>, x: NoteView)
    requires
        union_merged(local + remote, out),
        out.contains(x),
        has_id(remote, x.id),
    ensures
        remote.contains(x),
{
    let a = local + remote;
    let i = choose|i: int| 0 <= i < out.len() && out[i] == x;
    assert(is_last_of_id(a, out[i]));
    let k = choose|k: int| 0 <= k < a.len() && #[trigger] a[k] == x && none_after(a, k, x.id);
    let m = choose|m: int| 0 <= m < remote.len() && #[trigger] remote[m].id == x.id;
    assert(a[local.len() + m].id == x.id);
    assert(k >= local.len());
    assert(remote[k - local.len()] == x);
}

/// Last-writer-wins keeps, for each identifier, a note that no other note
/// with that identifier outdates: none has more seconds, and one with as many
/// seconds has no more nanoseconds.
pub proof fn law_lww_keeps_latest(all: Seq<NoteView>, out: Seq<NoteView>, x: NoteView, y: NoteView)
    requires
        lww_merged(all, out),
        out.contains(x),
        all.contains(y),
        y.id == x.id,
    ensures
        y.timestamp.secs <= x.timestamp.secs,
        y.timestamp.secs == x.timestamp.secs ==> y.timestamp.nanos <= x.timestamp.nanos,
{
    let i = choose|i: int| 0 <= i < out.len() && out[i] == x;
    assert(is_newest_of_id(all, out[i]));
    let k = choose|k: int| #[trigger] newest_at(all, x, k);
    assert(newest_at(all, x, k));
    let j = choose|j: int| 0 <= j < all.len() && all[j] == y;
    assert(all[j].id == x.id);
    assert(!later(all[j].timestamp, x.timestamp));
}

} // verus!
