//! Maps keyed by text, held as lists of pairs whose keys are distinct;
//! sorted by key where the order in which they are shown matters.

use vstd::prelude::*;
use crate::order::{lex_lt, lemma_lex_order, strictly_sorted, text_less};
use crate::text::{chars_equal, chars_of};

verus! {

/// The keys of a list of pairs, in order.
pub open spec fn keys_of<V>(s: Seq<(String, V)>) -> Seq<Seq<char>> {
    s.map_values(|p: (String, V)| p.0@)
}

/// No key occurs twice.
pub open spec fn keys_distinct<V>(s: Seq<(String, V)>) -> bool {
    forall|i: int, j: int| 0 <= i < j < s.len() ==> #[trigger] s[i].0@ != #[trigger] s[j].0@
}

/// The value stored under `k`.
pub open spec fn value_at<V>(s: Seq<(String, V)>, k: Seq<char>) -> Option<V> {
    if exists|j: int| 0 <= j < s.len() && #[trigger] s[j].0@ == k {
        Some(s[choose|j: int| 0 <= j < s.len() && #[trigger] s[j].0@ == k].1)
    } else {
        None
    }
}

/// With distinct keys, the value under the key at `j` is the one at `j`.
pub proof fn lemma_value_at<V>(s: Seq<(String, V)>, j: int)
    requires
        keys_distinct(s),
        0 <= j < s.len(),
    ensures
        value_at(s, s[j].0@) == Some(s[j].1),
{
    let k = s[j].0@;
    assert(exists|i: int| 0 <= i < s.len() && #[trigger] s[i].0@ == k);
    let c = choose|i: int| 0 <= i < s.len() && #[trigger] s[i].0@ == k;
    if c != j {
        if c < j {
            assert(s[c].0@ != s[j].0@);
        } else {
            assert(s[j].0@ != s[c].0@);
        }
    }
}

/// Appending a pair leaves the values under the other keys, and stores
/// its value under its key where the keys stay distinct.
pub proof fn lemma_value_at_push<V>(s: Seq<(String, V)>, p: (String, V), x: Seq<char>)
    requires
        keys_distinct(s),
    ensures
        x != p.0@ ==> value_at(s.push(p), x) == value_at(s, x),
        keys_distinct(s.push(p)) ==> value_at(s.push(p), p.0@) == Some(p.1),
{
    let t = s.push(p);
    if x != p.0@ {
        if exists|j: int| 0 <= j < s.len() && #[trigger] s[j].0@ == x {
            let j = choose|j: int| 0 <= j < s.len() && #[trigger] s[j].0@ == x;
            assert(t[j] == s[j]);
            lemma_value_at(s, j);
            if keys_distinct(t) {
                lemma_value_at(t, j);
            } else {
                let c = choose|i: int| 0 <= i < t.len() && #[trigger] t[i].0@ == x;
                assert(c < s.len());
                assert(t[c] == s[c]);
                if c != j {
                    if c < j {
                        assert(s[c].0@ != s[j].0@);
                    } else {
                        assert(s[j].0@ != s[c].0@);
                    }
                }
            }
        } else {
            assert forall|j: int| 0 <= j < t.len() implies #[trigger] t[j].0@ != x by {
                if j < s.len() {
                    assert(t[j] == s[j]);
                }
            }
        }
    }
    if keys_distinct(t) {
        lemma_value_at(t, s.len() as int);
    }
}

/// The position of the key `k`.
pub fn position<V>(v: &Vec<(String, V)>, k: &[char]) -> (r: Option<usize>)
    ensures
        match r {
            Some(i) => i < v@.len() && v@[i as int].0@ == k@,
            None => forall|j: int| 0 <= j < v@.len() ==> #[trigger] v@[j].0@ != k@,
        },
{
    let mut i: usize = 0;
    while i < v.len()
        invariant
            i <= v@.len(),
            forall|j: int| 0 <= j < i ==> #[trigger] v@[j].0@ != k@,
        decreases v.len() - i,
    {
        if chars_equal(&chars_of(v[i].0.as_str()), k) {
            return Some(i);
        }
        i = i + 1;
    }
    None
}

/// Replacing the pair at `i` by one with the same key keeps the keys
/// distinct, stores the new value under the key and leaves the others.
pub proof fn lemma_update_same_key<V>(s: Seq<(String, V)>, i: int, pair: (String, V))
    requires
        keys_distinct(s),
        0 <= i < s.len(),
        pair.0@ == s[i].0@,
    ensures
        keys_of(s.update(i, pair)) == keys_of(s),
        keys_distinct(s.update(i, pair)),
        value_at(s.update(i, pair), pair.0@) == Some(pair.1),
        forall|x: Seq<char>| x != pair.0@ ==> #[trigger] value_at(s.update(i, pair), x) == value_at(s, x),
{
    let t = s.update(i, pair);
    assert(keys_of(t) =~= keys_of(s));
    assert(keys_distinct(t)) by {
        assert forall|a: int, b: int| 0 <= a < b < t.len() implies #[trigger] t[a].0@ != #[trigger] t[b].0@ by {
            if a != i && b != i {
                assert(t[a] == s[a] && t[b] == s[b]);
            } else if a == i {
                assert(t[b] == s[b]);
                assert(s[a].0@ != s[b].0@);
            } else {
                assert(t[a] == s[a]);
                assert(s[a].0@ != s[b].0@);
            }
        }
    }
    lemma_value_at(t, i);
    assert forall|x: Seq<char>| x != pair.0@ implies #[trigger] value_at(t, x) == value_at(s, x) by {
        if exists|j: int| 0 <= j < s.len() && #[trigger] s[j].0@ == x {
            let j = choose|j: int| 0 <= j < s.len() && #[trigger] s[j].0@ == x;
            assert(j != i);
            assert(t[j] == s[j]);
            lemma_value_at(s, j);
            lemma_value_at(t, j);
        } else {
            assert forall|j: int| 0 <= j < t.len() implies #[trigger] t[j].0@ != x by {
                if j != i {
                    assert(t[j] == s[j]);
                }
            }
        }
    }
}

/// Puts `val` in place of the value at `i`, whose key is `k`.
pub fn replace_at<V>(v: &mut Vec<(String, V)>, i: usize, k: String, val: V)
    requires
        keys_distinct(old(v)@),
        i < old(v)@.len(),
        old(v)@[i as int].0@ == k@,
    ensures
        final(v)@.len() == old(v)@.len(),
        keys_of(final(v)@) == keys_of(old(v)@),
        keys_distinct(final(v)@),
        value_at(final(v)@, k@) == Some(val),
        forall|x: Seq<char>| x != k@ ==> #[trigger] value_at(final(v)@, x) == value_at(old(v)@, x),
        final(v)@ == old(v)@.update(i as int, (k, val)),
{
    let ghost s = v@;
    let ghost pair = (k, val);
    v.set(i, (k, val));
    proof {
        lemma_update_same_key(s, i as int, pair);
    }
}

/// Stores `val` under `k` in a list with distinct keys: in place of the
/// key's value where it is there, else as a new last pair.
pub fn upsert<V>(v: &mut Vec<(String, V)>, k: String, val: V)
    requires
        keys_distinct(old(v)@),
    ensures
        keys_distinct(final(v)@),
        value_at(final(v)@, k@) == Some(val),
        forall|x: Seq<char>| x != k@ ==> #[trigger] value_at(final(v)@, x) == value_at(old(v)@, x),
        (exists|i: int| 0 <= i < old(v)@.len() && #[trigger] old(v)@[i].0@ == k@ && final(v)@ == old(v)@.update(i, (k, val)))
            || ((forall|j: int| 0 <= j < old(v)@.len() ==> #[trigger] old(v)@[j].0@ != k@) && final(v)@ == old(v)@.push((k, val))),
{
    let ghost s = v@;
    match position(v, &chars_of(k.as_str())) {
        Some(i) => {
            replace_at(v, i, k, val);
        },
        None => {
            v.push((k, val));
            let ghost t = v@;
            let ghost n = s.len() as int;
            assert(keys_distinct(t)) by {
                assert forall|a: int, b: int| 0 <= a < b < t.len() implies #[trigger] t[a].0@ != #[trigger] t[b].0@ by {
                    assert(t[a] == s[a]);
                    if b < n {
                        assert(t[b] == s[b]);
                    }
                }
            }
            proof {
                lemma_value_at(t, n);
                assert forall|x: Seq<char>| x != t[n].0@ implies #[trigger] value_at(t, x) == value_at(s, x) by {
                    if exists|j: int| 0 <= j < s.len() && #[trigger] s[j].0@ == x {
                        let j = choose|j: int| 0 <= j < s.len() && #[trigger] s[j].0@ == x;
                        assert(t[j] == s[j]);
                        lemma_value_at(s, j);
                        lemma_value_at(t, j);
                    } else {
                        assert forall|j: int| 0 <= j < t.len() implies #[trigger] t[j].0@ != x by {
                            if j < n {
                                assert(t[j] == s[j]);
                            }
                        }
                    }
                }
            }
        },
    }
}

/// Stores `val` under `k` in a list sorted strictly by key, keeping it so.
pub fn upsert_sorted<V>(v: &mut Vec<(String, V)>, k: String, val: V)
    requires
        strictly_sorted(keys_of(old(v)@)),
    ensures
        strictly_sorted(keys_of(final(v)@)),
        keys_distinct(final(v)@),
        value_at(final(v)@, k@) == Some(val),
        forall|x: Seq<char>| x != k@ ==> #[trigger] value_at(final(v)@, x) == value_at(old(v)@, x),
{
    let ghost s = v@;
    let ghost ks = keys_of(s);
    let kc = chars_of(k.as_str());
    let mut i: usize = 0;
    while i < v.len() && text_less(&chars_of(v[i].0.as_str()), &kc)
        invariant
            i <= v@.len(),
            s == v@,
            ks == keys_of(s),
            kc@ == k@,
            strictly_sorted(ks),
            forall|j: int| 0 <= j < i ==> lex_lt(#[trigger] ks[j], k@),
        decreases v.len() - i,
    {
        assert(ks[i as int] == s[i as int].0@);
        i = i + 1;
    }
    assert(keys_distinct(s)) by {
        assert forall|a: int, b: int| 0 <= a < b < s.len() implies #[trigger] s[a].0@ != #[trigger] s[b].0@ by {
            assert(ks[a] == s[a].0@ && ks[b] == s[b].0@);
            assert(lex_lt(ks[a], ks[b]));
            lemma_lex_order(ks[a], ks[b], ks[a]);
        }
    }
    if i < v.len() && chars_equal(&chars_of(v[i].0.as_str()), &kc) {
        replace_at(v, i, k, val);
        return;
    }
    proof {
        if i < s.len() {
            assert(ks[i as int] == s[i as int].0@);
            assert(ks[i as int] != k@);
            assert(!lex_lt(ks[i as int], k@));
            lemma_lex_order(k@, ks[i as int], k@);
            assert(lex_lt(k@, ks[i as int]));
        }
    }
    v.insert(i, (k, val));
    let ghost t = v@;
    let ghost kt = keys_of(t);
    assert(kt =~= ks.subrange(0, i as int).push(k@) + ks.subrange(i as int, ks.len() as int));
    assert(strictly_sorted(kt)) by {
        assert forall|a: int, b: int| 0 <= a < b < kt.len() implies lex_lt(#[trigger] kt[a], #[trigger] kt[b]) by {
            if b < i {
                assert(kt[a] == ks[a] && kt[b] == ks[b]);
            } else if a < i && b == i {
                assert(kt[a] == ks[a]);
            } else if a < i && b > i {
                assert(kt[a] == ks[a] && kt[b] == ks[b - 1]);
                lemma_lex_order(ks[a], k@, ks[b - 1]);
            } else if a == i && b > i {
                assert(kt[b] == ks[b - 1]);
                if b - 1 > i {
                    lemma_lex_order(k@, ks[i as int], ks[b - 1]);
                }
            } else {
                assert(kt[a] == ks[a - 1] && kt[b] == ks[b - 1]);
            }
        }
    }
    assert(keys_distinct(t)) by {
        assert forall|a: int, b: int| 0 <= a < b < t.len() implies #[trigger] t[a].0@ != #[trigger] t[b].0@ by {
            assert(kt[a] == t[a].0@ && kt[b] == t[b].0@);
            assert(lex_lt(kt[a], kt[b]));
            lemma_lex_order(kt[a], kt[b], kt[a]);
        }
    }
    proof {
        assert(t[i as int].0@ == k@);
        lemma_value_at(t, i as int);
        assert forall|x: Seq<char>| x != k@ implies #[trigger] value_at(t, x) == value_at(s, x) by {
            if exists|j: int| 0 <= j < s.len() && #[trigger] s[j].0@ == x {
                let j = choose|j: int| 0 <= j < s.len() && #[trigger] s[j].0@ == x;
                lemma_value_at(s, j);
                if j < i {
                    assert(t[j] == s[j]);
                    lemma_value_at(t, j);
                } else {
                    assert(t[j + 1] == s[j]);
                    lemma_value_at(t, j + 1);
                }
            } else {
                assert forall|j: int| 0 <= j < t.len() implies #[trigger] t[j].0@ != x by {
                    if j < i {
                        assert(t[j] == s[j]);
                    } else if j > i {
                        assert(t[j] == s[j - 1]);
                    }
                }
            }
        }
    }
}

} // verus!
