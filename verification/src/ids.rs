//! Note identifiers and timestamps, produced and rendered by the `uuid`
//! and `chrono` crates.

use vstd::prelude::*;
use crate::remote::ascii_char;
use crate::text::{append_chars, slice_chars, string_of};

verus! {

/// A point in time: seconds since the Unix epoch and the nanoseconds
/// within that second. Timestamps are ordered by seconds, then nanoseconds.
#[derive(Clone, Copy, Debug, PartialEq, Eq, Structural)]
pub struct Timestamp {
    pub secs: i64,
    pub nanos: u32,
}

/// `a` is strictly later than `b`.
pub open spec fn later(a: Timestamp, b: Timestamp) -> bool {
    a.secs > b.secs || (a.secs == b.secs && a.nanos > b.nanos)
}

/// Whether `a` is strictly later than `b`.
pub fn is_later(a: Timestamp, b: Timestamp) -> (r: bool)
    ensures
        r == later(a, b),
{
    a.secs > b.secs || (a.secs == b.secs && a.nanos > b.nanos)
}

/// The lowercase hexadecimal digit for a value below sixteen.
pub open spec fn hex_lower(n: int) -> char {
    if n < 10 {
        (48 + n) as char
    } else {
        (87 + n) as char
    }
}

/// The `i`-th hexadecimal digit of an identifier, most significant first.
pub open spec fn id_nibble(id: u128, i: int) -> int {
    ((id >> ((124 - 4 * i) as u128)) & 15u128) as int
}

/// The 32 lowercase hexadecimal digits of an identifier.
pub open spec fn id_simple_text(id: u128) -> Seq<char> {
    Seq::new(32, |i: int| hex_lower(id_nibble(id, i)))
}

/// The hyphenated 8-4-4-4-12 form of an identifier.
pub open spec fn id_hyphenated_text(id: u128) -> Seq<char> {
    let s = id_simple_text(id);
    s.subrange(0, 8) + seq!['-'] + s.subrange(8, 12) + seq!['-'] + s.subrange(12, 16) + seq!['-']
        + s.subrange(16, 20) + seq!['-'] + s.subrange(20, 32)
}

/// What `chrono` renders for a timestamp in RFC 3339 form, when the
/// timestamp lies in the range that `chrono` represents.
pub uninterp spec fn rfc3339_text(secs: i64, nanos: u32) -> Option<Seq<char>>;

/// What `chrono`'s `Display` renders for a UTC timestamp, when the
/// timestamp lies in the range that `chrono` represents.
pub uninterp spec fn utc_display_text(secs: i64, nanos: u32) -> Option<Seq<char>>;

/// A fresh random identifier from `uuid::Uuid::new_v4`. Nothing is
/// promised of its random bits; the crate fixes the version nibble to 4 and
/// the variant bits to `10`, so the identifier is never nil. It panics
/// where the operating system's random source fails, which no argument can
/// rule out.
#[verifier::external_body]
pub(crate) fn fresh_id() -> (r: u128)
    ensures
        (r >> 76u128) & 15u128 == 4u128,
        (r >> 62u128) & 3u128 == 2u128,
{
    uuid::Uuid::new_v4().as_u128()
}

fn hex_digit(n: u128) -> (c: char)
    requires
        n < 16,
    ensures
        c == hex_lower(n as int),
{
    if n < 10 {
        ascii_char(48u8 + n as u8)
    } else {
        ascii_char(87u8 + n as u8)
    }
}

fn simple_chars(id: u128) -> (v: Vec<char>)
    ensures
        v@ == id_simple_text(id),
{
    let mut v: Vec<char> = Vec::new();
    let mut i: usize = 0;
    while i < 32
        invariant
            i <= 32,
            v@.len() == i,
            forall|j: int| 0 <= j < i ==> v@[j] == hex_lower(id_nibble(id, j)),
        decreases 32 - i,
    {
        let sh: u128 = (124 - 4 * i) as u128;
        let nib = (id >> sh) & 15u128;
        assert(nib < 16) by (bit_vector)
            requires
                nib == (id >> sh) & 15u128,
        ;
        assert(nib as int == id_nibble(id, i as int));
        v.push(hex_digit(nib));
        i = i + 1;
    }
    assert(v@ =~= id_simple_text(id));
    v
}

/// An identifier as 32 lowercase hexadecimal digits, most significant
/// first (the simple form of a UUID).
pub fn id_simple(id: u128) -> (r: String)
    ensures
        r@ == id_simple_text(id),
{
    string_of(&simple_chars(id))
}

/// An identifier in the hyphenated 8-4-4-4-12 lowercase form of a UUID.
pub fn id_text(id: u128) -> (r: String)
    ensures
        r@ == id_hyphenated_text(id),
{
    let s = simple_chars(id);
    let mut out = slice_chars(&s, 0, 8);
    out.push('-');
    append_chars(&mut out, &slice_chars(&s, 8, 12));
    out.push('-');
    append_chars(&mut out, &slice_chars(&s, 12, 16));
    out.push('-');
    append_chars(&mut out, &slice_chars(&s, 16, 20));
    out.push('-');
    append_chars(&mut out, &slice_chars(&s, 20, 32));
    assert(out@ =~= id_hyphenated_text(id));
    string_of(&out)
}

/// The current time from `chrono::Utc::now`. Which time it is depends on
/// the clock; `Utc::now` builds it from a `Duration` since the epoch, so the
/// nanoseconds are below one second, and the value is one that
/// `DateTime::from_timestamp` represents, so it renders. It panics where the
/// system clock is set before 1970, which no argument can rule out.
#[verifier::external_body]
pub(crate) fn now() -> (r: Timestamp)
    ensures
        r.nanos < 1_000_000_000,
        rfc3339_text(r.secs, r.nanos) is Some,
        utc_display_text(r.secs, r.nanos) is Some,
{
    let t = chrono::Utc::now();
    Timestamp { secs: t.timestamp(), nanos: t.timestamp_subsec_nanos() }
}

/// `chrono::DateTime::<Utc>::to_rfc3339` of the timestamp, or `None` where
/// `chrono::DateTime::from_timestamp` does not represent it.
#[verifier::external_body]
pub(crate) fn rfc3339(t: Timestamp) -> (r: Option<String>)
    ensures
        r.deep_view() == rfc3339_text(t.secs, t.nanos),
{
    match chrono::DateTime::from_timestamp(t.secs, t.nanos) {
        Some(d) => Some(d.to_rfc3339()),
        None => None,
    }
}

/// `chrono::DateTime::<Utc>`'s `Display` of the timestamp, or `None` where
/// `chrono::DateTime::from_timestamp` does not represent it.
#[verifier::external_body]
pub(crate) fn utc_display(t: Timestamp) -> (r: Option<String>)
    ensures
        r.deep_view() == utc_display_text(t.secs, t.nanos),
{
    match chrono::DateTime::from_timestamp(t.secs, t.nanos) {
        Some(d) => Some(d.to_string()),
        None => None,
    }
}

/// `later` is chronological order: the timestamp with more seconds is the
/// later one whatever the nanoseconds; with equal seconds, the one with more
/// nanoseconds. For timestamps whose nanoseconds are below one second this
/// is the order of the instants they denote, counted in nanoseconds.
pub proof fn law_later_is_chronological(a: Timestamp, b: Timestamp)
    ensures
        a.secs > b.secs ==> later(a, b),
        a.secs < b.secs ==> !later(a, b),
        a.secs == b.secs ==> (later(a, b) <==> a.nanos > b.nanos),
        a.nanos < 1_000_000_000 && b.nanos < 1_000_000_000 ==> (later(a, b) <==> a.secs * 1_000_000_000
            + a.nanos > b.secs * 1_000_000_000 + b.nanos),
{
    if a.nanos < 1_000_000_000 && b.nanos < 1_000_000_000 {
        let x = a.secs as int;
        let y = b.secs as int;
        let m = a.nanos as int;
        let n = b.nanos as int;
        if x > y {
            assert(x * 1_000_000_000 + m > y * 1_000_000_000 + n) by (nonlinear_arith)
                requires
                    x > y,
                    0 <= m < 1_000_000_000,
                    0 <= n < 1_000_000_000,
            ;
        } else if x < y {
            assert(x * 1_000_000_000 + m < y * 1_000_000_000 + n) by (nonlinear_arith)
                requires
                    x < y,
                    0 <= m < 1_000_000_000,
                    0 <= n < 1_000_000_000,
            ;
        }
    }
}

} // verus!
