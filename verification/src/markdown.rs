//! How the notes pane of the terminal interface reads a note body: the
//! kind of each line and the inline code and bold spans of its text.

use vstd::prelude::*;
use crate::note::{Note, NoteStatus, NoteView, notes_view};
use crate::text::{
    append_str, chars_of, decimal, find_at, first_at, has_prefix, push_decimal, slice_chars, starts_with,
    string_of, trim, trim_start_all, trim_start_copies, trim_white, trim_white_start,
};

verus! {

/// A span of inline text.
pub enum Segment {
    Plain(String),
    Code(String),
    Bold(String),
}

/// A span as a mathematical value: plain (0), code (1) or bold (2), and
/// its text.
pub open spec fn segment_view(s: Segment) -> (int, Seq<char>) {
    match s {
        Segment::Plain(t) => (0, t@),
        Segment::Code(t) => (1, t@),
        Segment::Bold(t) => (2, t@),
    }
}

/// The views of a list of spans.
pub open spec fn segments_view(v: Seq<Segment>) -> Seq<(int, Seq<char>)> {
    v.map_values(|s: Segment| segment_view(s))
}

/// A plain span for the text before position `at`, where there is any.
pub open spec fn plain_before(rest: Seq<char>, at: int) -> Seq<(int, Seq<char>)> {
    if at > 0 {
        seq![(0int, rest.subrange(0, at))]
    } else {
        Seq::empty()
    }
}

/// The inline spans of a text: a span between backticks is code; else a
/// span between double asterisks is bold; a backtick or a pair of
/// asterisks that is not closed starts plain text to the end. Text before
/// a span is plain, and so is text without any marker.
pub open spec fn inline_spans(rest: Seq<char>) -> Seq<(int, Seq<char>)>
    decreases rest.len(),
{
    if rest.len() == 0 {
        Seq::empty()
    } else {
        match first_at(rest, seq!['`']) {
            Some(c) => {
                let after = rest.subrange(c + 1, rest.len() as int);
                match first_at(after, seq!['`']) {
                    Some(e) => if 0 <= c && 0 <= e && c + 1 + e + 1 <= rest.len() {
                        plain_before(rest, c) + seq![(1int, after.subrange(0, e))] + inline_spans(
                            after.subrange(e + 1, after.len() as int),
                        )
                    } else {
                        Seq::empty()
                    },
                    None => plain_before(rest, c) + seq![(0int, rest.subrange(c, rest.len() as int))],
                }
            },
            None => match first_at(rest, seq!['*', '*']) {
                Some(b) => {
                    let after = rest.subrange(b + 2, rest.len() as int);
                    match first_at(after, seq!['*', '*']) {
                        Some(e) => if 0 <= b && 0 <= e && b + 2 + e + 2 <= rest.len() {
                            plain_before(rest, b) + seq![(2int, after.subrange(0, e))] + inline_spans(
                                after.subrange(e + 2, after.len() as int),
                            )
                        } else {
                            Seq::empty()
                        },
                        None => plain_before(rest, b) + seq![(0int, rest.subrange(b, rest.len() as int))],
                    }
                },
                None => seq![(0int, rest)],
            },
        }
    }
}

fn push_plain(out: &mut Vec<Segment>, rest: &[char], at: usize)
    requires
        at <= rest@.len(),
    ensures
        segments_view(final(out)@) == segments_view(old(out)@) + plain_before(rest@, at as int),
{
    let ghost before = segments_view(out@);
    if at > 0 {
        out.push(Segment::Plain(string_of(&slice_chars(rest, 0, at))));
        assert(segments_view(out@) =~= before + plain_before(rest@, at as int));
    } else {
        assert(segments_view(out@) =~= before + plain_before(rest@, at as int));
    }
}

/// Splits a text into its inline spans.
pub fn inline_segments(text: &str) -> (r: Vec<Segment>)
    ensures
        segments_view(r@) == inline_spans(text@),
{
    let mut out: Vec<Segment> = Vec::new();
    let mut rest = chars_of(text);
    let tick = vec!['`'];
    assert(tick@ =~= seq!['`']);
    let stars = vec!['*', '*'];
    assert(stars@ =~= seq!['*', '*']);
    assert(segments_view(out@) =~= Seq::<(int, Seq<char>)>::empty());
    while rest.len() > 0
        invariant
            tick@ == seq!['`'],
            stars@ == seq!['*', '*'],
            segments_view(out@) + inline_spans(rest@) == inline_spans(text@),
        decreases rest@.len(),
    {
        let ghost before = segments_view(out@);
        let ghost r0 = rest@;
        match find_at(&rest, &tick) {
            Some(c) => {
                assert(c + 1 <= rest@.len());
                let after = slice_chars(&rest, c + 1, rest.len());
                match find_at(&after, &tick) {
                    Some(e) => {
                        assert(e + 1 <= after@.len());
                        push_plain(&mut out, &rest, c);
                        let ghost mid = segments_view(out@);
                        let code = string_of(&slice_chars(&after, 0, e));
                        out.push(Segment::Code(code));
                        assert(segments_view(out@) =~= mid.push((1int, after@.subrange(0, e as int))));
                        let next = slice_chars(&after, e + 1, after.len());
                        assert(segments_view(out@) =~= before + plain_before(r0, c as int) + seq![(1int, after@.subrange(0, e as int))]);
                        rest = next;
                    },
                    None => {
                        push_plain(&mut out, &rest, c);
                        let ghost mid = segments_view(out@);
                        let tail = string_of(&slice_chars(&rest, c, rest.len()));
                        assert(tail@ == r0.subrange(c as int, r0.len() as int));
                        out.push(Segment::Plain(tail));
                        assert(segments_view(out@) =~= mid.push((0int, r0.subrange(c as int, r0.len() as int))));
                        assert(segments_view(out@) =~= before + (plain_before(r0, c as int) + seq![(0int, r0.subrange(c as int, r0.len() as int))]));
                        return out;
                    },
                }
            },
            None => match find_at(&rest, &stars) {
                Some(b) => {
                    assert(b + 2 <= rest@.len());
                    let after = slice_chars(&rest, b + 2, rest.len());
                    match find_at(&after, &stars) {
                        Some(e) => {
                            assert(e + 2 <= after@.len());
                            push_plain(&mut out, &rest, b);
                            let ghost mid = segments_view(out@);
                            let bold = string_of(&slice_chars(&after, 0, e));
                            out.push(Segment::Bold(bold));
                            assert(segments_view(out@) =~= mid.push((2int, after@.subrange(0, e as int))));
                            let next = slice_chars(&after, e + 2, after.len());
                            assert(segments_view(out@) =~= before + plain_before(r0, b as int) + seq![(2int, after@.subrange(0, e as int))]);
                            rest = next;
                        },
                        None => {
                            push_plain(&mut out, &rest, b);
                            let ghost mid = segments_view(out@);
                            let tail = string_of(&slice_chars(&rest, b, rest.len()));
                            assert(tail@ == r0.subrange(b as int, r0.len() as int));
                            out.push(Segment::Plain(tail));
                            assert(segments_view(out@) =~= mid.push((0int, r0.subrange(b as int, r0.len() as int))));
                            assert(segments_view(out@) =~= before + (plain_before(r0, b as int) + seq![(0int, r0.subrange(b as int, r0.len() as int))]));
                            return out;
                        },
                    }
                },
                None => {
                    let all = string_of(&rest);
                    out.push(Segment::Plain(all));
                    assert(segments_view(out@) =~= before.push((0int, r0)));
                    assert(before.push((0int, r0)) =~= before + seq![(0int, r0)]);
                    return out;
                },
            },
        }
    }
    assert(segments_view(out@) + Seq::<(int, Seq<char>)>::empty() =~= segments_view(out@));
    out
}

/// The kind of a line of a note body, with the text that is shown of it.
pub enum BodyLine {
    /// `### `, `## ` or `# ` and the heading's text, by level.
    Heading(u8, String),
    /// `- ` or `* ` and the item's text.
    Bullet(String),
    /// `>` and the quoted text.
    Quote(String),
    /// A code fence, shown as it is.
    Fence(String),
    /// Any other line, shown as it is.
    Text(String),
}

/// A body line as a mathematical value, one value for each line: a
/// heading of level `l` is kind `10 + l`; a bullet is kind 4, a quote 5, a
/// fence 6 and text 0.
pub open spec fn body_line_view(b: BodyLine) -> (int, Seq<char>) {
    match b {
        BodyLine::Heading(level, t) => (10 + level, t@),
        BodyLine::Bullet(t) => (4, t@),
        BodyLine::Quote(t) => (5, t@),
        BodyLine::Fence(t) => (6, t@),
        BodyLine::Text(t) => (0, t@),
    }
}

/// How a line of a note body is shown, judged on the trimmed line: a
/// heading of level 3, 2 or 1, a bullet, a quote (its text after all leading `>` and the
/// white space after them), a fence, or text; fences and text keep the
/// line as it is.
pub open spec fn body_line_kind(line: Seq<char>) -> (int, Seq<char>) {
    let t = trim_white(line);
    if has_prefix(t, "### "@) {
        (13, t.subrange(4, t.len() as int))
    } else if has_prefix(t, "## "@) {
        (12, t.subrange(3, t.len() as int))
    } else if has_prefix(t, "# "@) {
        (11, t.subrange(2, t.len() as int))
    } else if has_prefix(t, "- "@) || has_prefix(t, "* "@) {
        (4, t.subrange(2, t.len() as int))
    } else if has_prefix(t, ">"@) {
        (5, trim_white_start(trim_start_all(t, seq!['>'])))
    } else if has_prefix(t, "```"@) {
        (6, line)
    } else {
        (0, line)
    }
}

/// Judges how a line of a note body is shown.
pub fn classify_body_line(line: &str) -> (r: BodyLine)
    ensures
        body_line_view(r) == body_line_kind(line@),
        r matches BodyLine::Heading(l, _) ==> 1 <= l <= 3,
{
    proof {
        reveal_strlit("### ");
        reveal_strlit("## ");
        reveal_strlit("# ");
        reveal_strlit("- ");
        reveal_strlit("* ");
        reveal_strlit(">");
        reveal_strlit("```");
    }
    let t = trim(&chars_of(line));
    if starts_with(&t, &chars_of("### ")) {
        BodyLine::Heading(3, string_of(&slice_chars(&t, 4, t.len())))
    } else if starts_with(&t, &chars_of("## ")) {
        BodyLine::Heading(2, string_of(&slice_chars(&t, 3, t.len())))
    } else if starts_with(&t, &chars_of("# ")) {
        BodyLine::Heading(1, string_of(&slice_chars(&t, 2, t.len())))
    } else if starts_with(&t, &chars_of("- ")) || starts_with(&t, &chars_of("* ")) {
        BodyLine::Bullet(string_of(&slice_chars(&t, 2, t.len())))
    } else if starts_with(&t, &chars_of(">")) {
        let gt = vec!['>'];
        assert(gt@ =~= seq!['>']);
        let q = trim_start_copies(&t, &gt);
        BodyLine::Quote(string_of(&crate::text::trim_start_white(&q)))
    } else if starts_with(&t, &chars_of("```")) {
        BodyLine::Fence(line.to_string())
    } else {
        BodyLine::Text(line.to_string())
    }
}

/// Two body lines with the same view are the same kind of line with the
/// same text: the view tells every variant apart.
pub proof fn lemma_body_line_view_injective(a: BodyLine, b: BodyLine)
    requires
        body_line_view(a) == body_line_view(b),
    ensures
        match (a, b) {
            (BodyLine::Heading(l, s), BodyLine::Heading(m, t)) => l == m && s@ == t@,
            (BodyLine::Bullet(s), BodyLine::Bullet(t)) => s@ == t@,
            (BodyLine::Quote(s), BodyLine::Quote(t)) => s@ == t@,
            (BodyLine::Fence(s), BodyLine::Fence(t)) => s@ == t@,
            (BodyLine::Text(s), BodyLine::Text(t)) => s@ == t@,
            _ => false,
        },
{
}

/// The line label of a note: ` :L<start>` for one line, ` :L<start>-<end>`
/// for a range, nothing without a start.
pub open spec fn line_label_text(start: Option<u32>, end: Option<u32>) -> Seq<char> {
    match (start, end) {
        (Some(s), Some(e)) => if s == e {
            " :L"@ + decimal(s as nat)
        } else {
            " :L"@ + decimal(s as nat) + "-"@ + decimal(e as nat)
        },
        (Some(s), None) => " :L"@ + decimal(s as nat),
        _ => Seq::empty(),
    }
}

/// The line label of a note.
pub fn line_label(start: Option<u32>, end: Option<u32>) -> (r: String)
    ensures
        r@ == line_label_text(start, end),
{
    let mut out: Vec<char> = Vec::new();
    match (start, end) {
        (Some(s), Some(e)) => {
            append_str(&mut out, " :L");
            push_decimal(&mut out, s as u64);
            if s != e {
                append_str(&mut out, "-");
                push_decimal(&mut out, e as u64);
            }
        },
        (Some(s), None) => {
            append_str(&mut out, " :L");
            push_decimal(&mut out, s as u64);
        },
        _ => {},
    }
    string_of(&out)
}

/// A note covers line `n`: it has a start line at most `n`, and `n` is at
/// most its end line, or its start line where it has no end.
pub open spec fn covers(note: NoteView, n: u32) -> bool {
    match note.line_start {
        Some(start) => start <= n && n <= match note.line_end {
            Some(e) => e,
            None => start,
        },
        None => false,
    }
}

/// Some note covers line `n`.
pub open spec fn has_note_on(notes: Seq<NoteView>, n: u32) -> bool {
    exists|i: int| 0 <= i < notes.len() && #[trigger] covers(notes[i], n)
}

/// Whether some note covers line `n`.
pub fn line_has_note(notes: &[Note], n: u32) -> (r: bool)
    ensures
        r == has_note_on(notes_view(notes@), n),
{
    let ghost nv = notes_view(notes@);
    let mut i: usize = 0;
    while i < notes.len()
        invariant
            i <= notes@.len(),
            nv == notes_view(notes@),
            forall|j: int| 0 <= j < i ==> !#[trigger] covers(nv[j], n),
        decreases notes.len() - i,
    {
        assert(nv[i as int] == notes@[i as int]@);
        match notes[i].line_start {
            Some(start) => {
                let end = match notes[i].line_end {
                    Some(e) => e,
                    None => start,
                };
                if start <= n && n <= end {
                    assert(covers(nv[i as int], n));
                    return true;
                }
            },
            None => {},
        }
        assert(!covers(nv[i as int], n));
        i = i + 1;
    }
    false
}

/// The badge shown for a note's status.
pub open spec fn badge_text(st: NoteStatus) -> Seq<char> {
    match st {
        NoteStatus::Open => "[● Open]"@,
        NoteStatus::Approved => "[✔ Approved]"@,
        NoteStatus::Rejected => "[✗ Rejected]"@,
        NoteStatus::Resolved => "[✓ Resolved]"@,
    }
}

/// The badge of a note's status in the notes pane.
pub fn status_badge(st: NoteStatus) -> (r: &'static str)
    ensures
        r@ == badge_text(st),
{
    match st {
        NoteStatus::Open => "[● Open]",
        NoteStatus::Approved => "[✔ Approved]",
        NoteStatus::Rejected => "[✗ Rejected]",
        NoteStatus::Resolved => "[✓ Resolved]",
    }
}

/// The indent of a note card: replies are indented with an arrow, the
/// selected card is marked, others are indented plainly.
pub open spec fn card_indent_text(reply: bool, selected: bool) -> Seq<char> {
    if reply {
        "    ↳ "@
    } else if selected {
        "▶ "@
    } else {
        "  "@
    }
}

/// The indent of a note card in the notes pane.
pub fn card_indent(reply: bool, selected: bool) -> (r: &'static str)
    ensures
        r@ == card_indent_text(reply, selected),
{
    if reply {
        "    ↳ "
    } else if selected {
        "▶ "
    } else {
        "  "
    }
}

} // verus!
