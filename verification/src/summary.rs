//! Summaries of open discussions: which notes go into the request, what
//! is said of each, the request text, and the text of the reply.

use vstd::prelude::*;
use crate::engine::utf8_text;
use crate::json::{Json, json_get, json_str, json_u64, json_array, deref_opt, get, get_opt, as_str, as_u64, json_parsed, parse_json};
use vstd::utf8::{valid_utf8, decode_utf8};
use crate::text::{
    after_char, append_chars, append_str, before_char, chars_equal, chars_of, decimal, find_at, first_at,
    push_decimal, slice_chars, string_of, text_or_empty, trim, trim_white,
};

verus! {

/// A line of `git notes list`: the note's blob and the annotated commit,
/// split at the first space; none without a space.
pub open spec fn list_pair(line: Seq<char>) -> Option<(Seq<char>, Seq<char>)> {
    if first_at(line, seq![' ']) is Some {
        Some((before_char(line, ' '), after_char(line, ' ')))
    } else {
        None
    }
}

/// Splits a line of `git notes list` into blob and commit.
pub fn parse_list_line(line: &str) -> (r: Option<(String, String)>)
    ensures
        match r {
            Some((b, c)) => list_pair(line@) == Some((b@, c@)),
            None => list_pair(line@) is None,
        },
{
    let l = chars_of(line);
    let sp = vec![' '];
    assert(sp@ =~= seq![' ']);
    match find_at(&l, &sp) {
        Some(i) => {
            assert(i + 1 <= l@.len());
            assert(i < l.len());
            Some((string_of(&slice_chars(&l, 0, i)), string_of(&slice_chars(&l, i + 1, l.len()))))
        },
        None => None,
    }
}

/// What a summary says of one note.
pub enum SummaryEntry {
    /// A note stored as JSON: its id (where it has one), file, start line,
    /// trimmed body, author and status.
    Note { id: Option<String>, file: String, line: u64, body: String, author: String, status: String },
    /// A note stored as plain text: its first line, trimmed.
    Raw(String),
}

/// A summary entry as a mathematical value.
pub enum EntryView {
    Note { id: Option<Seq<char>>, file: Seq<char>, line: u64, body: Seq<char>, author: Seq<char>, status: Seq<char> },
    Raw(Seq<char>),
}

impl View for SummaryEntry {
    type V = EntryView;

    open spec fn view(&self) -> EntryView {
        match self {
            SummaryEntry::Note { id, file, line, body, author, status } => EntryView::Note {
                id: id.deep_view(),
                file: file@,
                line: *line,
                body: body@,
                author: author@,
                status: status@,
            },
            SummaryEntry::Raw(t) => EntryView::Raw(t@),
        }
    }
}

/// A string member, or a default where there is none.
pub open spec fn str_or(j: Json, key: Seq<char>, default: Seq<char>) -> Seq<char> {
    match json_str(json_get(j, key)) {
        Some(s) => s,
        None => default,
    }
}

/// The first line of a text, as `str::lines` gives it; nothing for an
/// empty text.
pub open spec fn first_line(s: Seq<char>) -> Seq<char> {
    let l = crate::text::text_lines(s);
    if l.len() > 0 {
        l[0]
    } else {
        Seq::empty()
    }
}

/// What a summary says of a note whose stored content is `content`, where
/// `doc` is that content read as JSON: nothing for blank content, or for a
/// note whose status is not `Open` where only open notes are wanted; for a
/// JSON note its fields (status `Open`, author `Unknown`, empty file, line
/// zero where missing, body trimmed); else the content's first line,
/// trimmed.
pub open spec fn summary_entry_of(doc: Option<Json>, content: Seq<char>, open_only: bool) -> Option<EntryView> {
    if trim_white(content).len() == 0 {
        None
    } else {
        match doc {
            Some(d) => {
                let status = str_or(d, "status"@, "Open"@);
                if open_only && status != "Open"@ {
                    None
                } else {
                    Some(
                        EntryView::Note {
                            id: json_str(json_get(d, "id"@)),
                            file: str_or(d, "file"@, ""@),
                            line: match json_u64(json_get(d, "line_start"@)) {
                                Some(l) => l,
                                None => 0,
                            },
                            body: trim_white(str_or(d, "body"@, ""@)),
                            author: str_or(d, "author"@, "Unknown"@),
                            status,
                        },
                    )
                }
            },
            None => Some(EntryView::Raw(trim_white(first_line(content)))),
        }
    }
}

fn member_or(d: &Json, key: &str, default: &str) -> (r: String)
    ensures
        r@ == str_or(*d, key@, default@),
{
    match as_str(get(d, key)) {
        Some(s) => s,
        None => default.to_string(),
    }
}

/// Says what a summary says of a note, given its stored content and that
/// content read as JSON where it is JSON.
pub fn summary_entry(doc: Option<&Json>, content: &str, open_only: bool) -> (r: Option<SummaryEntry>)
    ensures
        match r {
            Some(e) => summary_entry_of(deref_opt(doc), content@, open_only) == Some(e@),
            None => summary_entry_of(deref_opt(doc), content@, open_only) is None,
        },
{
    let c = chars_of(content);
    if trim(&c).len() == 0 {
        return None;
    }
    match doc {
        Some(d) => {
            let status = member_or(d, "status", "Open");
            if open_only && !chars_equal(&chars_of(status.as_str()), &chars_of("Open")) {
                return None;
            }
            let id = as_str(get(d, "id"));
            let file = member_or(d, "file", "");
            let line = match as_u64(get(d, "line_start")) {
                Some(l) => l,
                None => 0,
            };
            let body_raw = member_or(d, "body", "");
            let body = string_of(&trim(&chars_of(body_raw.as_str())));
            let author = member_or(d, "author", "Unknown");
            proof {
                let e = EntryView::Note { id: id.deep_view(), file: file@, line, body: body@, author: author@, status: status@ };
                assert(summary_entry_of(deref_opt(doc), content@, open_only) == Some(e));
            }
            Some(SummaryEntry::Note { id, file, line, body, author, status })
        },
        None => {
            let lines = crate::text::split_lines(&c);
            let first = if lines.len() > 0 {
                assert(crate::text::rows_view(lines@)[0] == lines@[0]@);
                trim(&lines[0])
            } else {
                let e: Vec<char> = Vec::new();
                assert(trim_white(Seq::<char>::empty()) =~= Seq::<char>::empty());
                e
            };
            Some(SummaryEntry::Raw(string_of(&first)))
        },
    }
}

/// The element `i` of an array value.
pub open spec fn json_at(j: Option<Json>, i: int) -> Option<Json> {
    match j {
        Some(Json::Array(v)) => if 0 <= i < v@.len() {
            Some(v@[i])
        } else {
            None
        },
        _ => None,
    }
}

/// The element `i` of an array value.
pub fn at(j: Option<&Json>, i: usize) -> (r: Option<&Json>)
    ensures
        deref_opt(r) == json_at(deref_opt(j), i as int),
{
    match j {
        Some(Json::Array(v)) => if i < v.len() {
            Some(&v[i])
        } else {
            None
        },
        _ => None,
    }
}

/// The text of the first part of the first candidate of a reply of the
/// generative language service.
pub open spec fn reply_text_of(resp: Json) -> Option<Seq<char>> {
    json_str(
        json_get_opt(
            json_at(json_get_opt(json_get_opt(json_at(json_get(resp, "candidates"@), 0), "content"@), "parts"@), 0),
            "text"@,
        ),
    )
}

/// The member `key` of a value that may be absent.
pub open spec fn json_get_opt(j: Option<Json>, key: Seq<char>) -> Option<Json> {
    match j {
        Some(v) => json_get(v, key),
        None => None,
    }
}

/// Reads the summary text out of a reply of the generative language
/// service, or the error where the reply does not hold one.
pub fn reply_text(resp: &Json) -> (r: Result<String, String>)
    ensures
        match r {
            Ok(t) => reply_text_of(*resp) == Some(t@),
            Err(e) => reply_text_of(*resp) is None && e@ == "Unexpected Gemini API response format"@,
        },
{
    let c = at(get(resp, "candidates"), 0);
    let p = at(get_opt(get_opt(c, "content"), "parts"), 0);
    match as_str(get_opt(p, "text")) {
        Some(t) => Ok(t),
        None => Err("Unexpected Gemini API response format".to_string()),
    }
}

/// The request text for a summary of `notes_text`, with `total` notes.
pub open spec fn prompt_text(notes_text: Seq<char>, total: u64) -> Seq<char> {
    "You are a senior engineering lead reviewing a codebase before a release.\n\nHere are the open discussion threads and code annotations from the git-notes system:\n\n"@
        + notes_text
        + "\n\nPlease provide:\n1. **Executive Summary** \u{2014} 2-3 sentences: what is the overall health of the open discussions?\n2. **Critical Issues** \u{2014} Any notes that look like blockers, security concerns, or bugs (if none, say \"None identified\").\n3. **Open Discussions** \u{2014} Group and summarize the active conversations by theme or file area.\n4. **Recommended Actions** \u{2014} Specific next steps for the team, ordered by priority.\n5. **Quick Stats** \u{2014} Total open: "@
        + decimal(total as nat) + ", breakdown by namespace if multiple.\n\nBe concise, technical, and actionable. Use markdown formatting."@
}

/// Builds the request text for a summary.
pub fn summary_prompt(notes_text: &str, total: u64) -> (r: String)
    ensures
        r@ == prompt_text(notes_text@, total),
{
    let mut out = chars_of(
        "You are a senior engineering lead reviewing a codebase before a release.\n\nHere are the open discussion threads and code annotations from the git-notes system:\n\n",
    );
    append_str(&mut out, notes_text);
    append_str(
        &mut out,
        "\n\nPlease provide:\n1. **Executive Summary** \u{2014} 2-3 sentences: what is the overall health of the open discussions?\n2. **Critical Issues** \u{2014} Any notes that look like blockers, security concerns, or bugs (if none, say \"None identified\").\n3. **Open Discussions** \u{2014} Group and summarize the active conversations by theme or file area.\n4. **Recommended Actions** \u{2014} Specific next steps for the team, ordered by priority.\n5. **Quick Stats** \u{2014} Total open: ",
    );
    push_decimal(&mut out, total);
    append_str(&mut out, ", breakdown by namespace if multiple.\n\nBe concise, technical, and actionable. Use markdown formatting.");
    string_of(&out)
}

/// What a stored note blob contributes to a summary: its text decoded as
/// UTF-8 (nothing where it is not UTF-8), read as a JSON note where the
/// bytes are one.
pub fn blob_summary_entry(blob: &[u8], open_only: bool) -> (r: Option<SummaryEntry>)
    ensures
        match r {
            Some(e) => valid_utf8(blob@) && summary_entry_of(json_parsed(blob@), decode_utf8(blob@), open_only)
                == Some(e@),
            None => !valid_utf8(blob@) || summary_entry_of(json_parsed(blob@), decode_utf8(blob@), open_only)
                is None,
        },
{
    match utf8_text(blob) {
        Some(content) => {
            let doc = parse_json(blob);
            summary_entry(doc.as_ref(), content.as_str(), open_only)
        },
        None => None,
    }
}

/// The summary text of a Gemini reply: the error where the bytes are not
/// JSON or lack the text, else the text.
pub fn gemini_reply(reply: &[u8]) -> (r: Result<String, String>)
    ensures
        match json_parsed(reply@) {
            Some(resp) => match r {
                Ok(t) => reply_text_of(resp) == Some(t@),
                Err(e) => reply_text_of(resp) is None && e@ == "Unexpected Gemini API response format"@,
            },
            None => r matches Err(e) && e@ == "Failed to parse Gemini API response"@,
        },
{
    match parse_json(reply) {
        Some(resp) => reply_text(&resp),
        None => Err("Failed to parse Gemini API response".to_string()),
    }
}

} // verus!
