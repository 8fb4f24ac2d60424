//! The plain text of comments in the Atlassian Document Format.

use vstd::prelude::*;
use crate::json::{Json, json_get, json_str, json_array, deref_opt, find_member, get, as_str};
use crate::text::{append_str, chars_equal, chars_of, string_of, text_or_empty};

verus! {

/// The node is a paragraph: its `type` is the string `paragraph`.
pub open spec fn is_paragraph(n: Json) -> bool {
    json_str(json_get(n, "type"@)) == Some("paragraph"@)
}

/// The text of a document node: its `text` where that is a string, then
/// the text of each element of its `content` array, each paragraph
/// followed by a line feed.
pub open spec fn adf_text(n: Json) -> Seq<char>
    decreases n,
{
    text_or_empty(json_str(json_get(n, "text"@))) + match json_array(json_get(n, "content"@)) {
        Some(cs) => adf_children_text(cs, n),
        None => Seq::empty(),
    }
}

/// The text of the children `s` of `parent`, in order.
pub open spec fn adf_children_text(s: Seq<Json>, parent: Json) -> Seq<char>
    decreases parent, s.len(),
{
    if s.len() == 0 {
        Seq::empty()
    } else if decreases_to!(parent => s.last()) {
        adf_children_text(s.drop_last(), parent) + adf_text(s.last()) + if is_paragraph(s.last()) {
            seq!['\n']
        } else {
            Seq::empty()
        }
    } else {
        Seq::empty()
    }
}

fn paragraph(n: &Json) -> (r: bool)
    ensures
        r == is_paragraph(*n),
{
    match as_str(get(n, "type")) {
        Some(k) => {
            proof {
                reveal_strlit("paragraph");
            }
            chars_equal(&chars_of(k.as_str()), &chars_of("paragraph"))
        },
        None => false,
    }
}

/// The `content` array of a node, each of whose elements the node
/// decreases to.
fn content_of(n: &Json) -> (r: Option<&Vec<Json>>)
    ensures
        match r {
            Some(v) => json_array(json_get(*n, "content"@)) == Some(v@) && forall|i: int|
                0 <= i < v@.len() ==> decreases_to!(*n => #[trigger] v@[i]),
            None => json_array(json_get(*n, "content"@)) is None,
        },
{
    match n {
        Json::Object(ms) => match find_member(ms, "content") {
            Some(k) => match &ms[k].value {
                Json::Array(v) => {
                    proof {
                        assert(decreases_to!(*n => *ms));
                        assert(decreases_to!(*ms => ms@));
                        assert(decreases_to!(ms@ => ms@[k as int]));
                        assert(decreases_to!(ms@[k as int] => ms@[k as int].value));
                        assert(decreases_to!(ms@[k as int].value => *v));
                        assert(decreases_to!(*v => v@));
                        assert forall|i: int| 0 <= i < v@.len() implies decreases_to!(*n => #[trigger] v@[i]) by {
                            assert(decreases_to!(v@ => v@[i]));
                        }
                    }
                    Some(v)
                },
                _ => None,
            },
            None => None,
        },
        _ => None,
    }
}

fn collect_text(n: &Json, acc: &mut Vec<char>)
    ensures
        final(acc)@ == old(acc)@ + adf_text(*n),
    decreases n,
{
    let ghost start0 = acc@;
    match as_str(get(n, "text")) {
        Some(t) => append_str(acc, t.as_str()),
        None => {},
    }
    let ghost start = acc@;
    match content_of(n) {
        None => {
            assert(acc@ =~= start0 + adf_text(*n));
        },
        Some(cs) => {
            let mut i: usize = 0;
            assert(cs@.subrange(0, 0) =~= Seq::<Json>::empty());
            while i < cs.len()
                invariant
                    i <= cs@.len(),
                    forall|j: int| 0 <= j < cs@.len() ==> decreases_to!(*n => #[trigger] cs@[j]),
                    acc@ == start + adf_children_text(cs@.subrange(0, i as int), *n),
                decreases cs.len() - i,
            {
                let child = &cs[i];
                assert(decreases_to!(*n => cs@[i as int]));
                let ghost sub = cs@.subrange(0, i + 1);
                assert(sub.drop_last() =~= cs@.subrange(0, i as int));
                assert(sub.last() == *child);
                collect_text(child, acc);
                if paragraph(child) {
                    acc.push('\n');
                }
                assert(acc@ =~= start + adf_children_text(sub, *n));
                i = i + 1;
            }
            assert(cs@.subrange(0, cs@.len() as int) =~= cs@);
            assert(acc@ =~= start0 + adf_text(*n));
        },
    }
}

/// The text of a Jira comment body: nothing where there is none, the text
/// itself where it is a string, else the text of the document.
pub open spec fn comment_text(body: Option<Json>) -> Seq<char> {
    match body {
        None => Seq::empty(),
        Some(Json::Str(s)) => s@,
        Some(d) => adf_text(d),
    }
}

/// Extracts the text of a Jira comment body.
pub fn extract_jira_comment_body(body: Option<&Json>) -> (r: String)
    ensures
        r@ == comment_text(deref_opt(body)),
{
    match body {
        None => String::new(),
        Some(Json::Str(s)) => s.clone(),
        Some(d) => {
            let mut acc: Vec<char> = Vec::new();
            collect_text(d, &mut acc);
            assert(acc@ =~= adf_text(*d));
            string_of(&acc)
        },
    }
}

/// Appends the text of a document node to `acc`.
pub fn extract_adf_text(node: &Json, acc: &mut String)
    ensures
        final(acc)@ == old(acc)@ + adf_text(*node),
{
    let mut v: Vec<char> = Vec::new();
    collect_text(node, &mut v);
    let mut i: usize = 0;
    let ghost start = acc@;
    while i < v.len()
        invariant
            i <= v@.len(),
            acc@ == start + v@.subrange(0, i as int),
        decreases v.len() - i,
    {
        crate::text::push_char(acc, v[i]);
        i = i + 1;
        assert(acc@ =~= start + v@.subrange(0, i as int));
    }
    assert(v@.subrange(0, v@.len() as int) =~= v@);
    assert(v@ =~= Seq::<char>::empty() + adf_text(*node));
}

} // verus!
