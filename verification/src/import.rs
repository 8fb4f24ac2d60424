//! Importing review comments from GitHub, GitLab, Bitbucket and Jira: the
//! request URLs, and the comments read out of each service's reply.

use vstd::prelude::*;
use vstd::string::StringSliceAdditionalSpecFns;
use crate::adf::{comment_text, extract_jira_comment_body};
use crate::ids::Timestamp;
use crate::json::{
    Json, json_get, opt_get, get_either, json_str, json_bool, json_u64, json_array, deref_opt, get,
    get_opt, get_first, as_str, as_bool, as_u64, as_array, json_parsed, parse_json,
};
use crate::namespace::{Namespace, NamespaceView};
use crate::note::{Note, NoteStatus, NoteView, fresh_note, is_random_id};
use crate::remote::{url_encoded, urlencoding};
use crate::text::{append_str, chars_of, decimal, push_decimal, string_of, trim, trim_white};

verus! {

/// A comment read out of a service's reply, ready to become a note.
pub struct ImportedComment {
    pub commit: String,
    pub file: Option<String>,
    pub line: Option<u32>,
    pub body: String,
    pub author: String,
    pub status: NoteStatus,
}

/// An imported comment as a mathematical value.
pub struct CommentView {
    pub commit: Seq<char>,
    pub file: Option<Seq<char>>,
    pub line: Option<u32>,
    pub body: Seq<char>,
    pub author: Seq<char>,
    pub status: NoteStatus,
}

impl View for ImportedComment {
    type V = CommentView;

    open spec fn view(&self) -> CommentView {
        CommentView {
            commit: self.commit@,
            file: self.file.deep_view(),
            line: self.line,
            body: self.body@,
            author: self.author@,
            status: self.status,
        }
    }
}

/// The views of a list of imported comments.
pub open spec fn comments_view(s: Seq<ImportedComment>) -> Seq<CommentView> {
    s.map_values(|c: ImportedComment| c@)
}

/// The comments among `s` that are present, in order.
pub open spec fn kept(s: Seq<Option<CommentView>>) -> Seq<CommentView>
    decreases s.len(),
{
    if s.len() == 0 {
        Seq::empty()
    } else {
        kept(s.drop_last()) + match s.last() {
            Some(c) => seq![c],
            None => Seq::empty(),
        }
    }
}

/// A line number read as a 64-bit number, cut to 32 bits.
pub open spec fn line_of(n: Option<u64>) -> Option<u32> {
    match n {
        Some(l) => Some(l as u32),
        None => None,
    }
}

/// A name, or `unknown` where there is none.
pub open spec fn or_unknown(s: Option<Seq<char>>) -> Seq<char> {
    match s {
        Some(a) => a,
        None => "unknown"@,
    }
}

/// The note a comment becomes: a fresh note with the comment's anchor,
/// body and author, the line as both ends of its range, and the comment's
/// status.
pub open spec fn imported_view(id: u128, timestamp: Timestamp, c: CommentView, ns: NamespaceView) -> NoteView {
    let n = fresh_note(id, timestamp, c.commit, c.file, c.line, c.line, c.body, c.author, ns, None);
    NoteView {
        id: n.id,
        commit: n.commit,
        file: n.file,
        line_start: n.line_start,
        line_end: n.line_end,
        body: n.body,
        author: n.author,
        timestamp: n.timestamp,
        namespace: n.namespace,
        thread_id: n.thread_id,
        status: c.status,
        tags: n.tags,
        signature: n.signature,
    }
}

/// Makes a new note from an imported comment.
pub fn imported_note(c: &ImportedComment, ns: &Namespace) -> (r: Note)
    ensures
        r@ == imported_view(r.id, r.timestamp, c@, ns@),
        is_random_id(r.id),
{
    let mut note = Note::new(
        c.commit.clone(),
        crate::text::clone_opt_string(&c.file),
        c.line,
        c.line,
        c.body.clone(),
        c.author.clone(),
        ns.clone(),
    );
    note.status = c.status;
    note
}

fn line_cut(n: Option<u64>) -> (r: Option<u32>)
    ensures
        r == line_of(n),
{
    match n {
        Some(l) => Some(l as u32),
        None => None,
    }
}

fn name_or_unknown(s: Option<String>) -> (r: String)
    ensures
        r@ == or_unknown(s.deep_view()),
{
    match s {
        Some(a) => a,
        None => {
            proof {
                reveal_strlit("unknown");
            }
            "unknown".to_string()
        },
    }
}

// ---------------------------------------------------------------- GitHub

/// The comment of a GitHub pull request review comment `c`: none without
/// a string `body`; the file is its `path`, the line its `line`, the author
/// its `user.login`, the commit `target`; open.
pub open spec fn github_comment(c: Json, target: Seq<char>) -> Option<CommentView> {
    match json_str(json_get(c, "body"@)) {
        None => None,
        Some(body) => Some(
            CommentView {
                commit: target,
                file: json_str(json_get(c, "path"@)),
                line: line_of(json_u64(json_get(c, "line"@))),
                body,
                author: or_unknown(json_str(opt_get(json_get(c, "user"@), "login"@))),
                status: NoteStatus::Open,
            },
        ),
    }
}

/// The comments of a GitHub reply, in order.
pub open spec fn github_comments_of(cs: Seq<Json>, target: Seq<char>) -> Seq<CommentView> {
    kept(cs.map_values(|c: Json| github_comment(c, target)))
}

fn github_item(c: &Json, target: &str) -> (r: Option<ImportedComment>)
    ensures
        match r {
            Some(x) => github_comment(*c, target@) == Some(x@),
            None => github_comment(*c, target@) is None,
        },
{
    let body = match as_str(get(c, "body")) {
        Some(b) => b,
        None => {
            return None;
        },
    };
    let file = as_str(get(c, "path"));
    let line = line_cut(as_u64(get(c, "line")));
    let author = name_or_unknown(as_str(get_opt(get(c, "user"), "login")));
    Some(ImportedComment { commit: target.to_string(), file, line, body, author, status: NoteStatus::Open })
}

/// The comments of the review comments of a GitHub pull request.
pub fn github_comments(cs: &[Json], target: &str) -> (r: Vec<ImportedComment>)
    ensures
        comments_view(r@) == github_comments_of(cs@, target@),
{
    let mut out: Vec<ImportedComment> = Vec::new();
    let mut i: usize = 0;
    while i < cs.len()
        invariant
            i <= cs@.len(),
            comments_view(out@) == kept(cs@.subrange(0, i as int).map_values(|c: Json| github_comment(c, target@))),
        decreases cs.len() - i,
    {
        let ghost m = cs@.subrange(0, i + 1).map_values(|c: Json| github_comment(c, target@));
        assert(m.drop_last() =~= cs@.subrange(0, i as int).map_values(|c: Json| github_comment(c, target@)));
        let ghost before = comments_view(out@);
        match github_item(&cs[i], target) {
            Some(x) => {
                out.push(x);
                assert(comments_view(out@) =~= before + seq![x@]);
            },
            None => {
                assert(comments_view(out@) =~= before + Seq::<CommentView>::empty());
            },
        }
        i = i + 1;
    }
    assert(cs@.subrange(0, cs@.len() as int) =~= cs@);
    out
}

/// The GitHub API URL of the review comments of a pull request.
pub open spec fn github_url_text(owner: Seq<char>, repo: Seq<char>, pr: u64) -> Seq<char> {
    "https://api.github.com/repos/"@ + owner + "/"@ + repo + "/pulls/"@ + decimal(pr as nat) + "/comments"@
}

/// Builds the GitHub API URL of the review comments of a pull request.
pub fn github_url(owner: &str, repo: &str, pr: u64) -> (r: String)
    ensures
        r@ == github_url_text(owner@, repo@, pr),
{
    let mut out = chars_of("https://api.github.com/repos/");
    append_str(&mut out, owner);
    append_str(&mut out, "/");
    append_str(&mut out, repo);
    append_str(&mut out, "/pulls/");
    push_decimal(&mut out, pr);
    append_str(&mut out, "/comments");
    string_of(&out)
}

// ---------------------------------------------------------------- GitLab

/// The comment of a GitLab discussion note `n`: none for a system note or
/// one without a string `body`; file, line and commit come from its
/// `position` (`new_path` else `old_path`, `new_line` else `old_line`,
/// `head_sha` else `target`), the author is `author.name` else
/// `author.username`; resolved where `resolved` is true, else open.
pub open spec fn gitlab_comment(n: Json, target: Seq<char>) -> Option<CommentView> {
    if json_bool(json_get(n, "system"@)) == Some(true) {
        None
    } else {
        match json_str(json_get(n, "body"@)) {
            None => None,
            Some(body) => {
                let position = json_get(n, "position"@);
                Some(
                    CommentView {
                        commit: match json_str(opt_get(position, "head_sha"@)) {
                            Some(s) => s,
                            None => target,
                        },
                        file: json_str(get_either(position, "new_path"@, "old_path"@)),
                        line: line_of(json_u64(get_either(position, "new_line"@, "old_line"@))),
                        body,
                        author: or_unknown(
                            json_str(get_either(json_get(n, "author"@), "name"@, "username"@)),
                        ),
                        status: if json_bool(json_get(n, "resolved"@)) == Some(true) {
                            NoteStatus::Resolved
                        } else {
                            NoteStatus::Open
                        },
                    },
                )
            },
        }
    }
}

/// The comments of one GitLab discussion: those of its `notes` array.
pub open spec fn gitlab_discussion(d: Json, target: Seq<char>) -> Seq<CommentView> {
    match json_array(json_get(d, "notes"@)) {
        Some(ns) => kept(ns.map_values(|n: Json| gitlab_comment(n, target))),
        None => Seq::empty(),
    }
}

/// The comments of a list of GitLab discussions, in order.
pub open spec fn gitlab_comments_of(ds: Seq<Json>, target: Seq<char>) -> Seq<CommentView>
    decreases ds.len(),
{
    if ds.len() == 0 {
        Seq::empty()
    } else {
        gitlab_comments_of(ds.drop_last(), target) + gitlab_discussion(ds.last(), target)
    }
}

fn gitlab_item(n: &Json, target: &str) -> (r: Option<ImportedComment>)
    ensures
        match r {
            Some(x) => gitlab_comment(*n, target@) == Some(x@),
            None => gitlab_comment(*n, target@) is None,
        },
{
    match as_bool(get(n, "system")) {
        Some(true) => {
            return None;
        },
        _ => {},
    }
    let body = match as_str(get(n, "body")) {
        Some(b) => b,
        None => {
            return None;
        },
    };
    let position = get(n, "position");
    let commit = match as_str(get_opt(position, "head_sha")) {
        Some(s) => s,
        None => target.to_string(),
    };
    let file = as_str(get_first(position, "new_path", "old_path"));
    let line = line_cut(as_u64(get_first(position, "new_line", "old_line")));
    let author = name_or_unknown(as_str(get_first(get(n, "author"), "name", "username")));
    let status = match as_bool(get(n, "resolved")) {
        Some(true) => NoteStatus::Resolved,
        _ => NoteStatus::Open,
    };
    Some(ImportedComment { commit, file, line, body, author, status })
}

fn gitlab_discussion_items(d: &Json, target: &str, out: &mut Vec<ImportedComment>)
    ensures
        comments_view(final(out)@) == comments_view(old(out)@) + gitlab_discussion(*d, target@),
{
    let ghost start = comments_view(out@);
    let ns = match as_array(get(d, "notes")) {
        Some(ns) => ns,
        None => {
            assert(comments_view(out@) =~= start + Seq::<CommentView>::empty());
            return;
        },
    };
    let mut i: usize = 0;
    assert(comments_view(out@) =~= start + kept(ns@.subrange(0, 0).map_values(|n: Json| gitlab_comment(n, target@))));
    while i < ns.len()
        invariant
            i <= ns@.len(),
            comments_view(out@) == start + kept(ns@.subrange(0, i as int).map_values(|n: Json| gitlab_comment(n, target@))),
        decreases ns.len() - i,
    {
        let ghost m = ns@.subrange(0, i + 1).map_values(|n: Json| gitlab_comment(n, target@));
        assert(m.drop_last() =~= ns@.subrange(0, i as int).map_values(|n: Json| gitlab_comment(n, target@)));
        let ghost before = comments_view(out@);
        match gitlab_item(&ns[i], target) {
            Some(x) => {
                out.push(x);
                assert(comments_view(out@) =~= before + seq![x@]);
            },
            None => {
                assert(comments_view(out@) =~= before + Seq::<CommentView>::empty());
            },
        }
        i = i + 1;
    }
    assert(ns@.subrange(0, ns@.len() as int) =~= ns@);
}

/// The comments of the discussions of a GitLab merge request.
pub fn gitlab_comments(discussions: &[Json], target: &str) -> (r: Vec<ImportedComment>)
    ensures
        comments_view(r@) == gitlab_comments_of(discussions@, target@),
{
    let mut out: Vec<ImportedComment> = Vec::new();
    let mut i: usize = 0;
    while i < discussions.len()
        invariant
            i <= discussions@.len(),
            comments_view(out@) == gitlab_comments_of(discussions@.subrange(0, i as int), target@),
        decreases discussions.len() - i,
    {
        let ghost sub = discussions@.subrange(0, i + 1);
        assert(sub.drop_last() =~= discussions@.subrange(0, i as int));
        gitlab_discussion_items(&discussions[i], target, &mut out);
        i = i + 1;
    }
    assert(discussions@.subrange(0, discussions@.len() as int) =~= discussions@);
    out
}

/// The GitLab API URL of the discussions of a merge request.
pub open spec fn gitlab_url_text(host: Seq<char>, project: &str, mr: u64) -> Seq<char> {
    "https://"@ + host + "/api/v4/projects/"@ + url_encoded(project.spec_bytes()) + "/merge_requests/"@
        + decimal(mr as nat) + "/discussions"@
}

/// Builds the GitLab API URL of the discussions of a merge request.
pub fn gitlab_url(host: &str, project: &str, mr: u64) -> (r: String)
    ensures
        r@ == gitlab_url_text(host@, project, mr),
{
    let mut out = chars_of("https://");
    append_str(&mut out, host);
    append_str(&mut out, "/api/v4/projects/");
    let enc = urlencoding(project);
    append_str(&mut out, enc.as_str());
    append_str(&mut out, "/merge_requests/");
    push_decimal(&mut out, mr);
    append_str(&mut out, "/discussions");
    string_of(&out)
}

// ------------------------------------------------------------- Bitbucket

/// The comment of a Bitbucket pull request comment `c`: none for a deleted
/// comment or one without a string `content.raw`; the file is
/// `inline.path`, the line `inline.to` else `inline.from`, the author
/// `user.display_name`, else `user.nickname`, else `user.account_id`; the
/// commit is `target`; open.
pub open spec fn bitbucket_comment(c: Json, target: Seq<char>) -> Option<CommentView> {
    if json_bool(json_get(c, "deleted"@)) == Some(true) {
        None
    } else {
        match json_str(opt_get(json_get(c, "content"@), "raw"@)) {
            None => None,
            Some(body) => {
                let inline = json_get(c, "inline"@);
                let user = json_get(c, "user"@);
                Some(
                    CommentView {
                        commit: target,
                        file: json_str(opt_get(inline, "path"@)),
                        line: line_of(json_u64(get_either(inline, "to"@, "from"@))),
                        body,
                        author: or_unknown(
                            json_str(
                                match get_either(user, "display_name"@, "nickname"@) {
                                    Some(v) => Some(v),
                                    None => opt_get(user, "account_id"@),
                                },
                            ),
                        ),
                        status: NoteStatus::Open,
                    },
                )
            },
        }
    }
}

/// The comments of a Bitbucket reply: those of its `values` array, or
/// `None` where it has none.
pub open spec fn bitbucket_comments_of(resp: Json, target: Seq<char>) -> Option<Seq<CommentView>> {
    match json_array(json_get(resp, "values"@)) {
        Some(cs) => Some(kept(cs.map_values(|c: Json| bitbucket_comment(c, target)))),
        None => None,
    }
}

fn bitbucket_item(c: &Json, target: &str) -> (r: Option<ImportedComment>)
    ensures
        match r {
            Some(x) => bitbucket_comment(*c, target@) == Some(x@),
            None => bitbucket_comment(*c, target@) is None,
        },
{
    match as_bool(get(c, "deleted")) {
        Some(true) => {
            return None;
        },
        _ => {},
    }
    let body = match as_str(get_opt(get(c, "content"), "raw")) {
        Some(b) => b,
        None => {
            return None;
        },
    };
    let inline = get(c, "inline");
    let user = get(c, "user");
    let file = as_str(get_opt(inline, "path"));
    let line = line_cut(as_u64(get_first(inline, "to", "from")));
    let name = match get_first(user, "display_name", "nickname") {
        Some(v) => Some(v),
        None => get_opt(user, "account_id"),
    };
    let author = name_or_unknown(as_str(name));
    Some(ImportedComment { commit: target.to_string(), file, line, body, author, status: NoteStatus::Open })
}

/// The comments of a Bitbucket reply, or the error where it has no
/// `values` array.
pub fn bitbucket_comments(resp: &Json, target: &str) -> (r: Result<Vec<ImportedComment>, String>)
    ensures
        match r {
            Ok(v) => bitbucket_comments_of(*resp, target@) == Some(comments_view(v@)),
            Err(e) => bitbucket_comments_of(*resp, target@) is None && e@
                == "Bitbucket response missing 'values' array"@,
        },
{
    let cs = match as_array(get(resp, "values")) {
        Some(cs) => cs,
        None => {
            return Err("Bitbucket response missing 'values' array".to_string());
        },
    };
    let mut out: Vec<ImportedComment> = Vec::new();
    let mut i: usize = 0;
    while i < cs.len()
        invariant
            i <= cs@.len(),
            comments_view(out@) == kept(cs@.subrange(0, i as int).map_values(|c: Json| bitbucket_comment(c, target@))),
        decreases cs.len() - i,
    {
        let ghost m = cs@.subrange(0, i + 1).map_values(|c: Json| bitbucket_comment(c, target@));
        assert(m.drop_last() =~= cs@.subrange(0, i as int).map_values(|c: Json| bitbucket_comment(c, target@)));
        let ghost before = comments_view(out@);
        match bitbucket_item(&cs[i], target) {
            Some(x) => {
                out.push(x);
                assert(comments_view(out@) =~= before + seq![x@]);
            },
            None => {
                assert(comments_view(out@) =~= before + Seq::<CommentView>::empty());
            },
        }
        i = i + 1;
    }
    assert(cs@.subrange(0, cs@.len() as int) =~= cs@);
    Ok(out)
}

/// The Bitbucket API URL of the comments of a pull request.
pub open spec fn bitbucket_url_text(workspace: Seq<char>, repo: Seq<char>, pr: u64) -> Seq<char> {
    "https://api.bitbucket.org/2.0/repositories/"@ + workspace + "/"@ + repo + "/pullrequests/"@
        + decimal(pr as nat) + "/comments"@
}

/// Builds the Bitbucket API URL of the comments of a pull request.
pub fn bitbucket_url(workspace: &str, repo: &str, pr: u64) -> (r: String)
    ensures
        r@ == bitbucket_url_text(workspace@, repo@, pr),
{
    let mut out = chars_of("https://api.bitbucket.org/2.0/repositories/");
    append_str(&mut out, workspace);
    append_str(&mut out, "/");
    append_str(&mut out, repo);
    append_str(&mut out, "/pullrequests/");
    push_decimal(&mut out, pr);
    append_str(&mut out, "/comments");
    string_of(&out)
}

// ------------------------------------------------------------------ Jira

/// The comment of a Jira issue comment `c`: none where the text of its
/// `body` is blank; the body is that text after `[Jira <issue>] `, the
/// author `author.displayName`, else `author.emailAddress`, else
/// `author.accountId`; no file or line; the commit is `target`; open.
pub open spec fn jira_comment(c: Json, issue: Seq<char>, target: Seq<char>) -> Option<CommentView> {
    let text = comment_text(json_get(c, "body"@));
    let author = json_get(c, "author"@);
    if trim_white(text).len() == 0 {
        None
    } else {
        Some(
            CommentView {
                commit: target,
                file: None,
                line: None,
                body: "[Jira "@ + issue + "] "@ + text,
                author: or_unknown(
                    json_str(
                        match get_either(author, "displayName"@, "emailAddress"@) {
                            Some(v) => Some(v),
                            None => opt_get(author, "accountId"@),
                        },
                    ),
                ),
                status: NoteStatus::Open,
            },
        )
    }
}

/// The comments of a Jira reply: those of its `comments` array, or `None`
/// where it has none.
pub open spec fn jira_comments_of(resp: Json, issue: Seq<char>, target: Seq<char>) -> Option<Seq<CommentView>> {
    match json_array(json_get(resp, "comments"@)) {
        Some(cs) => Some(kept(cs.map_values(|c: Json| jira_comment(c, issue, target)))),
        None => None,
    }
}

fn jira_item(c: &Json, issue: &str, target: &str) -> (r: Option<ImportedComment>)
    ensures
        match r {
            Some(x) => jira_comment(*c, issue@, target@) == Some(x@),
            None => jira_comment(*c, issue@, target@) is None,
        },
{
    let text = extract_jira_comment_body(get(c, "body"));
    let trimmed = trim(&chars_of(text.as_str()));
    if trimmed.len() == 0 {
        return None;
    }
    let mut body = chars_of("[Jira ");
    append_str(&mut body, issue);
    append_str(&mut body, "] ");
    append_str(&mut body, text.as_str());
    let author = get(c, "author");
    let name = match get_first(author, "displayName", "emailAddress") {
        Some(v) => Some(v),
        None => get_opt(author, "accountId"),
    };
    let author_name = name_or_unknown(as_str(name));
    Some(
        ImportedComment {
            commit: target.to_string(),
            file: None,
            line: None,
            body: string_of(&body),
            author: author_name,
            status: NoteStatus::Open,
        },
    )
}

/// The comments of a Jira reply, or the error where it has no `comments`
/// array.
pub fn jira_comments(resp: &Json, issue: &str, target: &str) -> (r: Result<Vec<ImportedComment>, String>)
    ensures
        match r {
            Ok(v) => jira_comments_of(*resp, issue@, target@) == Some(comments_view(v@)),
            Err(e) => jira_comments_of(*resp, issue@, target@) is None && e@
                == "Jira response missing 'comments' array"@,
        },
{
    let cs = match as_array(get(resp, "comments")) {
        Some(cs) => cs,
        None => {
            return Err("Jira response missing 'comments' array".to_string());
        },
    };
    let mut out: Vec<ImportedComment> = Vec::new();
    let mut i: usize = 0;
    while i < cs.len()
        invariant
            i <= cs@.len(),
            comments_view(out@) == kept(cs@.subrange(0, i as int).map_values(|c: Json| jira_comment(c, issue@, target@))),
        decreases cs.len() - i,
    {
        let ghost m = cs@.subrange(0, i + 1).map_values(|c: Json| jira_comment(c, issue@, target@));
        assert(m.drop_last() =~= cs@.subrange(0, i as int).map_values(|c: Json| jira_comment(c, issue@, target@)));
        let ghost before = comments_view(out@);
        match jira_item(&cs[i], issue, target) {
            Some(x) => {
                out.push(x);
                assert(comments_view(out@) =~= before + seq![x@]);
            },
            None => {
                assert(comments_view(out@) =~= before + Seq::<CommentView>::empty());
            },
        }
        i = i + 1;
    }
    assert(cs@.subrange(0, cs@.len() as int) =~= cs@);
    Ok(out)
}

/// The Jira API URL of the comments of an issue, below the base URL.
pub open spec fn jira_url_text(base: Seq<char>, issue: Seq<char>) -> Seq<char> {
    base + "/rest/api/3/issue/"@ + issue + "/comment"@
}

/// Builds the Jira API URL of the comments of an issue.
pub fn jira_url(base: &str, issue: &str) -> (r: String)
    ensures
        r@ == jira_url_text(base@, issue@),
{
    let mut out = chars_of(base);
    append_str(&mut out, "/rest/api/3/issue/");
    append_str(&mut out, issue);
    append_str(&mut out, "/comment");
    string_of(&out)
}

/// The comments of a GitHub reply (the bytes of a JSON array of review
/// comments), or the error where the reply is not a JSON array.
pub fn github_import(reply: &[u8], target: &str) -> (r: Result<Vec<ImportedComment>, String>)
    ensures
        match json_parsed(reply@) {
            Some(Json::Array(cs)) => r matches Ok(v) && comments_view(v@) == github_comments_of(cs@, target@),
            _ => r matches Err(e) && e@ == "Failed to parse GitHub comments JSON"@,
        },
{
    match parse_json(reply) {
        Some(Json::Array(cs)) => Ok(github_comments(cs.as_slice(), target)),
        _ => Err("Failed to parse GitHub comments JSON".to_string()),
    }
}

/// The comments of a GitLab reply (the bytes of a JSON array of
/// discussions), or the error where the reply is not a JSON array.
pub fn gitlab_import(reply: &[u8], target: &str) -> (r: Result<Vec<ImportedComment>, String>)
    ensures
        match json_parsed(reply@) {
            Some(Json::Array(ds)) => r matches Ok(v) && comments_view(v@) == gitlab_comments_of(ds@, target@),
            _ => r matches Err(e) && e@ == "Failed to parse GitLab discussions JSON"@,
        },
{
    match parse_json(reply) {
        Some(Json::Array(ds)) => Ok(gitlab_comments(ds.as_slice(), target)),
        _ => Err("Failed to parse GitLab discussions JSON".to_string()),
    }
}

/// The comments of a Bitbucket reply: the error where the bytes are not
/// JSON or have no `values` array, else its comments.
pub fn bitbucket_import(reply: &[u8], target: &str) -> (r: Result<Vec<ImportedComment>, String>)
    ensures
        match json_parsed(reply@) {
            Some(resp) => match r {
                Ok(v) => bitbucket_comments_of(resp, target@) == Some(comments_view(v@)),
                Err(e) => bitbucket_comments_of(resp, target@) is None && e@
                    == "Bitbucket response missing 'values' array"@,
            },
            None => r matches Err(e) && e@ == "Failed to parse Bitbucket comments JSON"@,
        },
{
    match parse_json(reply) {
        Some(resp) => bitbucket_comments(&resp, target),
        None => Err("Failed to parse Bitbucket comments JSON".to_string()),
    }
}

/// The comments of a Jira reply: the error where the bytes are not JSON or
/// have no `comments` array, else its comments.
pub fn jira_import(reply: &[u8], issue: &str, target: &str) -> (r: Result<Vec<ImportedComment>, String>)
    ensures
        match json_parsed(reply@) {
            Some(resp) => match r {
                Ok(v) => jira_comments_of(resp, issue@, target@) == Some(comments_view(v@)),
                Err(e) => jira_comments_of(resp, issue@, target@) is None && e@
                    == "Jira response missing 'comments' array"@,
            },
            None => r matches Err(e) && e@ == "Failed to parse Jira comments JSON"@,
        },
{
    match parse_json(reply) {
        Some(resp) => jira_comments(&resp, issue, target),
        None => Err("Failed to parse Jira comments JSON".to_string()),
    }
}

/// A GitLab comment is placed on the position's `new_line` wherever that is
/// a number, whatever `old_line` holds, and on its `new_path` wherever that
/// is a text.
pub proof fn law_gitlab_new_side_first(n: Json, target: Seq<char>, p: Json)
    requires
        gitlab_comment(n, target) is Some,
        json_get(n, "position"@) == Some(p),
    ensures
        json_u64(json_get(p, "new_line"@)) matches Some(k) ==> gitlab_comment(n, target).unwrap().line == Some(
            k as u32,
        ),
        json_str(json_get(p, "new_path"@)) matches Some(f) ==> gitlab_comment(n, target).unwrap().file == Some(f),
        json_str(json_get(p, "head_sha"@)) matches Some(c) ==> gitlab_comment(n, target).unwrap().commit == c,
{
}

/// System notes and notes without a text body are not imported; other
/// GitLab notes keep their body, and are resolved exactly when `resolved`
/// is true.
pub proof fn law_gitlab_note_kept(n: Json, target: Seq<char>)
    ensures
        json_bool(json_get(n, "system"@)) == Some(true) ==> gitlab_comment(n, target) is None,
        json_str(json_get(n, "body"@)) is None ==> gitlab_comment(n, target) is None,
        json_bool(json_get(n, "system"@)) != Some(true) ==> (json_str(json_get(n, "body"@)) matches Some(b) ==> {
            &&& gitlab_comment(n, target) is Some
            &&& gitlab_comment(n, target).unwrap().body == b
            &&& (gitlab_comment(n, target).unwrap().status == NoteStatus::Resolved <==> json_bool(
                json_get(n, "resolved"@),
            ) == Some(true))
        }),
{
}

/// A GitHub review comment with a text body is imported with that body, on
/// its `path` and `line`, on the target commit, open, and by its user's
/// login (`unknown` where there is none); one without a body is not.
pub proof fn law_github_comment_fields(c: Json, target: Seq<char>)
    ensures
        json_str(json_get(c, "body"@)) is None ==> github_comment(c, target) is None,
        json_str(json_get(c, "body"@)) matches Some(b) ==> ({
            let x = github_comment(c, target).unwrap();
            &&& github_comment(c, target) is Some
            &&& x.body == b
            &&& x.commit == target
            &&& x.status == NoteStatus::Open
            &&& x.file == json_str(json_get(c, "path"@))
            &&& (json_u64(json_get(c, "line"@)) matches Some(k) ==> x.line == Some(k as u32))
            &&& (json_u64(json_get(c, "line"@)) is None ==> x.line is None)
            &&& (json_str(opt_get(json_get(c, "user"@), "login"@)) matches Some(l) ==> x.author == l)
            &&& (json_str(opt_get(json_get(c, "user"@), "login"@)) is None ==> x.author == "unknown"@)
        }),
{
}

/// A Bitbucket comment that is not deleted and has a text `content.raw` is
/// imported with that body, on `inline.path`, on the line `inline.to` where
/// that is a number, on the target commit, open; a deleted one is not.
pub proof fn law_bitbucket_comment_fields(c: Json, target: Seq<char>, inline: Json)
    ensures
        json_bool(json_get(c, "deleted"@)) == Some(true) ==> bitbucket_comment(c, target) is None,
        json_bool(json_get(c, "deleted"@)) != Some(true) ==> (json_str(opt_get(json_get(c, "content"@), "raw"@))
            matches Some(b) ==> ({
            let x = bitbucket_comment(c, target).unwrap();
            &&& bitbucket_comment(c, target) is Some
            &&& x.body == b
            &&& x.commit == target
            &&& x.status == NoteStatus::Open
            &&& (json_get(c, "inline"@) == Some(inline) ==> {
                &&& x.file == json_str(json_get(inline, "path"@))
                &&& (json_u64(json_get(inline, "to"@)) matches Some(k) ==> x.line == Some(k as u32))
            })
        })),
{
}

/// A Jira comment whose text is not blank is imported, marked with its
/// issue key, with no file or line, on the target commit, open; a blank one
/// is not.
pub proof fn law_jira_comment_fields(c: Json, issue: Seq<char>, target: Seq<char>)
    ensures
        trim_white(comment_text(json_get(c, "body"@))).len() == 0 <==> jira_comment(c, issue, target) is None,
        jira_comment(c, issue, target) matches Some(x) ==> {
            &&& x.body == "[Jira "@ + issue + "] "@ + comment_text(json_get(c, "body"@))
            &&& x.file is None
            &&& x.line is None
            &&& x.commit == target
            &&& x.status == NoteStatus::Open
        },
{
}

} // verus!
