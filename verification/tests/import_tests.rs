use git_notes::adf::{extract_adf_text, extract_jira_comment_body};
use git_notes::import::{
    bitbucket_comments, bitbucket_url, github_comments, github_url, gitlab_comments, gitlab_url, imported_note,
    jira_comments, jira_url, ImportedComment,
};
use git_notes::json::{Json, Member};
use git_notes::namespace::Namespace;
use git_notes::note::NoteStatus;
use git_notes::remote::{
    auth_header, base64_encode, jira_auth_header, jira_host_url, normalize_host, parse_bitbucket_workspace_repo,
    parse_github_owner_repo, parse_gitlab_project, urlencoding,
};

fn s(t: &str) -> Json {
    Json::Str(t.to_string())
}

fn obj(members: Vec<(&str, Json)>) -> Json {
    Json::Object(members.into_iter().map(|(k, v)| Member { key: k.to_string(), value: v }).collect())
}

#[test]
fn test_base64_encode() {
    assert_eq!(base64_encode(b"hello"), "aGVsbG8=");
    assert_eq!(base64_encode(b"user:pass"), "dXNlcjpwYXNz");
}

#[test]
fn base64_of_short_inputs() {
    assert_eq!(base64_encode(b""), "");
    assert_eq!(base64_encode(b"f"), "Zg==");
    assert_eq!(base64_encode(b"fo"), "Zm8=");
    assert_eq!(base64_encode(b"foo"), "Zm9v");
    assert_eq!(base64_encode(&[0xff, 0xfe, 0xfd]), "//79");
}

#[test]
fn test_parse_gitlab_project() {
    assert_eq!(
        parse_gitlab_project("git@gitlab.com:group/subgroup/repo.git", "gitlab.com"),
        Some("group/subgroup/repo".to_string())
    );
    assert_eq!(
        parse_gitlab_project("https://gitlab.com/owner/project.git", "gitlab.com"),
        Some("owner/project".to_string())
    );
    assert_eq!(
        parse_gitlab_project("https://gitlab.example.org/myorg/myproject", "gitlab.example.org"),
        Some("myorg/myproject".to_string())
    );
}

#[test]
fn gitlab_project_of_bare_host_is_none() {
    assert_eq!(parse_gitlab_project("https://gitlab.com/", "gitlab.com"), None);
}

#[test]
fn test_parse_bitbucket_workspace_repo() {
    assert_eq!(
        parse_bitbucket_workspace_repo("git@bitbucket.org:myws/myrepo.git"),
        Some(("myws".to_string(), "myrepo".to_string()))
    );
    assert_eq!(
        parse_bitbucket_workspace_repo("https://bitbucket.org/team/project"),
        Some(("team".to_string(), "project".to_string()))
    );
}

#[test]
fn bitbucket_remote_without_slash_is_none() {
    assert_eq!(parse_bitbucket_workspace_repo("https://bitbucket.org/lonely"), None);
}

#[test]
fn github_owner_and_repo() {
    assert_eq!(
        parse_github_owner_repo("git@github.com:octo/cat.git"),
        Some(("octo".to_string(), "cat".to_string()))
    );
    assert_eq!(
        parse_github_owner_repo("https://github.com/octo/cat/extra"),
        Some(("octo".to_string(), "cat".to_string()))
    );
    assert_eq!(parse_github_owner_repo("nothing"), None);
}

#[test]
fn test_urlencoding() {
    assert_eq!(urlencoding("group/subgroup/repo"), "group%2Fsubgroup%2Frepo");
    assert_eq!(urlencoding("12345"), "12345");
}

#[test]
fn urlencoding_keeps_unreserved_and_encodes_utf8() {
    assert_eq!(urlencoding("a-b_c.d~e"), "a-b_c.d~e");
    assert_eq!(urlencoding("a b"), "a%20b");
    assert_eq!(urlencoding("é"), "%C3%A9");
}

#[test]
fn hosts_and_headers() {
    assert_eq!(normalize_host("https://gitlab.example.org//"), "gitlab.example.org");
    assert_eq!(normalize_host("gitlab.com"), "gitlab.com");
    assert_eq!(jira_host_url("acme.atlassian.net/"), "https://acme.atlassian.net");
    assert_eq!(jira_host_url("http://jira.local"), "http://jira.local");
    assert_eq!(auth_header("user:pass"), "Basic dXNlcjpwYXNz");
    assert_eq!(auth_header("tok"), "Bearer tok");
    assert_eq!(jira_auth_header("tok", Some("me@x.org")), format!("Basic {}", base64_encode(b"me@x.org:tok")));
    assert_eq!(jira_auth_header("tok", None), "Bearer tok");
    assert_eq!(jira_auth_header("u:p", Some("me@x.org")), format!("Basic {}", base64_encode(b"u:p")));
}

#[test]
fn test_extract_jira_adf() {
    let adf = obj(vec![
        ("type", s("doc")),
        (
            "content",
            Json::Array(vec![obj(vec![
                ("type", s("paragraph")),
                (
                    "content",
                    Json::Array(vec![
                        obj(vec![("type", s("text")), ("text", s("This is a Jira "))]),
                        obj(vec![("type", s("text")), ("text", s("comment."))]),
                    ]),
                ),
            ])]),
        ),
    ]);
    let body = extract_jira_comment_body(Some(&adf));
    assert!(body.contains("This is a Jira comment."));
}

#[test]
fn adf_paragraphs_end_with_line_feeds() {
    let para = |t: &str| {
        obj(vec![("type", s("paragraph")), ("content", Json::Array(vec![obj(vec![("text", s(t))])]))])
    };
    let doc = obj(vec![("type", s("doc")), ("content", Json::Array(vec![para("one"), para("two")]))]);
    assert_eq!(extract_jira_comment_body(Some(&doc)), "one\ntwo\n");
    assert_eq!(extract_jira_comment_body(Some(&s("plain"))), "plain");
    assert_eq!(extract_jira_comment_body(None), "");
    let mut acc = String::from(">");
    extract_adf_text(&para("x"), &mut acc);
    assert_eq!(acc, ">x");
}

#[test]
fn github_comments_are_read() {
    let cs = vec![
        obj(vec![
            ("body", s("nit")),
            ("path", s("src/a.rs")),
            ("line", Json::Number(Some(12))),
            ("user", obj(vec![("login", s("octo"))])),
        ]),
        obj(vec![("path", s("src/b.rs"))]),
        obj(vec![("body", s("general"))]),
    ];
    let out = github_comments(&cs, "abc");
    assert_eq!(out.len(), 2);
    assert_eq!(out[0].body, "nit");
    assert_eq!(out[0].file, Some("src/a.rs".to_string()));
    assert_eq!(out[0].line, Some(12));
    assert_eq!(out[0].author, "octo");
    assert_eq!(out[0].commit, "abc");
    assert_eq!(out[1].author, "unknown");
    assert_eq!(out[1].file, None);
    assert_eq!(out[1].status, NoteStatus::Open);
}

#[test]
fn gitlab_discussions_are_read() {
    let ds = vec![
        obj(vec![(
            "notes",
            Json::Array(vec![
                obj(vec![("system", Json::Bool(true)), ("body", s("changed status"))]),
                obj(vec![
                    ("body", s("please fix")),
                    ("resolved", Json::Bool(true)),
                    (
                        "position",
                        obj(vec![
                            ("new_path", Json::Null),
                            ("old_path", s("old.rs")),
                            ("old_line", Json::Number(Some(4))),
                            ("head_sha", s("feed")),
                        ]),
                    ),
                    ("author", obj(vec![("username", s("dev"))])),
                ]),
            ]),
        )]),
        obj(vec![("individual_note", Json::Bool(true))]),
        obj(vec![("notes", Json::Array(vec![obj(vec![("body", s("later"))])]))]),
    ];
    let out = gitlab_comments(&ds, "head");
    assert_eq!(out.len(), 2);
    assert_eq!(out[0].body, "please fix");
    // a present `new_path` that is not a string hides `old_path`
    assert_eq!(out[0].file, None);
    assert_eq!(out[0].line, Some(4));
    assert_eq!(out[0].commit, "feed");
    assert_eq!(out[0].author, "dev");
    assert_eq!(out[0].status, NoteStatus::Resolved);
    assert_eq!(out[1].commit, "head");
    assert_eq!(out[1].status, NoteStatus::Open);
    assert_eq!(out[1].author, "unknown");
}

#[test]
fn bitbucket_reply_is_read() {
    let resp = obj(vec![(
        "values",
        Json::Array(vec![
            obj(vec![("deleted", Json::Bool(true)), ("content", obj(vec![("raw", s("gone"))]))]),
            obj(vec![
                ("content", obj(vec![("raw", s("looks good"))])),
                ("inline", obj(vec![("path", s("x.py")), ("from", Json::Number(Some(8)))])),
                ("user", obj(vec![("nickname", s("nick")), ("account_id", s("acc"))])),
            ]),
        ]),
    )]);
    let out = bitbucket_comments(&resp, "c0ffee").unwrap();
    assert_eq!(out.len(), 1);
    assert_eq!(out[0].body, "looks good");
    assert_eq!(out[0].file, Some("x.py".to_string()));
    assert_eq!(out[0].line, Some(8));
    assert_eq!(out[0].author, "nick");
    let bad = obj(vec![("size", Json::Number(Some(0)))]);
    assert_eq!(bitbucket_comments(&bad, "c").err(), Some("Bitbucket response missing 'values' array".to_string()));
}

#[test]
fn jira_reply_is_read() {
    let resp = obj(vec![(
        "comments",
        Json::Array(vec![
            obj(vec![("body", s("   ")), ("author", obj(vec![("displayName", s("Ann"))]))]),
            obj(vec![("body", s("Ship it")), ("author", obj(vec![("emailAddress", s("b@x.org"))]))]),
        ]),
    )]);
    let out = jira_comments(&resp, "PROJ-1", "abc").unwrap();
    assert_eq!(out.len(), 1);
    assert_eq!(out[0].body, "[Jira PROJ-1] Ship it");
    assert_eq!(out[0].author, "b@x.org");
    assert_eq!(out[0].file, None);
    assert_eq!(out[0].line, None);
    assert!(jira_comments(&obj(vec![]), "P", "c").is_err());
}

#[test]
fn service_urls() {
    assert_eq!(
        gitlab_url("gitlab.com", "group/repo", 7),
        "https://gitlab.com/api/v4/projects/group%2Frepo/merge_requests/7/discussions"
    );
    assert_eq!(
        bitbucket_url("ws", "repo", 12),
        "https://api.bitbucket.org/2.0/repositories/ws/repo/pullrequests/12/comments"
    );
    assert_eq!(github_url("octo", "cat", 42), "https://api.github.com/repos/octo/cat/pulls/42/comments");
    assert_eq!(jira_url("https://acme.atlassian.net", "PROJ-9"), "https://acme.atlassian.net/rest/api/3/issue/PROJ-9/comment");
}

#[test]
fn imported_comment_becomes_note() {
    let c = ImportedComment {
        commit: "abc".to_string(),
        file: Some("f.rs".to_string()),
        line: Some(3),
        body: "b".to_string(),
        author: "a".to_string(),
        status: NoteStatus::Resolved,
    };
    let n = imported_note(&c, &Namespace::Review);
    assert_eq!(n.commit, "abc");
    assert_eq!(n.line_start, Some(3));
    assert_eq!(n.line_end, Some(3));
    assert_eq!(n.status, NoteStatus::Resolved);
    assert_eq!(n.namespace, Namespace::Review);
    assert_eq!(n.thread_id, None);
}
