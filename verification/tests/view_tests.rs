use git_notes::args::ShellKind;
use git_notes::completions::{completion_targets, profile_with_completions, shell_from_env, ScriptFor};
use git_notes::health::{anchor_state, AnchorState, has_notes_fetch, has_origin, hook_script, is_notes_hook, referenced_file, sync_hook_script};
use git_notes::json::{Json, Member};
use git_notes::markdown::{classify_body_line, inline_segments, line_has_note, line_label, BodyLine, Segment};
use git_notes::namespace::Namespace;
use git_notes::note::Note;
use git_notes::picker::{pick_start, pick_step, pick_window, PickStart, PickStep};
use git_notes::summary::{parse_list_line, reply_text, summary_entry, summary_prompt, SummaryEntry};
use git_notes::tui::Key;

fn texts(v: Vec<Segment>) -> Vec<String> {
    v.into_iter()
        .map(|s| match s {
            Segment::Plain(t) => format!("p:{}", t),
            Segment::Code(t) => format!("c:{}", t),
            Segment::Bold(t) => format!("b:{}", t),
        })
        .collect()
}

#[test]
fn inline_markdown_spans() {
    assert_eq!(texts(inline_segments("use `foo` now")), vec!["p:use ", "c:foo", "p: now"]);
    assert_eq!(texts(inline_segments("a **b** c")), vec!["p:a ", "b:b", "p: c"]);
    assert_eq!(texts(inline_segments("**x** `y`")), vec!["p:**x** ", "c:y"]);
    assert_eq!(texts(inline_segments("open `tick")), vec!["p:open ", "p:`tick"]);
    assert_eq!(texts(inline_segments("half **bold")), vec!["p:half ", "p:**bold"]);
    assert_eq!(texts(inline_segments("")), Vec::<String>::new());
    assert_eq!(texts(inline_segments("plain")), vec!["p:plain"]);
}

#[test]
fn body_lines() {
    let kind = |l: &str| match classify_body_line(l) {
        BodyLine::Heading(n, t) => format!("h{}:{}", n, t),
        BodyLine::Bullet(t) => format!("li:{}", t),
        BodyLine::Quote(t) => format!("q:{}", t),
        BodyLine::Fence(t) => format!("f:{}", t),
        BodyLine::Text(t) => format!("t:{}", t),
    };
    assert_eq!(kind("  ### Title "), "h3:Title");
    assert_eq!(kind("## Sub"), "h2:Sub");
    assert_eq!(kind("# Top"), "h1:Top");
    assert_eq!(kind(" - item"), "li:item");
    assert_eq!(kind("* star"), "li:star");
    assert_eq!(kind(">> quoted"), "q:quoted");
    assert_eq!(kind("  ```rust"), "f:  ```rust");
    assert_eq!(kind(" text "), "t: text ");
}

#[test]
fn line_labels_and_coverage() {
    assert_eq!(line_label(Some(4), Some(4)), " :L4");
    assert_eq!(line_label(Some(4), Some(9)), " :L4-9");
    assert_eq!(line_label(Some(4), None), " :L4");
    assert_eq!(line_label(None, Some(4)), "");
    let n = Note::new("c".to_string(), Some("f".to_string()), Some(3), Some(5), "b".to_string(), "a".to_string(), Namespace::Comments);
    let single = Note::new("c".to_string(), Some("f".to_string()), Some(9), None, "b".to_string(), "a".to_string(), Namespace::Comments);
    let notes = vec![n, single];
    assert!(line_has_note(&notes, 3));
    assert!(line_has_note(&notes, 5));
    assert!(!line_has_note(&notes, 6));
    assert!(line_has_note(&notes, 9));
    assert!(!line_has_note(&notes, 10));
}

#[test]
fn picker_moves() {
    assert_eq!(pick_start(0), PickStart::Nothing);
    assert_eq!(pick_start(1), PickStart::Only);
    assert_eq!(pick_start(4), PickStart::Choose(3));
    assert_eq!(pick_step(3, 4, Key::Down), PickStep::Move(3, false));
    assert_eq!(pick_step(3, 4, Key::Up), PickStep::Move(2, true));
    assert_eq!(pick_step(0, 4, Key::Up), PickStep::Move(0, false));
    assert_eq!(pick_step(1, 4, Key::Enter), PickStep::Picked(1));
    assert_eq!(pick_step(1, 4, Key::Char('q')), PickStep::Cancelled);
    assert_eq!(pick_step(1, 4, Key::Esc), PickStep::Cancelled);
    assert_eq!(pick_window(3, 4), (0, 4));
    assert_eq!(pick_window(7, 20), (2, 10));
    assert_eq!(pick_window(19, 20), (14, 20));
}

fn obj(members: Vec<(&str, Json)>) -> Json {
    Json::Object(members.into_iter().map(|(k, v)| Member { key: k.to_string(), value: v }).collect())
}

#[test]
fn summary_entries() {
    assert_eq!(parse_list_line("blob123 commit456"), Some(("blob123".to_string(), "commit456".to_string())));
    assert_eq!(parse_list_line("lonely"), None);
    let doc = obj(vec![
        ("id", Json::Str("abcdef12-3456".to_string())),
        ("body", Json::Str("  fix it \n".to_string())),
        ("status", Json::Str("Open".to_string())),
        ("line_start", Json::Number(Some(7))),
    ]);
    match summary_entry(Some(&doc), "{...}", true).unwrap() {
        SummaryEntry::Note { id, file, line, body, author, status } => {
            assert_eq!(id.as_deref(), Some("abcdef12-3456"));
            assert_eq!(file, "");
            assert_eq!(line, 7);
            assert_eq!(body, "fix it");
            assert_eq!(author, "Unknown");
            assert_eq!(status, "Open");
        }
        SummaryEntry::Raw(_) => panic!("expected a note"),
    }
    let closed = obj(vec![("status", Json::Str("Resolved".to_string()))]);
    assert!(summary_entry(Some(&closed), "{}", true).is_none());
    assert!(summary_entry(Some(&closed), "{}", false).is_some());
    match summary_entry(None, "  first line \nsecond", true).unwrap() {
        SummaryEntry::Raw(t) => assert_eq!(t, "first line"),
        _ => panic!("expected raw text"),
    }
    assert!(summary_entry(None, "  \n ", false).is_none());
}

#[test]
fn summary_reply_and_prompt() {
    let resp = obj(vec![(
        "candidates",
        Json::Array(vec![obj(vec![(
            "content",
            obj(vec![("parts", Json::Array(vec![obj(vec![("text", Json::Str("All good".to_string()))])]))]),
        )])]),
    )]);
    assert_eq!(reply_text(&resp), Ok("All good".to_string()));
    assert_eq!(reply_text(&obj(vec![])), Err("Unexpected Gemini API response format".to_string()));
    let p = summary_prompt("- [x] note\n", 3);
    assert!(p.starts_with("You are a senior engineering lead"));
    assert!(p.contains("- [x] note\n"));
    assert!(p.contains("Total open: 3, breakdown by namespace"));
    assert!(p.ends_with("Use markdown formatting."));
}

#[test]
fn completion_setup() {
    assert!(matches!(shell_from_env(Some("/usr/bin/ZSH")), Some(ShellKind::Zsh)));
    assert!(matches!(shell_from_env(Some("/bin/bash")), Some(ShellKind::Bash)));
    assert!(matches!(shell_from_env(Some("/usr/local/bin/fish")), Some(ShellKind::Fish)));
    assert!(shell_from_env(Some("/bin/sh")).is_none());
    assert!(shell_from_env(None).is_none());
    let zsh = completion_targets(ShellKind::Zsh);
    assert_eq!(zsh.len(), 2);
    assert_eq!(zsh[0].dir, vec![".zsh".to_string(), "completions".to_string()]);
    assert_eq!(zsh[0].file, "_gn");
    assert_eq!(zsh[1].program, ScriptFor::GitNotes);
    let bash = completion_targets(ShellKind::Bash);
    assert_eq!(bash[0].file, "gn");
    assert_eq!(bash[0].program, ScriptFor::Both);
}

#[test]
fn repository_health() {
    assert!(has_origin("upstream\n origin \n"));
    assert!(!has_origin("upstream\noriginal\n"));
    assert!(has_notes_fetch("+refs/heads/*:refs/remotes/origin/*\n+refs/notes/*:refs/notes/*\n"));
    assert!(!has_notes_fetch("+refs/heads/*:refs/remotes/origin/*\n"));
    assert!(is_notes_hook(hook_script(true)));
    assert!(is_notes_hook(sync_hook_script(false)));
    assert!(!is_notes_hook("#!/bin/sh\nmake test\n"));
    assert!(hook_script(false).contains("sync pull --quiet"));
}

#[test]
fn powershell_profile_loads_the_script_once() {
    let updated = profile_with_completions("Set-Alias ll ls\n", "C:/h/.git-notes/completions/gn-completions.ps1");
    assert_eq!(
        updated,
        Some("Set-Alias ll ls\n\n. \"C:/h/.git-notes/completions/gn-completions.ps1\"\n".to_string())
    );
    assert_eq!(profile_with_completions(&updated.unwrap(), "elsewhere"), None);
}

#[test]
fn stored_note_names_its_file() {
    let with = |v: Json| Json::Object(vec![Member { key: "file".to_string(), value: v }]);
    assert_eq!(referenced_file(&with(Json::Str("src/lib.rs".to_string()))), Some("src/lib.rs".to_string()));
    assert_eq!(referenced_file(&with(Json::Str(String::new()))), None);
    assert_eq!(referenced_file(&with(Json::Null)), None);
    assert_eq!(referenced_file(&Json::Array(vec![])), None);
}

#[test]
fn commented_code_moved_or_deleted() {
    let then = "fn a() {}\nfn b() {}\nfn c() {}\n";
    assert_eq!(anchor_state(then, then, 2, 2), Some(AnchorState::Intact));
    let moved = "// header\n\nfn a() {}\nfn b() {}\nfn c() {}\n";
    assert_eq!(anchor_state(then, moved, 2, 3), Some(AnchorState::Moved(4)));
    let gone = "fn a() {}\nfn c() {}\n";
    assert_eq!(anchor_state(then, gone, 2, 2), Some(AnchorState::Deleted));
    assert_eq!(anchor_state(then, gone, 3, 2), None);
    assert_eq!(anchor_state(then, gone, 0, 1), None);
    assert_eq!(anchor_state(then, gone, 3, 4), None);
}
