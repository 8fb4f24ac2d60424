//! The shortcuts cheat sheet: the command abbreviations, the keys of the
//! terminal interface, and the user's own bindings, each sorted by key.

use vstd::prelude::*;
use crate::order::strictly_sorted;
use crate::textmap::{keys_distinct, keys_of, upsert_sorted, value_at};
use crate::text::{chars_of, find_at, first_at, before_char, after_char, slice_chars, string_of, trim, trim_white};

verus! {

/// The shortcuts, each list sorted strictly by key.
pub struct ShortcutConfig {
    pub cli_aliases: Vec<(String, String)>,
    pub tui_keybindings: Vec<(String, String)>,
    pub custom_user_shortcuts: Vec<(String, String)>,
}

/// The description of each command abbreviation in the default cheat sheet.
pub open spec fn default_cli_alias(k: Seq<char>) -> Option<Seq<char>> {
    if k == "gn i"@ {
        Some("1-second setup: configure fetch refspec & auto-sync hooks [alias: init]"@)
    } else if k == "gn doc"@ {
        Some("Check repo health, refspecs, and stale notes [alias: doctor]"@)
    } else if k == "gn sum"@ {
        Some("AI summary of open discussion threads via Gemini [alias: summarize]"@)
    } else if k == "gn push / gn pull"@ {
        Some("Sync notes bidirectionally with remote refs/notes/* [alias: sync]"@)
    } else if k == "gn b"@ {
        Some("View git blame with inline notes annotations [alias: blame]"@)
    } else if k == "gn d"@ {
        Some("View git diff with inline notes attached to hunks [alias: diff]"@)
    } else if k == "gn ok / gn close"@ {
        Some("Resolve or approve a note by index # or ID [alias: resolve]"@)
    } else if k == "gn s"@ {
        Some("Interactive arrow-key note thread picker [alias: show]"@)
    } else if k == "gn l / gn ls"@ {
        Some("List notes with numbered quick-indexes [alias: list]"@)
    } else if k == "gn r"@ {
        Some("Reply to an existing note thread by ID or number [alias: reply]"@)
    } else if k == "gn a"@ {
        Some("Add a new note to file and line range [alias: add]"@)
    } else {
        None
    }
}

/// The action of each key of the terminal interface in the default cheat sheet.
pub open spec fn default_tui_binding(k: Seq<char>) -> Option<Seq<char>> {
    if k == "q"@ {
        Some("Quit git-notes TUI"@)
    } else if k == "a / ok"@ {
        Some("Mark highlighted note as Approved / Resolved"@)
    } else if k == "r"@ {
        Some("Open quick reply bar for highlighted thread"@)
    } else if k == "Esc / ←"@ {
        Some("Navigate back to previous pane"@)
    } else if k == "Enter / →"@ {
        Some("Expand file / focus diff & note thread panel"@)
    } else if k == "↑ / ↓ or k / j"@ {
        Some("Navigate files and notes list"@)
    } else {
        None
    }
}

impl ShortcutConfig {
    /// Each list is sorted strictly by key.
    pub open spec fn wf(&self) -> bool {
        &&& strictly_sorted(keys_of(self.cli_aliases@))
        &&& strictly_sorted(keys_of(self.tui_keybindings@))
        &&& strictly_sorted(keys_of(self.custom_user_shortcuts@))
    }

    /// Binds `key` to `command` among the user's shortcuts, replacing an
    /// earlier binding of the key.
    pub fn bind(&mut self, key: String, command: String)
        requires
            old(self).wf(),
        ensures
            final(self).wf(),
            value_at(final(self).custom_user_shortcuts@, key@) == Some(command),
            forall|x: Seq<char>|
                x != key@ ==> #[trigger] value_at(final(self).custom_user_shortcuts@, x) == value_at(
                    old(self).custom_user_shortcuts@,
                    x,
                ),
            final(self).cli_aliases@ == old(self).cli_aliases@,
            final(self).tui_keybindings@ == old(self).tui_keybindings@,
    {
        upsert_sorted(&mut self.custom_user_shortcuts, key, command);
    }
}

/// The views of the values of a list of pairs.
pub open spec fn text_value(v: Option<String>) -> Option<Seq<char>> {
    match v {
        Some(s) => Some(s@),
        None => None,
    }
}

impl Default for ShortcutConfig {
    fn default() -> (r: Self)
        ensures
            r.wf(),
            forall|k: Seq<char>| #[trigger] text_value(value_at(r.cli_aliases@, k)) == default_cli_alias(k),
            forall|k: Seq<char>| #[trigger] text_value(value_at(r.tui_keybindings@, k)) == default_tui_binding(k),
            r.custom_user_shortcuts@.len() == 0,
    {
        let mut cli: Vec<(String, String)> = Vec::new();
        assert(keys_of(cli@) =~= Seq::<Seq<char>>::empty());
        upsert_sorted(&mut cli, "gn a".to_string(), "Add a new note to file and line range [alias: add]".to_string());
        upsert_sorted(&mut cli, "gn r".to_string(), "Reply to an existing note thread by ID or number [alias: reply]".to_string());
        upsert_sorted(&mut cli, "gn l / gn ls".to_string(), "List notes with numbered quick-indexes [alias: list]".to_string());
        upsert_sorted(&mut cli, "gn s".to_string(), "Interactive arrow-key note thread picker [alias: show]".to_string());
        upsert_sorted(&mut cli, "gn ok / gn close".to_string(), "Resolve or approve a note by index # or ID [alias: resolve]".to_string());
        upsert_sorted(&mut cli, "gn d".to_string(), "View git diff with inline notes attached to hunks [alias: diff]".to_string());
        upsert_sorted(&mut cli, "gn b".to_string(), "View git blame with inline notes annotations [alias: blame]".to_string());
        upsert_sorted(&mut cli, "gn push / gn pull".to_string(), "Sync notes bidirectionally with remote refs/notes/* [alias: sync]".to_string());
        upsert_sorted(&mut cli, "gn sum".to_string(), "AI summary of open discussion threads via Gemini [alias: summarize]".to_string());
        upsert_sorted(&mut cli, "gn doc".to_string(), "Check repo health, refspecs, and stale notes [alias: doctor]".to_string());
        upsert_sorted(&mut cli, "gn i".to_string(), "1-second setup: configure fetch refspec & auto-sync hooks [alias: init]".to_string());
        assert forall|k: Seq<char>| #[trigger] text_value(value_at(cli@, k)) == default_cli_alias(k) by {
        }
        let mut tui: Vec<(String, String)> = Vec::new();
        assert(keys_of(tui@) =~= Seq::<Seq<char>>::empty());
        upsert_sorted(&mut tui, "↑ / ↓ or k / j".to_string(), "Navigate files and notes list".to_string());
        upsert_sorted(&mut tui, "Enter / →".to_string(), "Expand file / focus diff & note thread panel".to_string());
        upsert_sorted(&mut tui, "Esc / ←".to_string(), "Navigate back to previous pane".to_string());
        upsert_sorted(&mut tui, "r".to_string(), "Open quick reply bar for highlighted thread".to_string());
        upsert_sorted(&mut tui, "a / ok".to_string(), "Mark highlighted note as Approved / Resolved".to_string());
        upsert_sorted(&mut tui, "q".to_string(), "Quit git-notes TUI".to_string());
        assert forall|k: Seq<char>| #[trigger] text_value(value_at(tui@, k)) == default_tui_binding(k) by {
        }
        let custom: Vec<(String, String)> = Vec::new();
        assert(keys_of(custom@) =~= Seq::<Seq<char>>::empty());
        ShortcutConfig { cli_aliases: cli, tui_keybindings: tui, custom_user_shortcuts: custom }
    }
}

/// A binding typed as `KEY=COMMAND`: the texts on either side of the first
/// `=`, trimmed; none without `=`.
pub open spec fn binding_of(s: Seq<char>) -> Option<(Seq<char>, Seq<char>)> {
    if first_at(s, seq!['=']) is Some {
        Some((trim_white(before_char(s, '=')), trim_white(after_char(s, '='))))
    } else {
        None
    }
}

/// Reads a binding typed as `KEY=COMMAND`.
pub fn parse_binding(s: &str) -> (r: Option<(String, String)>)
    ensures
        match r {
            Some((k, c)) => binding_of(s@) == Some((k@, c@)),
            None => binding_of(s@) is None,
        },
{
    let cs = chars_of(s);
    let eq = vec!['='];
    assert(eq@ =~= seq!['=']);
    match find_at(&cs, &eq) {
        Some(i) => {
            assert(i + 1 <= cs@.len());
            assert(i < cs.len());
            let k = trim(&slice_chars(&cs, 0, i));
            let c = trim(&slice_chars(&cs, i + 1, cs.len()));
            Some((string_of(&k), string_of(&c)))
        },
        None => None,
    }
}

} // verus!
