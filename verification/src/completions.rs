//! Shell completions: which shell the user runs, and where the completion
//! scripts of each shell are installed.

use vstd::prelude::*;
use crate::args::ShellKind;
use crate::select::{lowercase, lowercase_of};
use crate::text::{append_str, chars_of, find_at, first_at, string_of};

verus! {

/// The shell named by the `SHELL` variable: the first of `zsh`, `fish`,
/// `bash`, `elvish` that its lowercased value contains.
pub open spec fn shell_named(value: Option<Seq<char>>) -> Option<ShellKind> {
    match value {
        Some(v) => {
            let l = lowercase_of(v);
            if first_at(l, "zsh"@) is Some {
                Some(ShellKind::Zsh)
            } else if first_at(l, "fish"@) is Some {
                Some(ShellKind::Fish)
            } else if first_at(l, "bash"@) is Some {
                Some(ShellKind::Bash)
            } else if first_at(l, "elvish"@) is Some {
                Some(ShellKind::Elvish)
            } else {
                None
            }
        },
        None => None,
    }
}

/// Detects the user's shell from the value of `SHELL`, where it is set.
pub fn shell_from_env(value: Option<&str>) -> (r: Option<ShellKind>)
    ensures
        r == shell_named(
            match value {
                Some(v) => Some(v@),
                None => None,
            },
        ),
{
    match value {
        Some(v) => {
            let l = chars_of(lowercase(v).as_str());
            if find_at(&l, &chars_of("zsh")).is_some() {
                Some(ShellKind::Zsh)
            } else if find_at(&l, &chars_of("fish")).is_some() {
                Some(ShellKind::Fish)
            } else if find_at(&l, &chars_of("bash")).is_some() {
                Some(ShellKind::Bash)
            } else if find_at(&l, &chars_of("elvish")).is_some() {
                Some(ShellKind::Elvish)
            } else {
                None
            }
        },
        None => None,
    }
}

/// Which command a completion script is for.
#[derive(Debug, Clone, Copy, PartialEq, Eq, Structural)]
pub enum ScriptFor {
    /// `gn` only.
    Gn,
    /// `git-notes` only.
    GitNotes,
    /// Both, one after the other.
    Both,
}

/// A completion script to write: its directory below the home directory,
/// its file name, and the command it completes.
pub struct ScriptTarget {
    pub dir: Vec<String>,
    pub file: String,
    pub program: ScriptFor,
}

/// A script target as a mathematical value.
pub open spec fn target_view(t: ScriptTarget) -> (Seq<Seq<char>>, Seq<char>, ScriptFor) {
    (t.dir.deep_view(), t.file@, t.program)
}

/// Where each shell's completions go: zsh's in `.zsh/completions` (`_gn`,
/// `_git-notes`), bash's in `.bash_completion.d/gn`, fish's in
/// `.config/fish/completions` (`gn.fish`, `git-notes.fish`), PowerShell's
/// in `.git-notes/completions/gn-completions.ps1`, elvish's in
/// `.elvish/lib/gn.elv`.
pub open spec fn shell_targets(shell: ShellKind) -> Seq<(Seq<Seq<char>>, Seq<char>, ScriptFor)> {
    match shell {
        ShellKind::Zsh => seq![
            (seq![".zsh"@, "completions"@], "_gn"@, ScriptFor::Gn),
            (seq![".zsh"@, "completions"@], "_git-notes"@, ScriptFor::GitNotes),
        ],
        ShellKind::Bash => seq![(seq![".bash_completion.d"@], "gn"@, ScriptFor::Both)],
        ShellKind::Fish => seq![
            (seq![".config"@, "fish"@, "completions"@], "gn.fish"@, ScriptFor::Gn),
            (seq![".config"@, "fish"@, "completions"@], "git-notes.fish"@, ScriptFor::GitNotes),
        ],
        ShellKind::PowerShell => seq![(seq![".git-notes"@, "completions"@], "gn-completions.ps1"@, ScriptFor::Both)],
        ShellKind::Elvish => seq![(seq![".elvish"@, "lib"@], "gn.elv"@, ScriptFor::Both)],
    }
}

fn path1(a: &str) -> (r: Vec<String>)
    ensures
        r@.len() == 1,
        r@[0]@ == a@,
        r.deep_view() == seq![a@],
{
    let mut v: Vec<String> = Vec::new();
    v.push(a.to_string());
    assert(v.deep_view() =~= seq![a@]);
    v
}

fn path2(a: &str, b: &str) -> (r: Vec<String>)
    ensures
        r@.len() == 2,
        r@[0]@ == a@,
        r@[1]@ == b@,
        r.deep_view() == seq![a@, b@],
{
    let mut v = path1(a);
    v.push(b.to_string());
    assert(v.deep_view() =~= seq![a@, b@]);
    v
}

fn path3(a: &str, b: &str, c: &str) -> (r: Vec<String>)
    ensures
        r.deep_view() == seq![a@, b@, c@],
{
    let mut v = path2(a, b);
    v.push(c.to_string());
    assert(v.deep_view() =~= seq![a@, b@, c@]);
    v
}

fn target(dir: Vec<String>, file: &str, program: ScriptFor) -> (r: ScriptTarget)
    ensures
        target_view(r) == (dir.deep_view(), file@, program),
{
    ScriptTarget { dir, file: file.to_string(), program }
}

/// The completion scripts to write for a shell.
pub fn completion_targets(shell: ShellKind) -> (r: Vec<ScriptTarget>)
    ensures
        r@.map_values(|t: ScriptTarget| target_view(t)) == shell_targets(shell),
{
    let mut out: Vec<ScriptTarget> = Vec::new();
    match shell {
        ShellKind::Zsh => {
            out.push(target(path2(".zsh", "completions"), "_gn", ScriptFor::Gn));
            out.push(target(path2(".zsh", "completions"), "_git-notes", ScriptFor::GitNotes));
        },
        ShellKind::Bash => {
            out.push(target(path1(".bash_completion.d"), "gn", ScriptFor::Both));
        },
        ShellKind::Fish => {
            out.push(
                target(path3(".config", "fish", "completions"), "gn.fish", ScriptFor::Gn),
            );
            out.push(
                target(
                    path3(".config", "fish", "completions"),
                    "git-notes.fish",
                    ScriptFor::GitNotes,
                ),
            );
        },
        ShellKind::PowerShell => {
            out.push(target(path2(".git-notes", "completions"), "gn-completions.ps1", ScriptFor::Both));
        },
        ShellKind::Elvish => {
            out.push(target(path2(".elvish", "lib"), "gn.elv", ScriptFor::Both));
        },
    }
    assert(out@.map_values(|t: ScriptTarget| target_view(t)) =~= shell_targets(shell));
    out
}

/// The PowerShell profile after it is made to load the completion script:
/// unchanged where it already names `gn-completions.ps1`, else with a line
/// that dot-sources `script_path` appended.
pub open spec fn profile_loading(profile: Seq<char>, script_path: Seq<char>) -> Seq<char> {
    if first_at(profile, "gn-completions.ps1"@) is Some {
        profile
    } else {
        profile + "\n. \""@ + script_path + "\"\n"@
    }
}

/// The new content of a PowerShell profile that loads the completion
/// script, or `None` where the profile loads it already.
pub fn profile_with_completions(profile: &str, script_path: &str) -> (r: Option<String>)
    ensures
        match r {
            Some(t) => first_at(profile@, "gn-completions.ps1"@) is None && t@ == profile_loading(
                profile@,
                script_path@,
            ),
            None => first_at(profile@, "gn-completions.ps1"@) is Some,
        },
{
    let mut v = chars_of(profile);
    if find_at(&v, &chars_of("gn-completions.ps1")).is_some() {
        return None;
    }
    append_str(&mut v, "\n. \"");
    append_str(&mut v, script_path);
    append_str(&mut v, "\"\n");
    Some(string_of(&v))
}

} // verus!
