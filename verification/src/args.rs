//! The options of each command of the command-line tools, as plain values.
//! The command line itself is read by the tools; these are what it yields.

use vstd::prelude::*;
use crate::export::ExportArgs;

verus! {

/// Options of `add`.
pub struct AddArgs {
    /// File to attach the note to.
    pub file: String,
    /// Line range, such as `10` or `10-15`.
    pub line: String,
    /// Note message.
    pub message: String,
    /// Namespace to add the note to.
    pub namespace: String,
    /// Thread parent note id, for replies.
    pub thread: Option<String>,
}

/// Options of `add-bulk`.
pub struct AddBulkArgs {
    /// JSON text, a file path, or `-` for standard input.
    pub json: Option<String>,
}

/// Options of `blame`.
pub struct BlameArgs {
    /// File to blame.
    pub file: String,
    /// Namespace to read notes from.
    pub namespace: String,
}

/// Options of `diff`.
pub struct DiffArgs {
    /// Target commit, branch or file to diff.
    pub target: Option<String>,
    /// Namespace to read notes from.
    pub namespace: String,
}

/// What `hook` does.
pub enum HookAction {
    /// Install the auto-sync hooks.
    Install,
    /// Remove the auto-sync hooks.
    Uninstall,
}

/// Options of `hook`.
pub struct HookArgs {
    pub action: HookAction,
}

/// Options of `import-pr`.
pub struct ImportPrArgs {
    /// Pull request number.
    pub pr: u64,
    /// GitHub token.
    pub token: Option<String>,
    /// Namespace to store imported comments in.
    pub namespace: String,
}

/// Options of `import gitlab`.
pub struct GitlabImportArgs {
    /// Merge request number.
    pub mr: u64,
    /// Project id or path.
    pub project_id: Option<String>,
    /// Access token.
    pub token: Option<String>,
    /// GitLab host.
    pub host: Option<String>,
    /// Namespace to store imported comments in.
    pub namespace: Option<String>,
}

/// Options of `import bitbucket`.
pub struct BitbucketImportArgs {
    /// Pull request number.
    pub pr: u64,
    /// Repository slug.
    pub repo: Option<String>,
    /// Workspace.
    pub workspace: Option<String>,
    /// App password or access token.
    pub token: Option<String>,
    /// Namespace to store imported comments in.
    pub namespace: Option<String>,
}

/// Options of `import jira`.
pub struct JiraImportArgs {
    /// Issue key, such as `PROJ-123`.
    pub issue: String,
    /// Jira host.
    pub host: String,
    /// API token.
    pub token: Option<String>,
    /// Namespace to store imported comments in.
    pub namespace: Option<String>,
}

/// The sources `import` reads from.
pub enum ImportCommands {
    Pr(ImportPrArgs),
    Gitlab(GitlabImportArgs),
    Bitbucket(BitbucketImportArgs),
    Jira(JiraImportArgs),
}

/// Options of `import`.
pub struct ImportArgs {
    pub command: ImportCommands,
}

/// Options of `list`.
pub struct ListArgs {
    /// Keep notes on this file.
    pub file: Option<String>,
    /// Keep notes on this commit.
    pub commit: Option<String>,
    /// Keep notes with this status.
    pub status: Option<String>,
    /// Keep notes whose author contains this text.
    pub author: Option<String>,
    /// Print JSON.
    pub json: bool,
    /// Namespace to list.
    pub namespace: Option<String>,
}

/// Options of `rebase-heal`.
pub struct RebaseHealArgs {
    /// Namespace to check, or all built-in ones.
    pub namespace: Option<String>,
    /// Report without changing anything.
    pub dry_run: bool,
    /// Report each matching step.
    pub verbose: bool,
}

/// Options of `reply`.
pub struct ReplyArgs {
    /// Note id, index, `latest` or `^`.
    pub id: String,
    /// Reply message.
    pub message: String,
}

/// Options of `resolve`.
pub struct ResolveArgs {
    /// Note id, index, `latest` or `^`; none to pick interactively.
    pub id: Option<String>,
    /// New status: approved, rejected, resolved or open.
    pub status: String,
}

/// Options of `shortcuts`.
pub struct ShortcutsArgs {
    /// Show all shortcuts.
    pub list: bool,
    /// Bind a shortcut, as `KEY=COMMAND`.
    pub set: Option<String>,
    /// Reset to the defaults.
    pub reset: bool,
}

/// Options of `show`.
pub struct ShowArgs {
    /// Note id prefix.
    pub id: String,
    /// Show the whole thread.
    pub thread: bool,
    /// Print JSON.
    pub json: bool,
}

/// Options of `summarize`.
pub struct SummarizeArgs {
    /// Namespace to summarize, or `all`.
    pub namespace: String,
    /// API key.
    pub api_key: Option<String>,
    /// Only open notes.
    pub open_only: bool,
    /// Output format: text or markdown.
    pub format: String,
}

/// What `sync bundle` does.
pub enum BundleCommand {
    /// Write all notes refs into a bundle file at `output`.
    Export { output: String },
    /// Fetch and merge notes from the bundle file at `input`.
    Import { input: String },
}

/// Options of `sync bundle`.
pub struct BundleArgs {
    pub command: BundleCommand,
}

/// What `sync p2p` does.
pub enum P2pCommand {
    /// Serve notes on the local network on `port`.
    Serve { port: u16 },
    /// Pull and merge notes from `peer`.
    Connect { peer: String },
}

/// Options of `sync p2p`.
pub struct P2pArgs {
    pub command: Option<P2pCommand>,
    /// Port to listen on.
    pub port: u16,
}

/// What `sync` does.
pub enum SyncAction {
    Push,
    Pull,
    Auto,
    Bundle(BundleArgs),
    P2p(P2pArgs),
}

/// Options of `sync`.
pub struct SyncArgs {
    pub action: Option<SyncAction>,
    /// Serve over the local network.
    pub p2p: bool,
    /// Remote to push to and pull from.
    pub remote: String,
}

/// Options of `verify`.
pub struct VerifyArgs {
    /// Note id or index to verify.
    pub note_id: Option<String>,
    /// Verify all notes.
    pub all: bool,
    /// Namespace to read.
    pub namespace: Option<String>,
}

/// The shells that completions are written for.
#[derive(Debug, Clone, Copy, PartialEq, Eq, Structural)]
pub enum ShellKind {
    Bash,
    Elvish,
    Fish,
    PowerShell,
    Zsh,
}

/// Options of `completions`.
pub struct CompletionsArgs {
    pub shell: Option<ShellKind>,
    /// Install into the shell's configuration.
    pub install: bool,
}

/// The commands of the tool.
pub enum Commands {
    Add(AddArgs),
    Reply(ReplyArgs),
    List(ListArgs),
    Show(ShowArgs),
    Sync(SyncArgs),
    Resolve(ResolveArgs),
    Export(ExportArgs),
    Doctor,
    Blame(BlameArgs),
    ImportPr(ImportPrArgs),
    Summarize(SummarizeArgs),
    Init,
    Hook(HookArgs),
    Diff(DiffArgs),
    Shortcuts(ShortcutsArgs),
    Completions(CompletionsArgs),
}

/// A parsed command line.
pub struct Cli {
    pub command: Commands,
}

} // verus!
