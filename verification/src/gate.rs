//! The review quality gate: whether the notes on a commit and its recent
//! ancestors allow it to pass.

use vstd::prelude::*;
use crate::ids::{id_text, id_hyphenated_text};
use crate::note::{Note, NoteStatus, NoteView, notes_view};
use crate::text::{append_str, chars_of, clone_opt_string, decimal, push_decimal, string_of};

verus! {

/// Options of the quality gate.
pub struct CheckArgs {
    /// Require at least this many approved notes.
    pub min_approvals: usize,
    /// Fail if any considered note is still open.
    pub no_unresolved: bool,
    /// Check one namespace, or all built-in ones.
    pub namespace: Option<String>,
    /// The commit to check, `HEAD` by default.
    pub commit: Option<String>,
    /// Report as JSON.
    pub json: bool,
}

/// A note that keeps the quality gate from passing.
pub struct BlockingNoteInfo {
    pub id: String,
    pub file: Option<String>,
    pub line_start: Option<u32>,
    pub author: String,
    pub status: String,
    pub body: String,
    pub reason: String,
}

/// The outcome of the quality gate.
pub struct CheckSummary {
    pub commit: String,
    pub passed: bool,
    pub total_notes: usize,
    pub open_count: usize,
    pub approved_count: usize,
    pub rejected_count: usize,
    pub resolved_count: usize,
    pub min_approvals: usize,
    pub no_unresolved: bool,
    pub blocking_notes: Vec<BlockingNoteInfo>,
    pub failure_reasons: Vec<String>,
}

/// A blocking note as a mathematical value.
pub struct BlockingView {
    pub id: Seq<char>,
    pub file: Option<Seq<char>>,
    pub line_start: Option<u32>,
    pub author: Seq<char>,
    pub status: Seq<char>,
    pub body: Seq<char>,
    pub reason: Seq<char>,
}

impl View for BlockingNoteInfo {
    type V = BlockingView;

    open spec fn view(&self) -> BlockingView {
        BlockingView {
            id: self.id@,
            file: self.file.deep_view(),
            line_start: self.line_start,
            author: self.author@,
            status: self.status@,
            body: self.body@,
            reason: self.reason@,
        }
    }
}

/// The views of a list of blocking notes.
pub open spec fn infos_view(v: Seq<BlockingNoteInfo>) -> Seq<BlockingView> {
    v.map_values(|b: BlockingNoteInfo| b@)
}

/// A note is considered by the quality gate when it is anchored to the target
/// commit or to one of the listed ancestors.
pub open spec fn considered(n: NoteView, target: Seq<char>, ancestors: Seq<Seq<char>>) -> bool {
    n.commit == target || ancestors.contains(n.commit)
}

/// The notes of `s` that the quality gate considers and whose status is `st`, in order.
pub open spec fn gate_notes(
    s: Seq<NoteView>,
    target: Seq<char>,
    ancestors: Seq<Seq<char>>,
    st: Option<NoteStatus>,
) -> Seq<NoteView>
    decreases s.len(),
{
    if s.len() == 0 {
        Seq::empty()
    } else {
        let rest = gate_notes(s.drop_last(), target, ancestors, st);
        let n = s.last();
        if considered(n, target, ancestors) && (st matches Some(x) ==> n.status == x) {
            rest.push(n)
        } else {
            rest
        }
    }
}

/// The report entry for a blocking note.
pub open spec fn blocking_view(n: NoteView, status: Seq<char>, reason: Seq<char>) -> BlockingView {
    BlockingView {
        id: id_hyphenated_text(n.id),
        file: n.file,
        line_start: n.line_start,
        author: n.author,
        status,
        body: n.body,
        reason,
    }
}

/// The report entries for a list of blocking notes.
pub open spec fn blocking_views(s: Seq<NoteView>, status: Seq<char>, reason: Seq<char>) -> Seq<BlockingView> {
    s.map_values(|n: NoteView| blocking_view(n, status, reason))
}

/// The message for rejected notes.
pub open spec fn rejected_reason(count: nat) -> Seq<char> {
    "Found "@ + decimal(count) + " rejected note(s) requiring changes"@
}

/// The message for open notes under `--no-unresolved`.
pub open spec fn unresolved_reason(count: nat) -> Seq<char> {
    "--no-unresolved specified and "@ + decimal(count) + " unresolved open note(s) remain"@
}

/// The message for too few approvals.
pub open spec fn approvals_reason(required: nat, found: nat) -> Seq<char> {
    "Approval threshold not met: required "@ + decimal(required) + " approval(s), but found "@
        + decimal(found)
}

/// The failure reasons, in the order the quality gate reports them.
pub open spec fn gate_reasons(rejected: nat, open: nat, approved: nat, min: nat, no_unresolved: bool) -> Seq<Seq<char>> {
    (if rejected > 0 { seq![rejected_reason(rejected)] } else { Seq::empty() })
        + (if no_unresolved && open > 0 { seq![unresolved_reason(open)] } else { Seq::empty() })
        + (if approved < min { seq![approvals_reason(min, approved)] } else { Seq::empty() })
}

/// The blocking notes the quality gate reports: the rejected ones, then, under
/// `--no-unresolved`, the open ones.
pub open spec fn gate_blocking(
    s: Seq<NoteView>,
    target: Seq<char>,
    ancestors: Seq<Seq<char>>,
    no_unresolved: bool,
) -> Seq<BlockingView> {
    blocking_views(gate_notes(s, target, ancestors, Some(NoteStatus::Rejected)), "Rejected"@, "Note is marked as Rejected"@)
        + if no_unresolved {
        blocking_views(gate_notes(s, target, ancestors, Some(NoteStatus::Open)), "Open"@, "Unresolved note under --no-unresolved rule"@)
    } else {
        Seq::empty()
    }
}

proof fn lemma_gate_notes_len(s: Seq<NoteView>, target: Seq<char>, ancestors: Seq<Seq<char>>)
    ensures
        gate_notes(s, target, ancestors, None).len() == gate_notes(s, target, ancestors, Some(NoteStatus::Open)).len()
            + gate_notes(s, target, ancestors, Some(NoteStatus::Approved)).len()
            + gate_notes(s, target, ancestors, Some(NoteStatus::Rejected)).len()
            + gate_notes(s, target, ancestors, Some(NoteStatus::Resolved)).len(),
    decreases s.len(),
{
    if s.len() > 0 {
        lemma_gate_notes_len(s.drop_last(), target, ancestors);
    }
}

/// Whether `ancestors` holds `commit`.
fn contains_commit(ancestors: &[String], commit: &String) -> (r: bool)
    ensures
        r == ancestors.deep_view().contains(commit@),
{
    let mut i: usize = 0;
    while i < ancestors.len()
        invariant
            i <= ancestors@.len(),
            forall|j: int| 0 <= j < i ==> ancestors@[j]@ != commit@,
        decreases ancestors.len() - i,
    {
        if String::eq(&ancestors[i], commit) {
            assert(ancestors.deep_view()[i as int] == commit@);
            return true;
        }
        i = i + 1;
    }
    assert forall|k: int| 0 <= k < ancestors.deep_view().len() implies ancestors.deep_view()[k] != commit@ by {
        assert(ancestors.deep_view()[k] == ancestors@[k]@);
    }
    false
}

fn blocking_entry(n: &Note, status: &str, reason: &str) -> (r: BlockingNoteInfo)
    ensures
        r@ == blocking_view(n@, status@, reason@),
{
    BlockingNoteInfo {
        id: id_text(n.id),
        file: clone_opt_string(&n.file),
        line_start: n.line_start,
        author: n.author.clone(),
        status: status.to_owned(),
        body: n.body.clone(),
        reason: reason.to_owned(),
    }
}

/// `r` is the quality gate's summary of `all_notes` for `target` and `ancestors`
/// under `args`: the counts of the notes considered, by status, the
/// failure reasons and blocking notes in the order reported, and whether
/// it passed.
pub open spec fn summarizes(
    r: CheckSummary,
    all_notes: Seq<Note>,
    target: Seq<char>,
    ancestors: Seq<Seq<char>>,
    args: CheckArgs,
) -> bool {
    let s = notes_view(all_notes);
    let t = target;
    let a = ancestors;
    let total = gate_notes(s, t, a, None).len();
    let open = gate_notes(s, t, a, Some(NoteStatus::Open)).len();
    let approved = gate_notes(s, t, a, Some(NoteStatus::Approved)).len();
    let rejected = gate_notes(s, t, a, Some(NoteStatus::Rejected)).len();
    let resolved = gate_notes(s, t, a, Some(NoteStatus::Resolved)).len();
    &&& r.commit@ == t
    &&& r.total_notes == total
    &&& r.open_count == open
    &&& r.approved_count == approved
    &&& r.rejected_count == rejected
    &&& r.resolved_count == resolved
    &&& total == open + approved + rejected + resolved
    &&& r.min_approvals == args.min_approvals
    &&& r.no_unresolved == args.no_unresolved
    &&& r.failure_reasons.deep_view() == gate_reasons(rejected, open, approved, args.min_approvals as nat, args.no_unresolved)
    &&& infos_view(r.blocking_notes@) == gate_blocking(s, t, a, args.no_unresolved)
    &&& r.passed <==> (rejected == 0 && (!args.no_unresolved || open == 0) && approved >= args.min_approvals)
}

/// Evaluates the quality gate over all notes read, for `target_sha` and
/// its listed `ancestors`.
pub fn check_notes(all_notes: &[Note], target_sha: &String, ancestors: &[String], args: &CheckArgs) -> (r: CheckSummary)
    ensures
        summarizes(r, all_notes@, target_sha@, ancestors.deep_view(), *args),
{
    let ghost s = notes_view(all_notes@);
    let ghost t = target_sha@;
    let ghost a = ancestors.deep_view();
    let mut total: usize = 0;
    let mut open: usize = 0;
    let mut approved: usize = 0;
    let mut rejected: usize = 0;
    let mut resolved: usize = 0;
    let mut rejected_infos: Vec<BlockingNoteInfo> = Vec::new();
    let mut open_infos: Vec<BlockingNoteInfo> = Vec::new();
    let mut i: usize = 0;
    while i < all_notes.len()
        invariant
            i <= all_notes@.len(),
            s == notes_view(all_notes@),
            t == target_sha@,
            a == ancestors.deep_view(),
            total == gate_notes(s.subrange(0, i as int), t, a, None).len(),
            open == gate_notes(s.subrange(0, i as int), t, a, Some(NoteStatus::Open)).len(),
            approved == gate_notes(s.subrange(0, i as int), t, a, Some(NoteStatus::Approved)).len(),
            rejected == gate_notes(s.subrange(0, i as int), t, a, Some(NoteStatus::Rejected)).len(),
            resolved == gate_notes(s.subrange(0, i as int), t, a, Some(NoteStatus::Resolved)).len(),
            total <= i,
            infos_view(rejected_infos@) == blocking_views(
                gate_notes(s.subrange(0, i as int), t, a, Some(NoteStatus::Rejected)),
                "Rejected"@,
                "Note is marked as Rejected"@,
            ),
            infos_view(open_infos@) == blocking_views(
                gate_notes(s.subrange(0, i as int), t, a, Some(NoteStatus::Open)),
                "Open"@,
                "Unresolved note under --no-unresolved rule"@,
            ),
        decreases all_notes.len() - i,
    {
        let n = &all_notes[i];
        let ghost pre = s.subrange(0, i as int);
        let ghost post = s.subrange(0, i + 1);
        assert(post.drop_last() =~= pre);
        assert(post.last() == n@);
        proof {
            lemma_gate_notes_len(pre, t, a);
        }
        let on_target = String::eq(&n.commit, target_sha) || contains_commit(ancestors, &n.commit);
        if on_target {
            total = total + 1;
            match n.status {
                NoteStatus::Open => {
                    open = open + 1;
                    let info = blocking_entry(n, "Open", "Unresolved note under --no-unresolved rule");
                    open_infos.push(info);
                },
                NoteStatus::Approved => {
                    approved = approved + 1;
                },
                NoteStatus::Rejected => {
                    rejected = rejected + 1;
                    let info = blocking_entry(n, "Rejected", "Note is marked as Rejected");
                    rejected_infos.push(info);
                },
                NoteStatus::Resolved => {
                    resolved = resolved + 1;
                },
            }
        }
        proof {
            let rs = Some(NoteStatus::Rejected);
            let os = Some(NoteStatus::Open);
            let rt = "Rejected"@;
            let rr = "Note is marked as Rejected"@;
            let ot = "Open"@;
            let or = "Unresolved note under --no-unresolved rule"@;
            assert(on_target == considered(n@, t, a));
            if on_target && n.status == NoteStatus::Rejected {
                assert(gate_notes(post, t, a, rs) == gate_notes(pre, t, a, rs).push(n@));
                assert(blocking_views(gate_notes(post, t, a, rs), rt, rr) =~= blocking_views(gate_notes(pre, t, a, rs), rt, rr).push(blocking_view(n@, rt, rr)));
            } else {
                assert(gate_notes(post, t, a, rs) == gate_notes(pre, t, a, rs));
            }
            if on_target && n.status == NoteStatus::Open {
                assert(gate_notes(post, t, a, os) == gate_notes(pre, t, a, os).push(n@));
                assert(blocking_views(gate_notes(post, t, a, os), ot, or) =~= blocking_views(gate_notes(pre, t, a, os), ot, or).push(blocking_view(n@, ot, or)));
            } else {
                assert(gate_notes(post, t, a, os) == gate_notes(pre, t, a, os));
            }
            assert(infos_view(rejected_infos@) =~= blocking_views(gate_notes(post, t, a, rs), rt, rr));
            assert(infos_view(open_infos@) =~= blocking_views(gate_notes(post, t, a, os), ot, or));
        }
        i = i + 1;
    }
    assert(s.subrange(0, all_notes@.len() as int) =~= s);
    proof {
        lemma_gate_notes_len(s, t, a);
    }
    let mut reasons: Vec<String> = Vec::new();
    if rejected > 0 {
        let mut m: Vec<char> = Vec::new();
        append_str(&mut m, "Found ");
        push_decimal(&mut m, rejected as u64);
        append_str(&mut m, " rejected note(s) requiring changes");
        reasons.push(string_of(&m));
    }
    if args.no_unresolved && open > 0 {
        let mut m: Vec<char> = Vec::new();
        append_str(&mut m, "--no-unresolved specified and ");
        push_decimal(&mut m, open as u64);
        append_str(&mut m, " unresolved open note(s) remain");
        reasons.push(string_of(&m));
    }
    if approved < args.min_approvals {
        let mut m: Vec<char> = Vec::new();
        append_str(&mut m, "Approval threshold not met: required ");
        push_decimal(&mut m, args.min_approvals as u64);
        append_str(&mut m, " approval(s), but found ");
        push_decimal(&mut m, approved as u64);
        reasons.push(string_of(&m));
    }
    assert(reasons.deep_view() =~= gate_reasons(
        rejected as nat,
        open as nat,
        approved as nat,
        args.min_approvals as nat,
        args.no_unresolved,
    ));
    let passed = reasons.len() == 0;
    let mut blocking = rejected_infos;
    if !args.no_unresolved {
        assert(infos_view(blocking@) =~= infos_view(blocking@) + Seq::<BlockingView>::empty());
    }
    if args.no_unresolved {
        let ghost before = blocking@;
        let ghost ov = open_infos@;
        blocking.append(&mut open_infos);
        assert(infos_view(blocking@) =~= infos_view(before)
            + infos_view(ov));
    }
    CheckSummary {
        commit: target_sha.clone(),
        passed,
        total_notes: total,
        open_count: open,
        approved_count: approved,
        rejected_count: rejected,
        resolved_count: resolved,
        min_approvals: args.min_approvals,
        no_unresolved: args.no_unresolved,
        blocking_notes: blocking,
        failure_reasons: reasons,
    }
}


/// The texts joined with `sep` between each two.
pub open spec fn joined(parts: Seq<Seq<char>>, sep: Seq<char>) -> Seq<char>
    decreases parts.len(),
{
    if parts.len() == 0 {
        Seq::empty()
    } else if parts.len() == 1 {
        parts[0]
    } else {
        joined(parts.drop_last(), sep) + sep + parts.last()
    }
}

/// The error of a failed gate: its reasons, joined by `; `.
pub open spec fn failure_text(reasons: Seq<Seq<char>>) -> Seq<char> {
    "Quality gate failed: "@ + joined(reasons, "; "@)
}

/// The error message of a failed gate.
pub fn failure_message(reasons: &[String]) -> (r: String)
    ensures
        r@ == failure_text(reasons.deep_view()),
{
    let mut out = chars_of("Quality gate failed: ");
    let ghost start = out@;
    let mut i: usize = 0;
    while i < reasons.len()
        invariant
            i <= reasons@.len(),
            start == "Quality gate failed: "@,
            out@ == start + joined(reasons.deep_view().subrange(0, i as int), "; "@),
        decreases reasons.len() - i,
    {
        let ghost sub = reasons.deep_view().subrange(0, i + 1);
        assert(sub.drop_last() =~= reasons.deep_view().subrange(0, i as int));
        assert(sub.last() == reasons@[i as int]@);
        if i > 0 {
            append_str(&mut out, "; ");
        }
        append_str(&mut out, reasons[i].as_str());
        assert(out@ =~= start + joined(sub, "; "@));
        i = i + 1;
    }
    assert(reasons.deep_view().subrange(0, reasons@.len() as int) =~= reasons.deep_view());
    string_of(&out)
}

/// Runs the quality gate: the summary where it passes, else the error
/// that lists its failure reasons.
pub fn run(all_notes: &[Note], target_sha: &String, ancestors: &[String], args: &CheckArgs) -> (r: Result<
    CheckSummary,
    String,
>)
    ensures
        match r {
            Ok(summary) => summary.passed && summarizes(summary, all_notes@, target_sha@, ancestors.deep_view(), *args),
            Err(e) => exists|summary: CheckSummary|
                summarizes(summary, all_notes@, target_sha@, ancestors.deep_view(), *args) && !summary.passed && e@
                    == failure_text(summary.failure_reasons.deep_view()),
        },
{
    let summary = check_notes(all_notes, target_sha, ancestors, args);
    if summary.passed {
        Ok(summary)
    } else {
        let e = failure_message(&summary.failure_reasons);
        Err(e)
    }
}


/// The quality gate passes exactly when it reports no failure reason, and a
/// passing gate reports no blocking note.
pub proof fn law_passed_iff_no_reasons(
    r: CheckSummary,
    all_notes: Seq<Note>,
    target: Seq<char>,
    ancestors: Seq<Seq<char>>,
    args: CheckArgs,
)
    requires
        summarizes(r, all_notes, target, ancestors, args),
    ensures
        r.passed <==> r.failure_reasons@.len() == 0,
        r.passed ==> r.blocking_notes@.len() == 0,
{
    let s = notes_view(all_notes);
    assert(r.failure_reasons@.len() == r.failure_reasons.deep_view().len());
    if r.passed {
        assert(gate_notes(s, target, ancestors, Some(NoteStatus::Rejected)).len() == 0);
        assert(infos_view(r.blocking_notes@).len() == r.blocking_notes@.len());
        if args.no_unresolved {
            assert(gate_notes(s, target, ancestors, Some(NoteStatus::Open)).len() == 0);
        }
    }
}

/// Where a blocking note sits, as the quality gate's report shows it: `file:line`,
/// the file alone where there is no line, `<global>` where there is no file.
pub open spec fn location_text(file: Option<Seq<char>>, line: Option<u32>) -> Seq<char> {
    match file {
        Some(f) => match line {
            Some(l) => f + ":"@ + decimal(l as nat),
            None => f,
        },
        None => "<global>"@,
    }
}

/// The location of a blocking note in the quality gate's report.
pub fn blocking_location(file: Option<&str>, line: Option<u32>) -> (r: String)
    ensures
        r@ == location_text(
            match file {
                Some(f) => Some(f@),
                None => None,
            },
            line,
        ),
{
    match file {
        Some(f) => {
            let mut v = chars_of(f);
            match line {
                Some(l) => {
                    append_str(&mut v, ":");
                    push_decimal(&mut v, l as u64);
                },
                None => {},
            }
            string_of(&v)
        },
        None => "<global>".to_string(),
    }
}

/// The notes the quality gate counts for a status are exactly those, in
/// order, that are anchored to the target commit or one of its ancestors
/// and have that status.
pub proof fn law_gate_counts_anchored(s: Seq<NoteView>, target: Seq<char>, ancestors: Seq<Seq<char>>, st: NoteStatus)
    ensures
        gate_notes(s, target, ancestors, Some(st)) == s.filter(
            |n: NoteView| (n.commit == target || ancestors.contains(n.commit)) && n.status == st,
        ),
        gate_notes(s, target, ancestors, None) == s.filter(
            |n: NoteView| n.commit == target || ancestors.contains(n.commit),
        ),
    decreases s.len(),
{
    reveal_with_fuel(Seq::<_>::filter, 1);
    if s.len() > 0 {
        law_gate_counts_anchored(s.drop_last(), target, ancestors, st);
        assert(gate_notes(s, target, ancestors, Some(st)) =~= s.filter(
            |n: NoteView| (n.commit == target || ancestors.contains(n.commit)) && n.status == st,
        ));
        assert(gate_notes(s, target, ancestors, None) =~= s.filter(
            |n: NoteView| n.commit == target || ancestors.contains(n.commit),
        ));
    } else {
        assert(s.filter(|n: NoteView| (n.commit == target || ancestors.contains(n.commit)) && n.status == st)
            =~= Seq::<NoteView>::empty());
        assert(s.filter(|n: NoteView| n.commit == target || ancestors.contains(n.commit)) =~= Seq::<NoteView>::empty());
    }
}

} // verus!
