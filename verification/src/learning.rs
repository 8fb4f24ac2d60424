//! What the tool learns of its user: how often each command is run and
//! each file is annotated, and the hints it gives from that.

use vstd::prelude::*;
use crate::textmap::{keys_distinct, lemma_value_at, position, upsert, value_at};
use crate::text::{append_str, chars_of, string_of};

verus! {

/// Counters of a user's interactions.
pub struct UserBehaviorProfile {
    /// How often each command was run.
    pub command_counts: Vec<(String, u64)>,
    /// How often each author was replied to.
    pub favorite_authors: Vec<(String, u64)>,
    /// How often each file was annotated.
    pub file_frequencies: Vec<(String, u64)>,
    /// The last namespace used.
    pub preferred_namespace: Option<String>,
    /// How many commands were run.
    pub total_interactions: u64,
}

/// The count stored under `k`, zero where there is none.
pub open spec fn count_of(s: Seq<(String, u64)>, k: Seq<char>) -> u64 {
    match value_at(s, k) {
        Some(c) => c,
        None => 0,
    }
}

/// The count stored under `k`.
pub fn count(v: &Vec<(String, u64)>, k: &str) -> (r: u64)
    requires
        keys_distinct(v@),
    ensures
        r == count_of(v@, k@),
{
    match position(v, &chars_of(k)) {
        Some(i) => {
            proof {
                lemma_value_at(v@, i as int);
            }
            v[i].1
        },
        None => 0,
    }
}

/// The sum of the counts.
pub open spec fn sum_counts(s: Seq<(String, u64)>) -> int
    decreases s.len(),
{
    if s.len() == 0 {
        0
    } else {
        sum_counts(s.drop_last()) + s.last().1
    }
}

proof fn lemma_sum_update(s: Seq<(String, u64)>, i: int, p: (String, u64))
    requires
        0 <= i < s.len(),
    ensures
        sum_counts(s.update(i, p)) == sum_counts(s) - s[i].1 + p.1,
    decreases s.len(),
{
    let t = s.update(i, p);
    if i == s.len() - 1 {
        assert(t.drop_last() =~= s.drop_last());
    } else {
        assert(t.drop_last() =~= s.drop_last().update(i, p));
        lemma_sum_update(s.drop_last(), i, p);
    }
}

/// Adds one to the count stored under `k`.
fn bump(v: &mut Vec<(String, u64)>, k: &str)
    requires
        keys_distinct(old(v)@),
        count_of(old(v)@, k@) < u64::MAX,
    ensures
        keys_distinct(final(v)@),
        count_of(final(v)@, k@) == count_of(old(v)@, k@) + 1,
        value_at(final(v)@, k@) is Some,
        forall|x: Seq<char>| x != k@ ==> #[trigger] value_at(final(v)@, x) == value_at(old(v)@, x),
        sum_counts(final(v)@) == sum_counts(old(v)@) + 1,
{
    let ghost s = v@;
    let c = count(v, k);
    let ks = k.to_string();
    let ghost gk = ks;
    upsert(v, ks, c + 1);
    proof {
        if exists|i: int| 0 <= i < s.len() && #[trigger] s[i].0@ == k@ && v@ == s.update(i, (gk, (c + 1) as u64)) {
            let i = choose|i: int| 0 <= i < s.len() && #[trigger] s[i].0@ == k@ && v@ == s.update(i, (gk, (c + 1) as u64));
            lemma_value_at(s, i);
            lemma_sum_update(s, i, v@[i]);
            assert(v@ == s.update(i, v@[i]));
        } else {
            assert(v@.drop_last() =~= s);
            assert(value_at(s, k@) is None);
        }
    }
}

impl UserBehaviorProfile {
    /// The counters hold each key once.
    pub open spec fn wf(&self) -> bool {
        &&& keys_distinct(self.command_counts@)
        &&& keys_distinct(self.favorite_authors@)
        &&& keys_distinct(self.file_frequencies@)
    }

    /// Records one run of command `cmd`, on `file` and in namespace `ns`
    /// where given: counts the command, the run and the file, and
    /// remembers the namespace.
    pub fn record_interaction(&mut self, cmd: &str, file: Option<&str>, ns: Option<&str>)
        requires
            old(self).wf(),
            old(self).total_interactions < u64::MAX,
            count_of(old(self).command_counts@, cmd@) < u64::MAX,
            file matches Some(f) ==> count_of(old(self).file_frequencies@, f@) < u64::MAX,
        ensures
            final(self).wf(),
            final(self).total_interactions == old(self).total_interactions + 1,
            count_of(final(self).command_counts@, cmd@) == count_of(old(self).command_counts@, cmd@) + 1,
            sum_counts(final(self).command_counts@) == sum_counts(old(self).command_counts@) + 1,
            old(self).total_interactions == sum_counts(old(self).command_counts@) ==> final(self).total_interactions
                == sum_counts(final(self).command_counts@),
            forall|x: Seq<char>|
                x != cmd@ ==> #[trigger] value_at(final(self).command_counts@, x) == value_at(
                    old(self).command_counts@,
                    x,
                ),
            match file {
                Some(f) => count_of(final(self).file_frequencies@, f@) == count_of(old(self).file_frequencies@, f@)
                    + 1 && forall|x: Seq<char>|
                    x != f@ ==> #[trigger] value_at(final(self).file_frequencies@, x) == value_at(
                        old(self).file_frequencies@,
                        x,
                    ),
                None => final(self).file_frequencies@ == old(self).file_frequencies@,
            },
            final(self).preferred_namespace.deep_view() == match ns {
                Some(n) => Some(n@),
                None => old(self).preferred_namespace.deep_view(),
            },
            final(self).favorite_authors@ == old(self).favorite_authors@,
    {
        bump(&mut self.command_counts, cmd);
        self.total_interactions = self.total_interactions + 1;
        match file {
            Some(f) => bump(&mut self.file_frequencies, f),
            None => {},
        }
        match ns {
            Some(n) => {
                self.preferred_namespace = Some(n.to_string());
            },
            None => {},
        }
    }

    /// The hint for a user's next step: where the current file was
    /// annotated more than three times, to view it with inline notes; else,
    /// where `list` was typed more than three times and `l` never, to type
    /// `l`; else none.
    pub open spec fn suggestion(&self, current_file: Option<Seq<char>>) -> Option<Seq<char>> {
        if current_file is Some && value_at(self.file_frequencies@, current_file.unwrap()) is Some && value_at(
            self.file_frequencies@,
            current_file.unwrap(),
        ).unwrap() > 3 {
            Some(file_tip(current_file.unwrap()))
        } else if count_of(self.command_counts@, "list"@) > 3 && count_of(self.command_counts@, "l"@) == 0 {
            Some(shortcut_tip())
        } else {
            None
        }
    }

    /// Suggests a next step from the learned history.
    pub fn suggest_next_action(&self, current_file: Option<&str>) -> (r: Option<String>)
        requires
            self.wf(),
        ensures
            r.deep_view() == self.suggestion(
                match current_file {
                    Some(f) => Some(f@),
                    None => None,
                },
            ),
    {
        match current_file {
            Some(f) => {
                match position(&self.file_frequencies, &chars_of(f)) {
                    Some(i) => {
                        proof {
                            lemma_value_at(self.file_frequencies@, i as int);
                        }
                        if self.file_frequencies[i].1 > 3 {
                            let mut out = chars_of(
                                "\x1b[90m\u{1f4a1} Pro-tip: You frequently annotate '",
                            );
                            append_str(&mut out, f);
                            append_str(&mut out, "'. Run \x1b[36mgn d\x1b[90m to view inline diff notes.\x1b[0m");
                            return Some(string_of(&out));
                        }
                    },
                    None => {},
                }
            },
            None => {},
        }
        let list_count = count(&self.command_counts, "list");
        let l_count = count(&self.command_counts, "l");
        if list_count > 3 && l_count == 0 {
            Some(
                "\x1b[90m\u{1f4a1} Shortcut tip: Type \x1b[36mgn l\x1b[90m instead of 'git-notes list' to save keystrokes.\x1b[0m".to_string(),
            )
        } else {
            None
        }
    }
}

/// The hint for a file that is often annotated.
pub open spec fn file_tip(f: Seq<char>) -> Seq<char> {
    "\x1b[90m\u{1f4a1} Pro-tip: You frequently annotate '"@ + f
        + "'. Run \x1b[36mgn d\x1b[90m to view inline diff notes.\x1b[0m"@
}

/// The hint to type the short form of `list`.
pub open spec fn shortcut_tip() -> Seq<char> {
    "\x1b[90m\u{1f4a1} Shortcut tip: Type \x1b[36mgn l\x1b[90m instead of 'git-notes list' to save keystrokes.\x1b[0m"@
}

impl Default for UserBehaviorProfile {
    fn default() -> (r: Self)
        ensures
            r.command_counts@.len() == 0,
            r.favorite_authors@.len() == 0,
            r.file_frequencies@.len() == 0,
            r.preferred_namespace is None,
            r.total_interactions == 0,
            r.wf(),
    {
        UserBehaviorProfile {
            command_counts: Vec::new(),
            favorite_authors: Vec::new(),
            file_frequencies: Vec::new(),
            preferred_namespace: None,
            total_interactions: 0,
        }
    }
}

} // verus!
