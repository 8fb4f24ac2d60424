//! Signing notes and checking their signatures: which signature format a
//! note carries, what the outcome of `gpg` or `ssh-keygen` means, and in
//! which order the signing methods are tried. The tools themselves are run
//! by the caller.

use vstd::prelude::*;
use crate::select::{eq_ignore_ascii_case, lowercase, lowercase_of, same_ignoring_ascii_case};
use crate::text::{
    append_str, chars_equal, chars_of, find_at, first_at, rows_view, slice_chars, split_lines,
    string_of, text_lines, trim, trim_end_all, trim_end_copies, trim_start_all, trim_start_copies,
    trim_white,
};

verus! {

/// The outcome of checking a signature.
#[derive(Debug, Clone, Copy, PartialEq, Eq, Structural)]
pub enum SignatureStatus {
    Valid,
    Bad,
    Unsigned,
}

/// The outcome of checking a note's signature, with who signed and why.
pub struct VerificationResult {
    pub status: SignatureStatus,
    pub signer: Option<String>,
    pub details: Option<String>,
}

/// A verification result as a mathematical value.
pub struct ResultView {
    pub status: SignatureStatus,
    pub signer: Option<Seq<char>>,
    pub details: Option<Seq<char>>,
}

impl View for VerificationResult {
    type V = ResultView;

    open spec fn view(&self) -> ResultView {
        ResultView { status: self.status, signer: self.signer.deep_view(), details: self.details.deep_view() }
    }
}

/// What checking a signature takes: nothing more, or a run of `gpg` or
/// `ssh-keygen` on the trimmed signature and the payload.
pub enum Verification {
    Finished(VerificationResult),
    NeedsGpg(String),
    NeedsSsh(String),
}

/// The armor line of an OpenPGP signature.
pub open spec fn pgp_marker() -> Seq<char> {
    "-----BEGIN PGP SIGNATURE-----"@
}

/// The armor line of an SSH signature.
pub open spec fn ssh_marker() -> Seq<char> {
    "-----BEGIN SSH SIGNATURE-----"@
}

/// `s` occurs somewhere in `t`.
pub open spec fn holds(t: Seq<char>, s: Seq<char>) -> bool {
    first_at(t, s) is Some
}

/// A verification as a mathematical value.
pub enum VerificationView {
    Finished(ResultView),
    NeedsGpg(Seq<char>),
    NeedsSsh(Seq<char>),
}

impl View for Verification {
    type V = VerificationView;

    open spec fn view(&self) -> VerificationView {
        match self {
            Verification::Finished(r) => VerificationView::Finished(r@),
            Verification::NeedsGpg(s) => VerificationView::NeedsGpg(s@),
            Verification::NeedsSsh(s) => VerificationView::NeedsSsh(s@),
        }
    }
}

/// What a signature needs: a missing or blank one is unsigned; one that
/// holds the OpenPGP armor line goes to `gpg`, else one that holds the SSH
/// armor line to `ssh-keygen`, each trimmed; any other is bad.
pub open spec fn verification_of(signature: Option<Seq<char>>) -> VerificationView {
    let t = match signature {
        Some(s) => trim_white(s),
        None => Seq::empty(),
    };
    if t.len() == 0 {
        VerificationView::Finished(
            ResultView {
                status: SignatureStatus::Unsigned,
                signer: None,
                details: Some("No cryptographic signature present"@),
            },
        )
    } else if holds(t, pgp_marker()) {
        VerificationView::NeedsGpg(t)
    } else if holds(t, ssh_marker()) {
        VerificationView::NeedsSsh(t)
    } else {
        VerificationView::Finished(
            ResultView { status: SignatureStatus::Bad, signer: None, details: Some("Unrecognized signature format"@) },
        )
    }
}

/// Starts checking a note's signature against its payload: settles missing
/// and unrecognized signatures, and says which tool checks the others.
pub fn verify_signature(payload: &str, signature: Option<&str>, author: &str) -> (r: Verification)
    ensures
        r@ == verification_of(match signature {
            Some(s) => Some(s@),
            None => None,
        }),
{
    let t = match signature {
        Some(s) => trim(&chars_of(s)),
        None => {
            let e: Vec<char> = Vec::new();
            assert(e@ =~= Seq::<char>::empty());
            e
        },
    };
    if t.len() == 0 {
        let r = VerificationResult {
            status: SignatureStatus::Unsigned,
            signer: None,
            details: Some("No cryptographic signature present".to_string()),
        };
        return Verification::Finished(r);
    }
    if find_at(&t, &chars_of("-----BEGIN PGP SIGNATURE-----")).is_some() {
        return Verification::NeedsGpg(string_of(&t));
    }
    if find_at(&t, &chars_of("-----BEGIN SSH SIGNATURE-----")).is_some() {
        return Verification::NeedsSsh(string_of(&t));
    }
    let r = VerificationResult {
        status: SignatureStatus::Bad,
        signer: None,
        details: Some("Unrecognized signature format".to_string()),
    };
    Verification::Finished(r)
}

/// The words that `gpg` prints before the signer of a good signature.
pub open spec fn good_marker() -> Seq<char> {
    "Good signature from"@
}

/// The signer named on a line of `gpg` output: the text after the first
/// `Good signature from`, trimmed, without surrounding double quotes.
pub open spec fn signer_on_line(l: Seq<char>) -> Option<Seq<char>> {
    match first_at(l, good_marker()) {
        Some(i) => Some(
            trim_end_all(
                trim_start_all(trim_white(l.subrange(i + good_marker().len(), l.len() as int)), seq!['"']),
                seq!['"'],
            ),
        ),
        None => None,
    }
}

/// The signer named on the first line of `gpg` output that names one.
pub open spec fn first_signer(lines: Seq<Seq<char>>) -> Option<Seq<char>>
    decreases lines.len(),
{
    if lines.len() == 0 {
        None
    } else {
        match signer_on_line(lines[0]) {
            Some(s) => Some(s),
            None => first_signer(lines.drop_first()),
        }
    }
}

fn line_signer(l: &[char]) -> (r: Option<Vec<char>>)
    ensures
        match r {
            Some(v) => signer_on_line(l@) == Some(v@),
            None => signer_on_line(l@) is None,
        },
{
    let marker = chars_of("Good signature from");
    match find_at(l, &marker) {
        Some(i) => {
            assert(i + marker@.len() <= l@.len());
            assert(i + marker.len() <= l.len());
            let rest = slice_chars(l, i + marker.len(), l.len());
            let quote = vec!['"'];
            assert(quote@ =~= seq!['"']);
            let a = trim_start_copies(&trim(&rest), &quote);
            Some(trim_end_copies(&a, &quote))
        },
        None => None,
    }
}

/// The signer that `gpg` names in its diagnostic output.
pub fn extract_gpg_signer(stderr: &str) -> (r: Option<String>)
    ensures
        r.deep_view() == first_signer(text_lines(stderr@)),
{
    let lines = split_lines(&chars_of(stderr));
    let ghost all = rows_view(lines@);
    let mut i: usize = 0;
    assert(all.subrange(0, all.len() as int) =~= all);
    while i < lines.len()
        invariant
            i <= lines@.len(),
            all == rows_view(lines@),
            all == text_lines(stderr@),
            first_signer(all) == first_signer(all.subrange(i as int, all.len() as int)),
        decreases lines.len() - i,
    {
        let ghost rest = all.subrange(i as int, all.len() as int);
        assert(rest[0] == lines@[i as int]@);
        match line_signer(&lines[i]) {
            Some(v) => {
                return Some(string_of(&v));
            },
            None => {},
        }
        assert(rest.drop_first() =~= all.subrange(i + 1, all.len() as int));
        i = i + 1;
    }
    None
}

/// The outcome of `gpg --verify`: good where `gpg` succeeded or reported a
/// good signature, the signer being the one it names or else the note's
/// author; bad otherwise, with `gpg`'s trimmed output as the reason.
pub open spec fn gpg_outcome(exit_ok: bool, stderr: Seq<char>, author: Seq<char>) -> ResultView {
    if exit_ok || holds(stderr, good_marker()) {
        ResultView {
            status: SignatureStatus::Valid,
            signer: Some(
                match first_signer(text_lines(stderr)) {
                    Some(s) => s,
                    None => author,
                },
            ),
            details: Some("GPG cryptographic signature verified"@),
        }
    } else {
        ResultView { status: SignatureStatus::Bad, signer: None, details: Some(trim_white(stderr)) }
    }
}

/// Judges the outcome of `gpg --verify` on a note's signature.
pub fn gpg_verdict(exit_ok: bool, stderr: &str, author: &str) -> (r: VerificationResult)
    ensures
        r@ == gpg_outcome(exit_ok, stderr@, author@),
{
    let err = chars_of(stderr);
    if exit_ok || find_at(&err, &chars_of("Good signature from")).is_some() {
        let signer = match extract_gpg_signer(stderr) {
            Some(s) => s,
            None => author.to_string(),
        };
        VerificationResult {
            status: SignatureStatus::Valid,
            signer: Some(signer),
            details: Some("GPG cryptographic signature verified".to_string()),
        }
    } else {
        VerificationResult { status: SignatureStatus::Bad, signer: None, details: Some(string_of(&trim(&err))) }
    }
}

/// The outcome of `ssh-keygen -Y check-novalidate`, given its standard
/// output and error joined by a line feed: good where it succeeded or said
/// `Good`, signed by the note's author; bad otherwise, with the trimmed
/// output as the reason.
pub open spec fn ssh_outcome(exit_ok: bool, output: Seq<char>, author: Seq<char>) -> ResultView {
    if exit_ok || holds(output, "Good"@) {
        ResultView {
            status: SignatureStatus::Valid,
            signer: Some(author),
            details: Some("SSH cryptographic signature verified"@),
        }
    } else {
        ResultView { status: SignatureStatus::Bad, signer: None, details: Some(trim_white(output)) }
    }
}

/// Judges the outcome of `ssh-keygen -Y check-novalidate` on a note's
/// signature.
pub fn ssh_verdict(exit_ok: bool, stdout: &str, stderr: &str, author: &str) -> (r: VerificationResult)
    ensures
        r@ == ssh_outcome(exit_ok, stdout@ + "\n"@ + stderr@, author@),
{
    let mut combined = chars_of(stdout);
    append_str(&mut combined, "\n");
    append_str(&mut combined, stderr);
    if exit_ok || find_at(&combined, &chars_of("Good")).is_some() {
        VerificationResult {
            status: SignatureStatus::Valid,
            signer: Some(author.to_string()),
            details: Some("SSH cryptographic signature verified".to_string()),
        }
    } else {
        VerificationResult { status: SignatureStatus::Bad, signer: None, details: Some(string_of(&trim(&combined))) }
    }
}

/// A trimmed value that is not empty, as Git prints configuration values
/// and tools print signatures.
pub open spec fn nonblank(s: Seq<char>) -> Option<Seq<char>> {
    if trim_white(s).len() == 0 {
        None
    } else {
        Some(trim_white(s))
    }
}

/// The trimmed text, where it is not empty.
pub fn nonblank_text(s: &str) -> (r: Option<String>)
    ensures
        r.deep_view() == nonblank(s@),
{
    let t = trim(&chars_of(s));
    if t.len() == 0 {
        None
    } else {
        Some(string_of(&t))
    }
}

/// Signing is requested by the flag, or by the configuration value
/// `git-notes.sign` being `true`, `yes` or `1` once trimmed and lowercased.
pub open spec fn signing_wanted(flag: bool, config: Option<Seq<char>>) -> bool {
    flag || match config {
        Some(v) => {
            let l = lowercase_of(trim_white(v));
            l == "true"@ || l == "yes"@ || l == "1"@
        },
        None => false,
    }
}

/// Whether signing is requested, given the flag and the configuration
/// value where Git has one.
pub fn is_signing_requested(flag: bool, config: Option<&str>) -> (r: bool)
    ensures
        r == signing_wanted(flag, match config {
            Some(s) => Some(s@),
            None => None,
        }),
{
    if flag {
        return true;
    }
    match config {
        Some(v) => {
            let t = string_of(&trim(&chars_of(v)));
            let l = chars_of(lowercase(t.as_str()).as_str());
            chars_equal(&l, &chars_of("true")) || chars_equal(&l, &chars_of("yes")) || chars_equal(
                &l,
                &chars_of("1"),
            )
        },
        None => false,
    }
}

/// A way of signing a payload.
pub enum SignAttempt {
    /// `ssh-keygen -Y sign` with the key file.
    Ssh(String),
    /// `gpg --detach-sign`, with the key where one is given.
    Gpg(Option<String>),
}

/// A signing method as a mathematical value: SSH (0) or GPG (1) and the key.
pub open spec fn attempt_view(a: SignAttempt) -> (int, Option<Seq<char>>) {
    match a {
        SignAttempt::Ssh(k) => (0, Some(k@)),
        SignAttempt::Gpg(k) => (1, k.deep_view()),
    }
}

/// The order in which signing is tried: with SSH where the signing format
/// is `ssh` (in any ASCII case) and a key is configured; then with GPG and
/// the configured key, where there is one; then with GPG's default key.
/// The format is `openpgp` where Git has none.
pub open spec fn signing_order(format: Option<Seq<char>>, key: Option<Seq<char>>) -> Seq<(int, Option<Seq<char>>)> {
    let f = match format {
        Some(x) => x,
        None => "openpgp"@,
    };
    let ssh = match key {
        Some(k) => if same_ignoring_ascii_case(f, "ssh"@) {
            seq![(0int, Some(k))]
        } else {
            Seq::empty()
        },
        None => Seq::empty(),
    };
    let gpg_key = match key {
        Some(k) => seq![(1int, Some(k))],
        None => Seq::empty(),
    };
    ssh + gpg_key + seq![(1int, None::<Seq<char>>)]
}

/// The signing methods to try, in order, given the configured signing
/// format and key.
pub fn signing_plan(format: Option<&str>, key: Option<&str>) -> (r: Vec<SignAttempt>)
    ensures
        r@.map_values(|a: SignAttempt| attempt_view(a)) == signing_order(
            match format {
                Some(s) => Some(s@),
                None => None,
            },
            match key {
                Some(s) => Some(s@),
                None => None,
            },
        ),
{
    let f = match format {
        Some(x) => chars_of(x),
        None => chars_of("openpgp"),
    };
    let mut out: Vec<SignAttempt> = Vec::new();
    match key {
        Some(k) => {
            if eq_ignore_ascii_case(&f, &chars_of("ssh")) {
                out.push(SignAttempt::Ssh(k.to_string()));
            }
            out.push(SignAttempt::Gpg(Some(k.to_string())));
        },
        None => {},
    }
    out.push(SignAttempt::Gpg(None));
    assert(out@.map_values(|a: SignAttempt| attempt_view(a)) =~= signing_order(
        match format {
            Some(s) => Some(s@),
            None => None,
        },
        match key {
            Some(s) => Some(s@),
            None => None,
        },
    ));
    out
}

} // verus!
