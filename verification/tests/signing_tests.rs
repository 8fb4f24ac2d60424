use git_notes::namespace::Namespace;
use git_notes::note::Note;
use git_notes::signing::{
    extract_gpg_signer, gpg_verdict, is_signing_requested, nonblank_text, signing_plan, ssh_verdict, verify_signature,
    SignAttempt, SignatureStatus, Verification,
};

fn status_of(v: Verification) -> SignatureStatus {
    match v {
        Verification::Finished(r) => r.status,
        _ => panic!("a tool would be needed"),
    }
}

#[test]
fn test_verify_unsigned_note() {
    let note = Note::new(
        "dummy_sha".to_string(),
        Some("main.rs".to_string()),
        Some(10),
        Some(12),
        "Unsigned review comment".to_string(),
        "Alice <alice@example.com>".to_string(),
        Namespace::Comments,
    );

    let payload = note.signing_payload();
    let res = verify_signature(&payload, note.signature.as_deref(), &note.author);
    assert_eq!(status_of(res), SignatureStatus::Unsigned);
}

#[test]
fn test_verify_bad_signature_format() {
    let mut note = Note::new(
        "dummy_sha".to_string(),
        None,
        None,
        None,
        "Tampered note".to_string(),
        "Bob <bob@example.com>".to_string(),
        Namespace::Comments,
    );
    note.signature = Some("not-a-valid-armor-signature".to_string());

    let payload = note.signing_payload();
    let res = verify_signature(&payload, note.signature.as_deref(), &note.author);
    assert_eq!(status_of(res), SignatureStatus::Bad);
}

#[test]
fn armored_signatures_go_to_their_tool() {
    let pgp = "  -----BEGIN PGP SIGNATURE-----\nabc\n-----END PGP SIGNATURE-----\n";
    match verify_signature("p", Some(pgp), "a") {
        Verification::NeedsGpg(s) => assert_eq!(s, pgp.trim()),
        _ => panic!("expected gpg"),
    }
    let ssh = "-----BEGIN SSH SIGNATURE-----\ntest\n-----END SSH SIGNATURE-----";
    match verify_signature("p", Some(ssh), "a") {
        Verification::NeedsSsh(s) => assert_eq!(s, ssh),
        _ => panic!("expected ssh"),
    }
    match verify_signature("p", Some("   "), "a") {
        Verification::Finished(r) => {
            assert_eq!(r.status, SignatureStatus::Unsigned);
            assert_eq!(r.details.as_deref(), Some("No cryptographic signature present"));
        }
        _ => panic!("expected unsigned"),
    }
}

#[test]
fn gpg_outcomes() {
    let err = "gpg: Signature made today\ngpg: Good signature from \"Alice <a@x.org>\" [ultimate]\n";
    let r = gpg_verdict(false, err, "fallback");
    assert_eq!(r.status, SignatureStatus::Valid);
    assert_eq!(r.signer.as_deref(), Some("Alice <a@x.org>\" [ultimate]"));
    assert_eq!(r.details.as_deref(), Some("GPG cryptographic signature verified"));
    let ok = gpg_verdict(true, "", "fallback");
    assert_eq!(ok.signer.as_deref(), Some("fallback"));
    let bad = gpg_verdict(false, "  gpg: BAD signature\n", "x");
    assert_eq!(bad.status, SignatureStatus::Bad);
    assert_eq!(bad.signer, None);
    assert_eq!(bad.details.as_deref(), Some("gpg: BAD signature"));
}

#[test]
fn gpg_signer_is_extracted() {
    assert_eq!(extract_gpg_signer("x\ngpg: Good signature from \"Bob\"\n"), Some("Bob".to_string()));
    assert_eq!(extract_gpg_signer("nothing here"), None);
}

#[test]
fn ssh_outcomes() {
    let r = ssh_verdict(false, "Good \"git-notes\" signature", "", "Carol");
    assert_eq!(r.status, SignatureStatus::Valid);
    assert_eq!(r.signer.as_deref(), Some("Carol"));
    let bad = ssh_verdict(false, "", "could not verify", "Carol");
    assert_eq!(bad.status, SignatureStatus::Bad);
    assert_eq!(bad.details.as_deref(), Some("could not verify"));
}

#[test]
fn signing_order() {
    let kinds = |plan: Vec<SignAttempt>| -> Vec<String> {
        plan.into_iter()
            .map(|a| match a {
                SignAttempt::Ssh(k) => format!("ssh:{}", k),
                SignAttempt::Gpg(Some(k)) => format!("gpg:{}", k),
                SignAttempt::Gpg(None) => "gpg".to_string(),
            })
            .collect()
    };
    assert_eq!(kinds(signing_plan(Some("SSH"), Some("~/.ssh/id"))), vec!["ssh:~/.ssh/id", "gpg:~/.ssh/id", "gpg"]);
    assert_eq!(kinds(signing_plan(None, Some("KEY"))), vec!["gpg:KEY", "gpg"]);
    assert_eq!(kinds(signing_plan(Some("ssh"), None)), vec!["gpg"]);
}

#[test]
fn signing_requests() {
    assert!(is_signing_requested(true, None));
    assert!(is_signing_requested(false, Some(" TRUE\n")));
    assert!(is_signing_requested(false, Some("yes")));
    assert!(is_signing_requested(false, Some("1")));
    assert!(!is_signing_requested(false, Some("false")));
    assert!(!is_signing_requested(false, None));
    assert_eq!(nonblank_text("  ssh \n"), Some("ssh".to_string()));
    assert_eq!(nonblank_text(" \n"), None);
}
