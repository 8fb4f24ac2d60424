use clap::{Arg, ArgAction, ArgMatches, Command};
use git_notes::args::{BundleArgs, BundleCommand, P2pArgs, P2pCommand, SyncAction, SyncArgs, VerifyArgs};
use git_notes::sync::{
    exportable_note_refs, fetch_refspec, parse_peer_address, peer_label, peer_url, ref_suffix, refs_with_prefix,
    remote_namespace_name, retarget, temp_ref_prefix, temp_refspec,
};
use git_notes::namespace::Namespace;
use git_notes::note::Note;
use std::path::PathBuf;

fn port_arg() -> Arg {
    Arg::new("port").short('p').long("port").default_value("9418")
}

// The command line of the program is declared with clap's derive in app/,
// which tests cannot name (and the derive is not accepted here). These tests
// build the same `sync` grammar with clap's builder and check that what it
// parses becomes the library's `SyncArgs`; they do not exercise app/cli.rs
// itself.
fn sync_command() -> Command {
    Command::new("app").subcommand(
        Command::new("sync")
            .arg(Arg::new("p2p").long("p2p").action(ArgAction::SetTrue))
            .arg(Arg::new("remote").short('r').long("remote").default_value("origin"))
            .subcommand(Command::new("push"))
            .subcommand(Command::new("pull"))
            .subcommand(Command::new("auto"))
            .subcommand(
                Command::new("bundle")
                    .subcommand_required(true)
                    .subcommand(Command::new("export").arg(Arg::new("output").required(true)))
                    .subcommand(Command::new("import").arg(Arg::new("input").required(true))),
            )
            .subcommand(
                Command::new("p2p")
                    .arg(port_arg())
                    .subcommand(Command::new("serve").arg(port_arg()))
                    .subcommand(Command::new("connect").arg(Arg::new("peer").required(true))),
            ),
    )
}

fn text(m: &ArgMatches, name: &str) -> String {
    m.get_one::<String>(name).cloned().unwrap()
}

fn port(m: &ArgMatches) -> u16 {
    text(m, "port").parse::<u16>().unwrap()
}

fn sync_args(m: &ArgMatches) -> SyncArgs {
    let action = match m.subcommand() {
        Some(("push", _)) => Some(SyncAction::Push),
        Some(("pull", _)) => Some(SyncAction::Pull),
        Some(("auto", _)) => Some(SyncAction::Auto),
        Some(("bundle", b)) => Some(SyncAction::Bundle(BundleArgs {
            command: match b.subcommand() {
                Some(("export", e)) => BundleCommand::Export { output: text(e, "output") },
                Some(("import", i)) => BundleCommand::Import { input: text(i, "input") },
                _ => panic!("bundle needs a command"),
            },
        })),
        Some(("p2p", p)) => Some(SyncAction::P2p(P2pArgs {
            command: match p.subcommand() {
                Some(("serve", s)) => Some(P2pCommand::Serve { port: port(s) }),
                Some(("connect", c)) => Some(P2pCommand::Connect { peer: text(c, "peer") }),
                _ => None,
            },
            port: port(p),
        })),
        _ => None,
    };
    SyncArgs { action, p2p: m.get_flag("p2p"), remote: text(m, "remote") }
}

fn parse(argv: &[&str]) -> SyncArgs {
    let m = sync_command().try_get_matches_from(argv).unwrap();
    match m.subcommand() {
        Some(("sync", s)) => sync_args(s),
        _ => panic!("expected sync"),
    }
}

#[test]
fn test_sync_cli_bundle_export_parsing() {
    let args = parse(&["app", "sync", "bundle", "export", "my_notes.bundle"]);
    match args.action.unwrap() {
        SyncAction::Bundle(b) => match b.command {
            BundleCommand::Export { output } => {
                assert_eq!(PathBuf::from(output), PathBuf::from("my_notes.bundle"));
            }
            _ => panic!("Expected Export"),
        },
        _ => panic!("Expected Bundle"),
    }
}

#[test]
fn test_sync_cli_bundle_import_parsing() {
    let args = parse(&["app", "sync", "bundle", "import", "my_notes.bundle"]);
    match args.action.unwrap() {
        SyncAction::Bundle(b) => match b.command {
            BundleCommand::Import { input } => {
                assert_eq!(PathBuf::from(input), PathBuf::from("my_notes.bundle"));
            }
            _ => panic!("Expected Import"),
        },
        _ => panic!("Expected Bundle"),
    }
}

#[test]
fn test_sync_cli_p2p_serve_parsing() {
    let args = parse(&["app", "sync", "p2p", "serve", "--port", "9999"]);
    match args.action.unwrap() {
        SyncAction::P2p(p) => match p.command.unwrap() {
            P2pCommand::Serve { port } => {
                assert_eq!(port, 9999);
            }
            _ => panic!("Expected Serve"),
        },
        _ => panic!("Expected P2p"),
    }
}

#[test]
fn test_sync_cli_p2p_connect_parsing() {
    let args = parse(&["app", "sync", "p2p", "connect", "192.168.1.100:9418"]);
    match args.action.unwrap() {
        SyncAction::P2p(p) => match p.command.unwrap() {
            P2pCommand::Connect { peer } => {
                assert_eq!(peer, "192.168.1.100:9418");
            }
            _ => panic!("Expected Connect"),
        },
        _ => panic!("Expected P2p"),
    }
}

#[test]
fn sync_defaults() {
    let args = parse(&["app", "sync"]);
    assert!(args.action.is_none());
    assert!(!args.p2p);
    assert_eq!(args.remote, "origin");
}

#[test]
fn test_verify_args_parsing() {
    let args = VerifyArgs { note_id: Some("1".to_string()), all: false, namespace: Some("comments".to_string()) };
    assert_eq!(args.note_id.as_deref(), Some("1"));
    assert!(!args.all);
}

#[test]
fn test_parse_peer_address() {
    assert_eq!(parse_peer_address("192.168.1.10:9418", 9418), ("192.168.1.10".to_string(), 9418));
    assert_eq!(parse_peer_address("192.168.1.10", 9418), ("192.168.1.10".to_string(), 9418));
    assert_eq!(parse_peer_address("git://10.0.0.5:8000/", 9418), ("10.0.0.5".to_string(), 8000));
    assert_eq!(parse_peer_address("localhost:9999", 9418), ("localhost".to_string(), 9999));
}

#[test]
fn peer_address_with_bad_port_keeps_text() {
    assert_eq!(parse_peer_address("  host:99999 ", 9418), ("host:99999".to_string(), 9418));
    assert_eq!(parse_peer_address("host:", 7), ("host:".to_string(), 7));
}

#[test]
fn refspecs_and_names() {
    assert_eq!(temp_refspec("bundle_x"), "refs/notes/*:refs/notes/bundle_x/*");
    assert_eq!(temp_ref_prefix("p2p_y"), "refs/notes/p2p_y/");
    assert_eq!(remote_namespace_name("origin", &Namespace::Review), "origin_review_remote");
    assert_eq!(fetch_refspec("origin", &Namespace::Todos), "refs/notes/todos:refs/notes/origin_todos_remote");
    assert_eq!(peer_url("10.0.0.5", 8000), "git://10.0.0.5:8000/");
    assert_eq!(peer_label("10.0.0.5", 8000), "10.0.0.5:8000");
    assert_eq!(ref_suffix("refs/notes/tok/comments", "refs/notes/tok/"), "comments");
    assert_eq!(ref_suffix("refs/other", "refs/notes/tok/"), "refs/other");
}

#[test]
fn ref_listings_are_filtered() {
    let listing = "refs/notes/comments\nrefs/notes/bundle_1/comments\nrefs/notes/origin_review_remote\n refs/notes/todos \nrefs/heads/main\nrefs/notes/p2p_2/x\n";
    assert_eq!(exportable_note_refs(listing), vec!["refs/notes/comments".to_string(), "refs/notes/todos".to_string()]);
    assert_eq!(
        refs_with_prefix("refs/notes/tok/a\nrefs/notes/b\nrefs/notes/tok/c\n", "refs/notes/tok/"),
        vec!["refs/notes/tok/a".to_string(), "refs/notes/tok/c".to_string()]
    );
}

#[test]
fn retarget_moves_notes() {
    let n = Note::new("c".to_string(), None, None, None, "b".to_string(), "a".to_string(), Namespace::Custom("tok/comments".to_string()));
    let id = n.id;
    let out = retarget(vec![n], &Namespace::Comments);
    assert_eq!(out.len(), 1);
    assert_eq!(out[0].namespace, Namespace::Comments);
    assert_eq!(out[0].id, id);
}
