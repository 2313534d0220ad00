use bloxtree::add::AddResult;
use bloxtree::cli::{
    decimal_text, is_yes, offers_to_create, parse_hash, resolve_store, run_command, CliError,
    CliReply, CliRequest, CliStep, Command, Origin, Output,
};
use bloxtree::error::Error;
use bloxtree::index::VersionInfo;
use bloxtree::list::{CommonPrefixEntry, PathEntry};
use bloxtree::uuid::Uuid;

fn hash(n: u8) -> bloxtree::hash::Hash {
    bloxtree::hash::Hash { bytes: [n; 32] }
}

fn uuid(n: u8) -> Uuid {
    Uuid { bytes: [n; 16] }
}

fn hex(n: u8) -> String {
    format!("{n:02x}").repeat(32)
}

fn id(n: u8) -> String {
    let b = format!("{n:02x}");
    format!("{}-{}-{}-{}-{}", b.repeat(4), b.repeat(2), b.repeat(2), b.repeat(2), b.repeat(6))
}

/// Runs a command with the given replies.
fn run(command: Command, quiet: bool, replies: Vec<CliReply>) -> Result<Output, CliError> {
    let mut step = run_command(command, quiet, "/store");
    for reply in replies {
        step = match step {
            CliStep::Ask(_, task) => task.resume(reply),
            CliStep::Done(_) => panic!("done too early"),
        };
    }
    match step {
        CliStep::Done(r) => r,
        CliStep::Ask(request, _) => panic!("asks {request:?}"),
    }
}

fn failure(r: Result<Output, CliError>) -> (String, u8) {
    match r {
        Ok(_) => panic!("succeeded"),
        Err(e) => (e.message(), e.exit_code()),
    }
}

fn added() -> CliReply {
    CliReply::Added(Ok(AddResult { hash: hash(1), uuid: uuid(2), blob_already_existed: false }))
}

fn add(file: Option<&str>) -> Command {
    Command::Add { paths: vec!["a".to_string()], file: file.map(|f| f.to_string()) }
}

#[test]
fn add_prints_hash_and_identifier() {
    let out = run(add(None), false, vec![added()]).unwrap();
    assert_eq!(out.stdout, vec![format!("{}  {}", hex(1), id(2))]);
    assert!(out.stderr.is_empty());
    let quiet = run(add(None), true, vec![added()]).unwrap();
    assert!(quiet.stdout.is_empty());
}

#[test]
fn a_file_that_cannot_be_opened_is_named() {
    let r = run(add(Some("x.txt")), false, vec![CliReply::CannotOpen("no such file".to_string())]);
    assert_eq!(failure(r), ("cannot open x.txt: no such file".to_string(), 1));
    let r = run(add(None), false, vec![CliReply::Added(Err(Error::Other("bad".to_string())))]);
    assert_eq!(failure(r), ("bad".to_string(), 1));
}

#[test]
fn get_copies_and_counts() {
    let get = || Command::Get { path: "p".to_string(), hash: None };
    let replies = || vec![CliReply::Opened(Ok(true)), CliReply::Copied(Ok(1234))];
    let out = run(get(), false, replies()).unwrap();
    assert!(out.stdout.is_empty());
    assert_eq!(out.stderr, vec!["1234 bytes"]);
    assert!(run(get(), true, replies()).unwrap().stderr.is_empty());
    let r = run(get(), false, vec![CliReply::Opened(Ok(false))]);
    assert_eq!(failure(r), ("path not found: p".to_string(), 1));
    let r = run(
        get(),
        false,
        vec![CliReply::Opened(Ok(true)), CliReply::Copied(Err("disk full".to_string()))],
    );
    assert_eq!(failure(r), ("disk full".to_string(), 1));
}

fn versions(list: &[u8]) -> CliReply {
    CliReply::Versions(Ok(list
        .iter()
        .map(|n| VersionInfo { hash: hash(*n), uuid: uuid(*n) })
        .collect()))
}

#[test]
fn get_by_hash_takes_a_version_of_the_path() {
    let get = |h: String| Command::Get { path: "p".to_string(), hash: Some(h) };
    match run_command(get(hex(9)), false, "/store") {
        CliStep::Ask(CliRequest::Versions { path }, task) => {
            assert_eq!(path, "p");
            match task.resume(versions(&[7, 9])) {
                CliStep::Ask(CliRequest::OpenHash { hash: h }, _) => assert_eq!(h, hash(9)),
                _ => panic!("not opened"),
            }
        }
        _ => panic!("not looked for"),
    }
    let replies = || vec![versions(&[9]), CliReply::Opened(Ok(true)), CliReply::Copied(Ok(3))];
    assert_eq!(run(get(hex(9)), false, replies()).unwrap().stderr, vec!["3 bytes"]);
    let r = run(get(hex(9)), false, vec![versions(&[])]);
    assert_eq!(failure(r), ("path not found: p".to_string(), 1));
    let r = run(get(hex(9)), false, vec![versions(&[7, 8])]);
    assert_eq!(failure(r), (format!("hash not found: {}", hex(9)), 1));
    let r = run(get(hex(9)), false, vec![versions(&[9]), CliReply::Opened(Ok(false))]);
    assert_eq!(failure(r), (format!("hash not found: {}", hex(9)), 1));
    let refused = CliReply::Versions(Err(Error::InvalidPath("path is empty".to_string())));
    let r = run(get(hex(9)), false, vec![refused]);
    assert_eq!(failure(r), ("invalid path: path is empty".to_string(), 1));
    let r = run(get("xyz".to_string()), false, vec![]);
    assert_eq!(failure(r), ("invalid hex hash: xyz".to_string(), 2));
}

#[test]
fn remove_and_trim_print_nothing() {
    let remove = |h: Option<String>| Command::Remove { path: "p".to_string(), hash: h };
    let out = run(remove(None), false, vec![CliReply::Finished(Ok(()))]).unwrap();
    assert!(out.stdout.is_empty() && out.stderr.is_empty());
    match run_command(remove(Some(hex(3))), false, "/store") {
        CliStep::Ask(CliRequest::Remove { path, version }, _) => {
            assert_eq!(path, "p");
            assert_eq!(version, Some(hash(3)));
        }
        _ => panic!("not removed"),
    }
    assert_eq!(
        failure(run(remove(Some(String::new())), false, vec![])),
        ("invalid hex hash: ".to_string(), 2)
    );
    let trim = Command::Trim { path: "p".to_string(), max_versions: 3 };
    match run_command(trim, false, "/store") {
        CliStep::Ask(CliRequest::Trim { path, max_versions }, task) => {
            assert_eq!(path, "p");
            assert_eq!(max_versions, 3);
            let e = Error::InvalidPath("path is empty".to_string());
            match task.resume(CliReply::Finished(Err(e))) {
                CliStep::Done(r) => {
                    assert_eq!(failure(r), ("invalid path: path is empty".to_string(), 1))
                }
                CliStep::Ask(..) => panic!("went on"),
            }
        }
        _ => panic!("not trimmed"),
    }
}

#[test]
fn list_marks_prefixes_and_files() {
    match run_command(Command::List { prefix: None }, false, "/store") {
        CliStep::Ask(CliRequest::Folder { prefix }, _) => assert_eq!(prefix, ""),
        _ => panic!("not listed"),
    }
    let entries = vec![
        CommonPrefixEntry::CommonPrefix { path: "f/a".to_string() },
        CommonPrefixEntry::Path(PathEntry { path: "f/b".to_string(), hash: hash(1), uuid: uuid(2) }),
    ];
    let list = Command::List { prefix: Some("f".to_string()) };
    let out = run(list, true, vec![CliReply::Folder(Ok(entries))]).unwrap();
    assert_eq!(out.stdout, vec!["d  f/a/".to_string(), format!("f  f/b  {}", hex(1))]);
}

#[test]
fn paths_and_versions_are_lines() {
    let path = |p: &str, n: u8| PathEntry { path: p.to_string(), hash: hash(n), uuid: uuid(n) };
    let out =
        run(Command::Paths, false, vec![CliReply::Paths(Ok(vec![path("a", 1), path("b", 2)]))])
            .unwrap();
    assert_eq!(
        out.stdout,
        vec![format!("a  {}  {}", hex(1), id(1)), format!("b  {}  {}", hex(2), id(2))]
    );
    let versions = vec![
        VersionInfo { hash: hash(5), uuid: uuid(6) },
        VersionInfo { hash: hash(3), uuid: uuid(4) },
    ];
    let show = Command::Versions { path: "a".to_string() };
    let out = run(show, false, vec![CliReply::Versions(Ok(versions))]).unwrap();
    assert_eq!(
        out.stdout,
        vec![format!("1  {}  {}", hex(5), id(6)), format!("2  {}  {}", hex(3), id(4))]
    );
}

#[test]
fn info_counts_paths_versions_and_blobs() {
    let path = |p: &str| PathEntry { path: p.to_string(), hash: hash(1), uuid: uuid(1) };
    let replies = vec![
        CliReply::Paths(Ok(vec![path("a"), path("b"), path("c")])),
        versions(&[1, 2, 1]),
        CliReply::Versions(Err(Error::Other("gone".to_string()))),
        versions(&[2, 3]),
    ];
    let out = run(Command::Info, false, replies).unwrap();
    assert_eq!(
        out.stdout,
        vec![
            "store:    /store",
            "objects:  /store/objects",
            "index:    /store/index.db",
            "paths:    3",
            "versions: 5",
            "blobs:    3",
        ]
    );
    let none = run(Command::Info, false, vec![CliReply::Paths(Ok(vec![]))]).unwrap();
    assert_eq!(none.stdout[3], "paths:    0");
}

#[test]
fn a_wrong_reply_ends_the_command() {
    let r = run(Command::Paths, false, vec![CliReply::Finished(Ok(()))]);
    assert_eq!(failure(r), ("the reply does not answer the request".to_string(), 1));
}

#[test]
fn hashes_are_parsed_or_refused() {
    assert_eq!(parse_hash(&hex(0xab)).ok(), Some(hash(0xab)));
    assert!(parse_hash("00").is_err());
}

#[test]
fn numbers_are_decimal() {
    for n in [0, 7, 10, 99, 100, 1234567890, u64::MAX] {
        assert_eq!(decimal_text(n), n.to_string());
    }
}

#[test]
fn the_store_root_is_the_first_given() {
    assert_eq!(resolve_store(Some(1), Some(2), Some(3)), Some((1, Origin::Argument)));
    assert_eq!(resolve_store(None, Some(2), Some(3)), Some((2, Origin::Environment)));
    assert_eq!(resolve_store(None, None, Some(3)), Some((3, Origin::Default)));
    assert_eq!(resolve_store::<u8>(None, None, None), None);
    assert!(offers_to_create(Origin::Default, false));
    assert!(!offers_to_create(Origin::Default, true));
    assert!(!offers_to_create(Origin::Argument, false));
    assert!(!offers_to_create(Origin::Environment, false));
    assert!(is_yes("y\n"));
    assert!(is_yes("Yes"));
    assert!(!is_yes("n"));
    assert!(!is_yes(""));
}
