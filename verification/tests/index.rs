use bloxtree::error::{Error, IoError, IoErrorKind};
use bloxtree::index::{
    insert_entries, prefix_range, read_entries, read_hashes, read_versions, value_to_count,
    value_to_hash, value_to_path, value_to_uuid, Entry, EntryRow, Query, Value, VersionRow,
};
use bloxtree::list::{child_path, folder_listing, path_listing, CommonPrefixEntry};
use bloxtree::remove::{RemovePath, Sweep};
use bloxtree::talk::{Reply, Request, Step};
use bloxtree::text::{relate, same_text, Relation};
use bloxtree::uuid::Uuid;

fn hash(n: u8) -> bloxtree::hash::Hash {
    bloxtree::hash::Hash { bytes: [n; 32] }
}

fn uuid(n: u8) -> Uuid {
    Uuid { bytes: [n; 16] }
}

fn message<T>(r: Result<T, Error>) -> String {
    match r {
        Ok(_) => String::new(),
        Err(e) => e.message(),
    }
}

#[test]
fn hash_columns_are_blobs_of_a_fixed_length() {
    assert_eq!(value_to_hash(&Value::Blob(vec![7; 32])).unwrap(), hash(7));
    assert_eq!(message(value_to_hash(&Value::Blob(vec![7; 31]))), "hash has wrong length");
    assert_eq!(message(value_to_hash(&Value::Null)), "hash column is not a blob");
}

#[test]
fn uuid_columns_are_blobs_of_a_fixed_length() {
    assert_eq!(value_to_uuid(&Value::Blob(vec![7; 16])).unwrap(), uuid(7));
    assert_eq!(message(value_to_uuid(&Value::Blob(vec![7; 17]))), "uuid has wrong length");
    assert_eq!(
        message(value_to_uuid(&Value::Text("x".to_string()))),
        "uuid column is not a blob"
    );
}

#[test]
fn path_columns_are_text_in_blobs() {
    let bytes = "caf\u{e9}/\u{1f600}".as_bytes().to_vec();
    assert_eq!(value_to_path(&Value::Blob(bytes)).unwrap(), "caf\u{e9}/\u{1f600}");
    assert_eq!(
        message(value_to_path(&Value::Blob(vec![0x61, 0xff]))),
        "stored path is not valid UTF-8"
    );
    assert_eq!(message(value_to_path(&Value::Integer(1))), "path column is not a blob");
}

#[test]
fn counts_are_not_negative() {
    assert_eq!(value_to_count(Some(Value::Integer(3))).unwrap(), 3);
    assert_eq!(value_to_count(Some(Value::Integer(4294967295))).unwrap(), u32::MAX);
    assert_eq!(message(value_to_count(None)), "COUNT query returned no rows");
    for v in [Value::Integer(-1), Value::Integer(4294967296), Value::Real, Value::Null] {
        assert_eq!(message(value_to_count(Some(v))), "count is not a non-negative integer");
    }
}

#[test]
fn the_first_bad_row_counts() {
    let rows = vec![
        VersionRow { uuid: Value::Blob(vec![1; 16]), hash: Value::Blob(vec![2; 32]) },
        VersionRow { uuid: Value::Null, hash: Value::Null },
        VersionRow { uuid: Value::Null, hash: Value::Blob(vec![2; 32]) },
    ];
    assert_eq!(message(read_versions(&rows)), "hash column is not a blob");
    let good = read_versions(&vec![VersionRow {
        uuid: Value::Blob(vec![1; 16]),
        hash: Value::Blob(vec![2; 32]),
    }])
    .unwrap();
    assert_eq!(good.len(), 1);
    assert_eq!(good[0].uuid, uuid(1));
    assert_eq!(good[0].hash, hash(2));
    let entries = vec![EntryRow { path: Value::Null, uuid: Value::Null, hash: Value::Null }];
    assert_eq!(message(read_entries(&entries)), "path column is not a blob");
    let hashes = vec![Value::Blob(vec![2; 32]), Value::Blob(vec![2; 3])];
    assert_eq!(message(read_hashes(&hashes)), "hash has wrong length");
}

#[test]
fn an_insert_has_a_group_for_each_path() {
    let query = Query::Insert {
        paths: vec!["a".to_string(), "b".to_string()],
        uuid: uuid(1),
        hash: hash(2),
    };
    let s = query.statement();
    assert_eq!(
        s.sql,
        "INSERT OR IGNORE INTO paths(path, uuid, hash) VALUES (?, ?, ?), (?, ?, ?)"
    );
    assert_eq!(
        s.params,
        vec![
            b"a".to_vec(),
            vec![1; 16],
            vec![2; 32],
            b"b".to_vec(),
            vec![1; 16],
            vec![2; 32]
        ]
    );
    assert!(insert_entries(Vec::new(), hash(2), uuid(1)).is_none());
    assert!(insert_entries(vec!["a".to_string()], hash(2), uuid(1)).is_some());
}

#[test]
fn statements_are_as_written() {
    let path = || "p".to_string();
    let cases = vec![
        (
            Query::Latest { path: path() },
            "SELECT uuid, hash FROM paths WHERE path = ? ORDER BY uuid DESC LIMIT 1",
            vec![b"p".to_vec()],
        ),
        (
            Query::Versions { path: path() },
            "SELECT uuid, hash FROM paths WHERE path = ? ORDER BY uuid DESC",
            vec![b"p".to_vec()],
        ),
        (
            Query::Prefix { start: vec![1], end: vec![2] },
            "SELECT path, uuid, hash FROM paths WHERE path >= ? AND path < ? ORDER BY path, uuid",
            vec![vec![1], vec![2]],
        ),
        (
            Query::DeleteVersion { path: path(), hash: hash(3) },
            "DELETE FROM paths WHERE rowid = (SELECT rowid FROM paths WHERE path = ? AND hash = ? ORDER BY uuid ASC LIMIT 1)",
            vec![b"p".to_vec(), vec![3; 32]],
        ),
        (
            Query::Hashes { path: path() },
            "SELECT DISTINCT hash FROM paths WHERE path = ?",
            vec![b"p".to_vec()],
        ),
        (
            Query::DeletePath { path: path() },
            "DELETE FROM paths WHERE path = ?",
            vec![b"p".to_vec()],
        ),
        (
            Query::RefCount { hash: hash(3) },
            "SELECT COUNT(*) FROM paths WHERE hash = ?",
            vec![vec![3; 32]],
        ),
        (
            Query::Entries,
            "SELECT path, uuid, hash FROM paths ORDER BY path, uuid",
            vec![],
        ),
    ];
    for (query, sql, params) in cases {
        let s = query.statement();
        assert_eq!(s.sql, sql);
        assert_eq!(s.params, params);
    }
}

#[test]
fn ranges_end_one_byte_later() {
    assert_eq!(prefix_range("a/"), (b"a/".to_vec(), b"a0".to_vec()));
    assert_eq!(prefix_range(""), (vec![], vec![0xff]));
    assert_eq!(prefix_range("\u{bf}"), (vec![0xc2, 0xbf], vec![0xc2, 0xc0]));
}

#[test]
fn texts_are_ordered_as_strings_are() {
    let texts = [
        "", "a", "a-", "a/", "ab", "b", "\u{7f}", "\u{80}", "\u{e9}", "\u{7ff}", "\u{800}",
        "\u{ffff}", "\u{10000}", "\u{10ffff}",
    ];
    for a in texts {
        for b in texts {
            let expected = a.cmp(b);
            let found = match relate(a, b) {
                Relation::Before => std::cmp::Ordering::Less,
                Relation::Same => std::cmp::Ordering::Equal,
                Relation::After => std::cmp::Ordering::Greater,
            };
            assert_eq!(found, expected);
            assert_eq!(found, a.as_bytes().cmp(b.as_bytes()));
            assert_eq!(same_text(a, b), a == b);
        }
    }
}

fn entry(path: &str, n: u8) -> Entry {
    Entry { path: path.to_string(), uuid: uuid(n), hash: hash(n) }
}

fn shown(list: Vec<CommonPrefixEntry>) -> Vec<String> {
    list.into_iter()
        .map(|e| match e {
            CommonPrefixEntry::CommonPrefix { path } => format!("{path}/"),
            CommonPrefixEntry::Path(p) => format!("{} {}", p.path, p.hash.bytes[0]),
        })
        .collect()
}

#[test]
fn folder_listings_are_one_level_deep() {
    let entries = vec![
        entry("f/a", 1),
        entry("f/a", 3),
        entry("f/a-b", 4),
        entry("f/a/x", 5),
        entry("f/c/d/e", 6),
        entry("f/z", 9),
        entry("f/z", 8),
        entry("f/z", 9),
    ];
    assert_eq!(shown(folder_listing("f", &entries)), vec!["f/a/", "f/a-b 4", "f/c/", "f/z 9"]);
    assert!(shown(folder_listing("f", &Vec::new())).is_empty());
}

#[test]
fn root_listings_have_no_prefix() {
    let entries = vec![entry("a/b", 1), entry("c", 2), entry("b", 3)];
    assert_eq!(shown(folder_listing("", &entries)), vec!["a/", "b 3", "c 2"]);
}

#[test]
fn slashes_in_a_row_are_passed_over() {
    let entries = vec![entry("f//a", 1), entry("f/b//c", 2)];
    assert_eq!(shown(folder_listing("f", &entries)), vec!["f/a 1", "f/b/"]);
    assert_eq!(child_path("f", "a"), "f/a");
    assert_eq!(child_path("f/", "a"), "f/a");
    assert_eq!(child_path("", "a"), "a");
}

#[test]
fn a_name_of_several_paths_is_a_common_prefix() {
    let entries = vec![entry("a//b", 9), entry("a/b", 1)];
    assert_eq!(shown(folder_listing("a", &entries)), vec!["a/b/"]);
    let entries = vec![entry("a/b", 9), entry("a//b", 1), entry("a/b", 3), entry("a/c", 2)];
    assert_eq!(shown(folder_listing("a", &entries)), vec!["a/b/", "a/c 2"]);
    let entries = vec![entry("a//b", 1), entry("a//b", 4), entry("a//b", 3)];
    assert_eq!(shown(folder_listing("a", &entries)), vec!["a/b 4"]);
    let entries = vec![entry("a//b", 1), entry("a///b", 4)];
    assert_eq!(shown(folder_listing("a", &entries)), vec!["a/b/"]);
}

#[test]
fn of_equal_identifiers_the_first_counts() {
    let mut second = entry("a", 2);
    second.hash = hash(7);
    let entries = vec![entry("a", 1), entry("a", 2), second, entry("b", 1)];
    let list = path_listing(&entries);
    assert_eq!(list.len(), 2);
    assert_eq!(list[0].path, "a");
    assert_eq!(list[0].hash, hash(2));
    assert_eq!(list[1].path, "b");
}

#[test]
fn errors_have_messages() {
    let io = Error::Io(IoError { kind: IoErrorKind::Other, message: "broken".to_string() });
    assert_eq!(io.message(), "IO error: broken");
    assert_eq!(Error::Db("locked".to_string()).message(), "database error: locked");
    assert_eq!(Error::Utf8("bad".to_string()).message(), "UTF-8 error in stored key: bad");
    assert_eq!(Error::Other("x".to_string()).message(), "x");
    let e = Error::HashMismatch { expected: hash(0), actual: hash(255) };
    assert_eq!(
        e.message(),
        format!("hash mismatch: expected {}, got {}", "0".repeat(64), "f".repeat(64))
    );
}

#[test]
fn a_failure_ends_the_operation() {
    let failed = || Reply::Failed(Error::Db("gone".to_string()));
    match (RemovePath::ListingHashes { path: "p".to_string() }).resume(failed()) {
        Step::Done(Err(e)) => assert_eq!(e.message(), "database error: gone"),
        _ => panic!("went on"),
    }
    match (Sweep::Removing { hashes: vec![hash(1)], next: 1 }).resume(failed()) {
        Step::Done(Err(e)) => assert_eq!(e.message(), "database error: gone"),
        _ => panic!("went on"),
    }
    match (Sweep::Counting { hashes: vec![hash(1)], next: 0 }).resume(Reply::Count(None)) {
        Step::Done(Err(e)) => assert_eq!(e.message(), "COUNT query returned no rows"),
        _ => panic!("went on"),
    }
}

#[test]
fn a_sweep_removes_only_what_is_not_named() {
    let hashes = vec![hash(1), hash(2)];
    let step = (Sweep::Counting { hashes, next: 0 }).resume(Reply::Count(Some(Value::Integer(1))));
    match step {
        Step::Ask(Request::Index(Query::RefCount { hash: h }), task) => {
            assert_eq!(h, hash(2));
            match task.resume(Reply::Count(Some(Value::Integer(0)))) {
                Step::Ask(Request::RemoveBlob { hash: h }, task) => {
                    assert_eq!(h, hash(2));
                    assert!(matches!(task.resume(Reply::Done), Step::Done(Ok(()))));
                }
                _ => panic!("not removed"),
            }
        }
        _ => panic!("not counted"),
    }
}
