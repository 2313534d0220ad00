//! The index: one row for each version of each path.
//!
//! The rows live in a database outside the library. This module holds the
//! queries that the store puts to it, their SQL, and the decoding of what comes
//! back.

use vstd::prelude::*;
use vstd::slice::*;
use vstd::string::*;
use vstd::utf8::*;

use crate::error;
use crate::error::Error;
use crate::hash;
use crate::text;
use crate::utf8;
use crate::uuid;
use crate::uuid::Uuid;

verus! {

/// The tables of the index.
pub const SCHEMA: &'static str = "
CREATE TABLE IF NOT EXISTS paths (
    path BLOB NOT NULL,
    uuid BLOB NOT NULL,
    hash BLOB NOT NULL,
    PRIMARY KEY (path, uuid)
);
CREATE INDEX IF NOT EXISTS idx_paths_hash ON paths(hash);
";

/// A row of the index over mathematical values.
pub struct Row {
    pub path: Seq<char>,
    pub uuid: Seq<u8>,
    pub hash: Seq<u8>,
}

/// A version over mathematical values.
pub struct Version {
    pub hash: Seq<u8>,
    pub uuid: Seq<u8>,
}

/// A row of the index.
#[derive(Debug)]
pub struct Entry {
    pub path: String,
    pub uuid: Uuid,
    pub hash: hash::Hash,
}

impl View for Entry {
    type V = Row;

    open spec fn view(&self) -> Row {
        Row { path: self.path@, uuid: self.uuid@, hash: self.hash@ }
    }
}

/// A version of a path.
#[derive(Debug, Clone, Copy)]
pub struct VersionInfo {
    pub hash: hash::Hash,
    pub uuid: Uuid,
}

impl View for VersionInfo {
    type V = Version;

    open spec fn view(&self) -> Version {
        Version { hash: self.hash@, uuid: self.uuid@ }
    }
}

// ---------------------------------------------------------------------------
// Value decoding
// ---------------------------------------------------------------------------

/// A value of a database column. The number in a `Real` is never looked at.
#[derive(Debug)]
pub enum Value {
    Null,
    Integer(i64),
    Real,
    Text(String),
    Blob(Vec<u8>),
}

/// The hash in a column, or why there is none.
pub open spec fn hash_in(v: Value) -> Result<Seq<u8>, Seq<char>> {
    match v {
        Value::Blob(b) => if b@.len() == 32 {
            Ok(b@)
        } else {
            Err("hash has wrong length"@)
        },
        _ => Err("hash column is not a blob"@),
    }
}

/// The identifier in a column, or why there is none.
pub open spec fn uuid_in(v: Value) -> Result<Seq<u8>, Seq<char>> {
    match v {
        Value::Blob(b) => if b@.len() == 16 {
            Ok(b@)
        } else {
            Err("uuid has wrong length"@)
        },
        _ => Err("uuid column is not a blob"@),
    }
}

/// The path in a column, or why there is none.
pub open spec fn path_in(v: Value) -> Result<Seq<char>, Seq<char>> {
    match v {
        Value::Blob(b) => if valid_utf8(b@) {
            Ok(decode_utf8(b@))
        } else {
            Err("stored path is not valid UTF-8"@)
        },
        _ => Err("path column is not a blob"@),
    }
}

/// The count in the answer to a counting query, or why there is none.
pub open spec fn count_in(v: Option<Value>) -> Result<u32, Seq<char>> {
    match v {
        None => Err("COUNT query returned no rows"@),
        Some(Value::Integer(n)) => if 0 <= n <= u32::MAX {
            Ok(n as u32)
        } else {
            Err("count is not a non-negative integer"@)
        },
        Some(_) => Err("count is not a non-negative integer"@),
    }
}

/// `String::from_utf8` gives the text of valid UTF-8 and refuses other bytes.
#[verifier::external_body]
pub(crate) fn text_from_utf8(bytes: Vec<u8>) -> (r: Option<String>)
    ensures
        r is Some <==> valid_utf8(bytes@),
        r matches Some(s) ==> s@ == decode_utf8(bytes@),
{
    String::from_utf8(bytes).ok()
}

/// Reads a hash column.
pub fn value_to_hash(v: &Value) -> (r: Result<hash::Hash, Error>)
    ensures
        match hash_in(*v) {
            Ok(b) => r matches Ok(h) && h@ == b,
            Err(m) => r matches Err(e) && e@ == error::ErrorView::Other(m),
        },
{
    match v {
        Value::Blob(b) => {
            if b.len() != 32 {
                return Err(Error::Other("hash has wrong length".to_owned()));
            }
            let mut bytes: [u8; 32] = [0u8;32];
            let mut i: usize = 0;
            while i < 32
                invariant
                    i <= 32,
                    b@.len() == 32,
                    forall|j: int| 0 <= j < i ==> bytes@[j] == b@[j],
                decreases 32 - i,
            {
                bytes[i] = b[i];
                i += 1;
            }
            proof {
                assert(bytes@ =~= b@);
            }
            Ok(hash::Hash { bytes })
        },
        _ => Err(Error::Other("hash column is not a blob".to_owned())),
    }
}

/// Reads an identifier column.
pub fn value_to_uuid(v: &Value) -> (r: Result<Uuid, Error>)
    ensures
        match uuid_in(*v) {
            Ok(b) => r matches Ok(u) && u@ == b,
            Err(m) => r matches Err(e) && e@ == error::ErrorView::Other(m),
        },
{
    match v {
        Value::Blob(b) => {
            if b.len() != 16 {
                return Err(Error::Other("uuid has wrong length".to_owned()));
            }
            let mut bytes: [u8; 16] = [0u8;16];
            let mut i: usize = 0;
            while i < 16
                invariant
                    i <= 16,
                    b@.len() == 16,
                    forall|j: int| 0 <= j < i ==> bytes@[j] == b@[j],
                decreases 16 - i,
            {
                bytes[i] = b[i];
                i += 1;
            }
            proof {
                assert(bytes@ =~= b@);
            }
            Ok(Uuid { bytes })
        },
        _ => Err(Error::Other("uuid column is not a blob".to_owned())),
    }
}

/// Reads a path column.
pub fn value_to_path(v: &Value) -> (r: Result<String, Error>)
    ensures
        match path_in(*v) {
            Ok(p) => r matches Ok(s) && s@ == p,
            Err(m) => r matches Err(e) && e@ == error::ErrorView::Other(m),
        },
{
    match v {
        Value::Blob(b) => match text_from_utf8(slice_to_vec(b.as_slice())) {
            Some(s) => Ok(s),
            None => Err(Error::Other("stored path is not valid UTF-8".to_owned())),
        },
        _ => Err(Error::Other("path column is not a blob".to_owned())),
    }
}

/// Reads the answer to a counting query.
pub fn value_to_count(v: Option<Value>) -> (r: Result<u32, Error>)
    ensures
        match count_in(v) {
            Ok(n) => r == Ok::<u32, Error>(n),
            Err(m) => r matches Err(e) && e@ == error::ErrorView::Other(m),
        },
{
    match v {
        None => Err(Error::Other("COUNT query returned no rows".to_owned())),
        Some(Value::Integer(n)) => if 0 <= n && n <= u32::MAX as i64 {
            Ok(n as u32)
        } else {
            Err(Error::Other("count is not a non-negative integer".to_owned()))
        },
        Some(_) => Err(Error::Other("count is not a non-negative integer".to_owned())),
    }
}


// ---------------------------------------------------------------------------
// Row decoding
// ---------------------------------------------------------------------------

/// What comes back for one version: the columns `uuid` and `hash`.
#[derive(Debug)]
pub struct VersionRow {
    pub uuid: Value,
    pub hash: Value,
}

/// What comes back for one entry: the columns `path`, `uuid` and `hash`.
#[derive(Debug)]
pub struct EntryRow {
    pub path: Value,
    pub uuid: Value,
    pub hash: Value,
}

/// The version in a row. The hash is read first.
pub open spec fn version_in(row: VersionRow) -> Result<Version, Seq<char>> {
    match hash_in(row.hash) {
        Err(m) => Err(m),
        Ok(hash) => match uuid_in(row.uuid) {
            Err(m) => Err(m),
            Ok(uuid) => Ok(Version { hash, uuid }),
        },
    }
}

/// The entry in a row. The columns are read from left to right.
pub open spec fn entry_in(row: EntryRow) -> Result<Row, Seq<char>> {
    match path_in(row.path) {
        Err(m) => Err(m),
        Ok(path) => match uuid_in(row.uuid) {
            Err(m) => Err(m),
            Ok(uuid) => match hash_in(row.hash) {
                Err(m) => Err(m),
                Ok(hash) => Ok(Row { path, uuid, hash }),
            },
        },
    }
}

/// All readings succeed and these are the values, in order.
pub open spec fn all_read<A>(readings: Seq<Result<A, Seq<char>>>, values: Seq<A>) -> bool {
    &&& values.len() == readings.len()
    &&& forall|i: int| 0 <= i < readings.len() ==> #[trigger] readings[i] == Ok::<A, Seq<char>>(values[i])
}

/// The first reading that fails does so with the message `m`.
pub open spec fn first_failure<A>(readings: Seq<Result<A, Seq<char>>>, m: Seq<char>) -> bool {
    exists|i: int|
        {
            &&& 0 <= i < readings.len()
            &&& #[trigger] readings[i] == Err::<A, Seq<char>>(m)
            &&& forall|j: int| 0 <= j < i ==> #[trigger] readings[j] is Ok
        }
}

/// What was read is determined by the readings.
pub proof fn readings_agree<A>(readings: Seq<Result<A, Seq<char>>>, a: Seq<A>, b: Seq<A>)
    requires
        all_read(readings, a),
        all_read(readings, b),
    ensures
        a == b,
{
    assert forall|i: int| 0 <= i < a.len() implies a[i] == b[i] by {
        assert(readings[i] == Ok::<A, Seq<char>>(a[i]));
    }
    assert(a =~= b);
}

/// Where all readings succeed none fails.
pub proof fn no_failure<A>(readings: Seq<Result<A, Seq<char>>>, a: Seq<A>, m: Seq<char>)
    requires
        all_read(readings, a),
    ensures
        !first_failure(readings, m),
{
    if first_failure(readings, m) {
        let i = choose|i: int|
            {
                &&& 0 <= i < readings.len()
                &&& #[trigger] readings[i] == Err::<A, Seq<char>>(m)
                &&& forall|j: int| 0 <= j < i ==> #[trigger] readings[j] is Ok
            };
        assert(readings[i] == Ok::<A, Seq<char>>(a[i]));
    }
}

/// The rows read as versions.
pub open spec fn versions_in(rows: Seq<VersionRow>) -> Seq<Result<Version, Seq<char>>> {
    rows.map_values(|row: VersionRow| version_in(row))
}

/// The rows read as entries.
pub open spec fn entries_in(rows: Seq<EntryRow>) -> Seq<Result<Row, Seq<char>>> {
    rows.map_values(|row: EntryRow| entry_in(row))
}

/// The columns read as hashes.
pub open spec fn hashes_in(rows: Seq<Value>) -> Seq<Result<Seq<u8>, Seq<char>>> {
    rows.map_values(|v: Value| hash_in(v))
}

/// The views of a list of versions.
pub open spec fn version_views(list: Seq<VersionInfo>) -> Seq<Version> {
    list.map_values(|v: VersionInfo| v@)
}

/// The views of a list of entries.
pub open spec fn entry_views(list: Seq<Entry>) -> Seq<Row> {
    list.map_values(|e: Entry| e@)
}

/// The views of a list of hashes.
pub open spec fn hash_views(list: Seq<hash::Hash>) -> Seq<Seq<u8>> {
    list.map_values(|h: hash::Hash| h@)
}

/// Reads a row as a version.
pub fn read_version(row: &VersionRow) -> (r: Result<VersionInfo, Error>)
    ensures
        match version_in(*row) {
            Ok(v) => r matches Ok(x) && x@ == v,
            Err(m) => r matches Err(e) && e@ == error::ErrorView::Other(m),
        },
{
    match value_to_hash(&row.hash) {
        Err(e) => Err(e),
        Ok(hash) => match value_to_uuid(&row.uuid) {
            Err(e) => Err(e),
            Ok(uuid) => Ok(VersionInfo { hash, uuid }),
        },
    }
}

/// Reads a row as an entry.
pub fn read_entry(row: &EntryRow) -> (r: Result<Entry, Error>)
    ensures
        match entry_in(*row) {
            Ok(v) => r matches Ok(x) && x@ == v,
            Err(m) => r matches Err(e) && e@ == error::ErrorView::Other(m),
        },
{
    match value_to_path(&row.path) {
        Err(e) => Err(e),
        Ok(path) => match value_to_uuid(&row.uuid) {
            Err(e) => Err(e),
            Ok(uuid) => match value_to_hash(&row.hash) {
                Err(e) => Err(e),
                Ok(hash) => Ok(Entry { path, uuid, hash }),
            },
        },
    }
}

/// Reads the answer to a query for versions.
pub fn read_versions(rows: &Vec<VersionRow>) -> (r: Result<Vec<VersionInfo>, Error>)
    ensures
        match r {
            Ok(list) => all_read(versions_in(rows@), version_views(list@)),
            Err(e) => e@ matches error::ErrorView::Other(m) && first_failure(versions_in(rows@), m),
        },
{
    let mut list: Vec<VersionInfo> = Vec::new();
    let mut i: usize = 0;
    while i < rows.len()
        invariant
            i <= rows@.len(),
            list@.len() == i,
            forall|j: int| 0 <= j < i ==> version_in(#[trigger] rows@[j]) == Ok::<Version, Seq<char>>(list@[j]@),
        decreases rows@.len() - i,
    {
        match read_version(&rows[i]) {
            Ok(v) => list.push(v),
            Err(e) => {
                proof {
                    assert(versions_in(rows@)[i as int] is Err);
                    assert(forall|j: int| 0 <= j < i ==> versions_in(rows@)[j] == version_in(#[trigger] rows@[j]));
                }
                return Err(e);
            },
        }
        i += 1;
    }
    proof {
        assert(all_read(versions_in(rows@), version_views(list@)));
    }
    Ok(list)
}

/// Reads the answer to a query for entries.
pub fn read_entries(rows: &Vec<EntryRow>) -> (r: Result<Vec<Entry>, Error>)
    ensures
        match r {
            Ok(list) => all_read(entries_in(rows@), entry_views(list@)),
            Err(e) => e@ matches error::ErrorView::Other(m) && first_failure(entries_in(rows@), m),
        },
{
    let mut list: Vec<Entry> = Vec::new();
    let mut i: usize = 0;
    while i < rows.len()
        invariant
            i <= rows@.len(),
            list@.len() == i,
            forall|j: int| 0 <= j < i ==> entry_in(#[trigger] rows@[j]) == Ok::<Row, Seq<char>>(list@[j]@),
        decreases rows@.len() - i,
    {
        match read_entry(&rows[i]) {
            Ok(v) => list.push(v),
            Err(e) => {
                proof {
                    assert(entries_in(rows@)[i as int] is Err);
                    assert(forall|j: int| 0 <= j < i ==> entries_in(rows@)[j] == entry_in(#[trigger] rows@[j]));
                }
                return Err(e);
            },
        }
        i += 1;
    }
    proof {
        assert(all_read(entries_in(rows@), entry_views(list@)));
    }
    Ok(list)
}

/// Reads the answer to a query for hashes.
pub fn read_hashes(rows: &Vec<Value>) -> (r: Result<Vec<hash::Hash>, Error>)
    ensures
        match r {
            Ok(list) => all_read(hashes_in(rows@), hash_views(list@)),
            Err(e) => e@ matches error::ErrorView::Other(m) && first_failure(hashes_in(rows@), m),
        },
{
    let mut list: Vec<hash::Hash> = Vec::new();
    let mut i: usize = 0;
    while i < rows.len()
        invariant
            i <= rows@.len(),
            list@.len() == i,
            forall|j: int| 0 <= j < i ==> hash_in(#[trigger] rows@[j]) == Ok::<Seq<u8>, Seq<char>>(list@[j]@),
        decreases rows@.len() - i,
    {
        match value_to_hash(&rows[i]) {
            Ok(v) => list.push(v),
            Err(e) => {
                proof {
                    assert(hashes_in(rows@)[i as int] is Err);
                    assert(forall|j: int| 0 <= j < i ==> hashes_in(rows@)[j] == hash_in(#[trigger] rows@[j]));
                }
                return Err(e);
            },
        }
        i += 1;
    }
    proof {
        assert(all_read(hashes_in(rows@), hash_views(list@)));
    }
    Ok(list)
}

// ---------------------------------------------------------------------------
// Queries
// ---------------------------------------------------------------------------

/// What the store asks of the database.
#[derive(Debug)]
pub enum Query {
    /// Insert a row with the same identifier and hash for each path; a row
    /// whose path and identifier are already there is left as it is.
    Insert { paths: Vec<String>, uuid: Uuid, hash: hash::Hash },
    /// The newest version of a path.
    Latest { path: String },
    /// The versions of a path, newest first.
    Versions { path: String },
    /// The rows whose path lies in a range of bytes, by path and identifier.
    Prefix { start: Vec<u8>, end: Vec<u8> },
    /// Delete the oldest row with this path and hash.
    DeleteVersion { path: String, hash: hash::Hash },
    /// The hashes that occur at a path, each once.
    Hashes { path: String },
    /// Delete every row of a path.
    DeletePath { path: String },
    /// The number of rows with a hash.
    RefCount { hash: hash::Hash },
    /// All rows, by path and identifier.
    Entries,
}

/// An SQL statement with its parameters, all of them blobs.
#[derive(Debug)]
pub struct Statement {
    pub sql: String,
    pub params: Vec<Vec<u8>>,
}

/// `n` groups of placeholders, separated by commas.
pub open spec fn placeholders(n: nat) -> Seq<char>
    decreases n,
{
    if n == 0 {
        Seq::empty()
    } else if n == 1 {
        "(?, ?, ?)"@
    } else {
        placeholders((n - 1) as nat) + ", "@ + "(?, ?, ?)"@
    }
}

/// The texts of a list of strings.
pub open spec fn texts(list: Seq<String>) -> Seq<Seq<char>> {
    list.map_values(|s: String| s@)
}

/// The contents of a list of byte strings.
pub open spec fn blobs(list: Seq<Vec<u8>>) -> Seq<Seq<u8>> {
    list.map_values(|b: Vec<u8>| b@)
}

impl Query {
    /// The SQL of the query.
    pub open spec fn sql(self) -> Seq<char> {
        match self {
            Query::Insert { paths, .. } => "INSERT OR IGNORE INTO paths(path, uuid, hash) VALUES "@
                + placeholders(paths@.len()),
            Query::Latest { .. } =>
                "SELECT uuid, hash FROM paths WHERE path = ? ORDER BY uuid DESC LIMIT 1"@,
            Query::Versions { .. } =>
                "SELECT uuid, hash FROM paths WHERE path = ? ORDER BY uuid DESC"@,
            Query::Prefix { .. } =>
                "SELECT path, uuid, hash FROM paths WHERE path >= ? AND path < ? ORDER BY path, uuid"@,
            Query::DeleteVersion { .. } =>
                "DELETE FROM paths WHERE rowid = (SELECT rowid FROM paths WHERE path = ? AND hash = ? ORDER BY uuid ASC LIMIT 1)"@,
            Query::Hashes { .. } => "SELECT DISTINCT hash FROM paths WHERE path = ?"@,
            Query::DeletePath { .. } => "DELETE FROM paths WHERE path = ?"@,
            Query::RefCount { .. } => "SELECT COUNT(*) FROM paths WHERE hash = ?"@,
            Query::Entries => "SELECT path, uuid, hash FROM paths ORDER BY path, uuid"@,
        }
    }

    /// The values for the placeholders, in order.
    pub open spec fn params(self) -> Seq<Seq<u8>> {
        match self {
            Query::Insert { paths, uuid, hash } => Seq::new(
                3 * paths@.len(),
                |i: int|
                    if i % 3 == 0 {
                        encode_utf8(paths@[i / 3]@)
                    } else if i % 3 == 1 {
                        uuid@
                    } else {
                        hash@
                    },
            ),
            Query::Latest { path } => seq![encode_utf8(path@)],
            Query::Versions { path } => seq![encode_utf8(path@)],
            Query::Prefix { start, end } => seq![start@, end@],
            Query::DeleteVersion { path, hash } => seq![encode_utf8(path@), hash@],
            Query::Hashes { path } => seq![encode_utf8(path@)],
            Query::DeletePath { path } => seq![encode_utf8(path@)],
            Query::RefCount { hash } => seq![hash@],
            Query::Entries => seq![],
        }
    }

    /// The statement that puts the query to the database.
    pub fn statement(&self) -> (r: Statement)
        ensures
            r.sql@ == self.sql(),
            blobs(r.params@) == self.params(),
    {
        let mut params: Vec<Vec<u8>> = Vec::new();
        let sql = match self {
            Query::Insert { paths, uuid, hash } => {
                let mut sql = "INSERT OR IGNORE INTO paths(path, uuid, hash) VALUES ".to_owned();
                let ghost head = sql@;
                let mut i: usize = 0;
                while i < paths.len()
                    invariant
                        i <= paths@.len(),
                        sql@ == head + placeholders(i as nat),
                        params@.len() == 3 * i,
                        *self == (Query::Insert { paths: *paths, uuid: *uuid, hash: *hash }),
                        forall|j: int|
                            0 <= j < 3 * i ==> (#[trigger] params@[j])@ == self.params()[j],
                    decreases paths@.len() - i,
                {
                    if i > 0 {
                        sql.append(", ");
                    }
                    sql.append("(?, ?, ?)");
                    params.push(paths[i].as_str().as_bytes_vec());
                    params.push(slice_to_vec(uuid.bytes.as_slice()));
                    params.push(slice_to_vec(hash.bytes.as_slice()));
                    proof {
                        let k = i as int;
                        assert((3 * k) % 3 == 0 && (3 * k) / 3 == k);
                        assert((3 * k + 1) % 3 == 1 && (3 * k + 1) / 3 == k);
                        assert((3 * k + 2) % 3 == 2 && (3 * k + 2) / 3 == k);
                        assert(sql@ =~= head + placeholders((i + 1) as nat));
                    }
                    i += 1;
                }
                sql
            },
            Query::Latest { path } => {
                params.push(path.as_str().as_bytes_vec());
                "SELECT uuid, hash FROM paths WHERE path = ? ORDER BY uuid DESC LIMIT 1".to_owned()
            },
            Query::Versions { path } => {
                params.push(path.as_str().as_bytes_vec());
                "SELECT uuid, hash FROM paths WHERE path = ? ORDER BY uuid DESC".to_owned()
            },
            Query::Prefix { start, end } => {
                params.push(slice_to_vec(start.as_slice()));
                params.push(slice_to_vec(end.as_slice()));
                "SELECT path, uuid, hash FROM paths WHERE path >= ? AND path < ? ORDER BY path, uuid".to_owned()
            },
            Query::DeleteVersion { path, hash } => {
                params.push(path.as_str().as_bytes_vec());
                params.push(slice_to_vec(hash.bytes.as_slice()));
                "DELETE FROM paths WHERE rowid = (SELECT rowid FROM paths WHERE path = ? AND hash = ? ORDER BY uuid ASC LIMIT 1)".to_owned()
            },
            Query::Hashes { path } => {
                params.push(path.as_str().as_bytes_vec());
                "SELECT DISTINCT hash FROM paths WHERE path = ?".to_owned()
            },
            Query::DeletePath { path } => {
                params.push(path.as_str().as_bytes_vec());
                "DELETE FROM paths WHERE path = ?".to_owned()
            },
            Query::RefCount { hash } => {
                params.push(slice_to_vec(hash.bytes.as_slice()));
                "SELECT COUNT(*) FROM paths WHERE hash = ?".to_owned()
            },
            Query::Entries => "SELECT path, uuid, hash FROM paths ORDER BY path, uuid".to_owned(),
        };
        proof {
            assert(blobs(params@) =~= self.params());
        }
        Statement { sql, params }
    }
}

/// The query that records a new version of each path under one identifier, or
/// `None` where there is nothing to record.
pub fn insert_entries(paths: Vec<String>, hash: hash::Hash, uuid: Uuid) -> (r: Option<Query>)
    ensures
        r == (if paths@.len() == 0 {
            None::<Query>
        } else {
            Some(Query::Insert { paths, uuid, hash })
        }),
{
    if paths.is_empty() {
        None
    } else {
        Some(Query::Insert { paths, uuid, hash })
    }
}

// ---------------------------------------------------------------------------
// Ranges
// ---------------------------------------------------------------------------

/// The end of the half-open range of byte strings that begin with `start`.
pub open spec fn range_end(start: Seq<u8>) -> Seq<u8> {
    if start.len() == 0 {
        seq![0xffu8]
    } else {
        start.drop_last().push(
            if start.last() == 0xff {
                0u8
            } else {
                (start.last() + 1) as u8
            },
        )
    }
}

/// `s` lies in the half-open range from `start` to `end`, in byte order.
pub open spec fn in_range(s: Seq<u8>, start: Seq<u8>, end: Seq<u8>) -> bool {
    !text::before(text::octets(s), text::octets(start)) && text::before(
        text::octets(s),
        text::octets(end),
    )
}

/// Byte-exact half-open range [prefix, prefix with last byte incremented).
pub fn prefix_range(prefix: &str) -> (r: (Vec<u8>, Vec<u8>))
    ensures
        r.0@ == encode_utf8(prefix@),
        r.1@ == range_end(encode_utf8(prefix@)),
{
    let start = prefix.as_bytes_vec();
    let mut end = prefix.as_bytes_vec();
    match end.pop() {
        Some(last) => {
            end.push(last.wrapping_add(1));
        },
        None => {
            end.push(0xff);
        },
    }
    proof {
        assert(end@ =~= range_end(start@));
    }
    (start, end)
}

/// The range of a prefix holds exactly the paths that begin with it.
pub proof fn prefix_range_is_exact(prefix: Seq<char>, path: Seq<char>)
    ensures
        in_range(encode_utf8(path), encode_utf8(prefix), range_end(encode_utf8(prefix)))
            <==> text::has_prefix(path, prefix),
{
    let p = text::octets(encode_utf8(prefix));
    let s = text::octets(encode_utf8(path));
    let end = text::octets(range_end(encode_utf8(prefix)));
    let m = p.len() - 1;
    utf8::encode_below_ff(prefix);
    utf8::encode_below_ff(path);
    utf8::encode_prefix(path, prefix);
    if p.len() == 0 {
        assert(prefix.len() == 0) by {
            if prefix.len() > 0 {
                encode_utf8_first_scalar(prefix);
            }
        }
        assert(path.take(0) =~= prefix);
        assert(s.take(0) =~= end.take(0));
        assert(text::smaller_at(s, end, 0));
    } else {
        assert(end.len() == p.len());
        assert(end.take(m) =~= p.take(m));
        assert(end[m] == p[m] + 1);
        if text::has_prefix(path, prefix) {
            assert(s.take(p.len() as int) =~= p) by {
                assert(encode_utf8(path).take(p.len() as int) == encode_utf8(prefix));
                assert forall|i: int| 0 <= i < p.len() implies s[i] == p[i] by {
                    assert(encode_utf8(path).take(p.len() as int)[i] == encode_utf8(prefix)[i]);
                }
            }
            assert forall|i: int| 0 <= i < p.len() implies s[i] == p[i] by {
                assert(s.take(p.len() as int)[i] == p[i]);
            }
            assert(s.take(m) =~= end.take(m));
            assert(text::smaller_at(s, end, m));
        }
        if in_range(encode_utf8(path), encode_utf8(prefix), range_end(encode_utf8(prefix))) {
            let k = choose|k: int| text::smaller_at(s, end, k);
            if k < m {
                assert(p[k] == p.take(m)[k] && end[k] == end.take(m)[k]);
                assert(s.take(k) =~= p.take(k)) by {
                    assert(end.take(k) =~= end.take(m).take(k));
                    assert(p.take(k) =~= p.take(m).take(k));
                }
                assert(text::smaller_at(s, p, k));
            }
            assert(k == m);
            if m == s.len() || s[m] < p[m] {
                assert(text::smaller_at(s, p, m));
            }
            assert(encode_utf8(path).take(p.len() as int) =~= encode_utf8(prefix)) by {
                assert forall|i: int| 0 <= i < p.len() implies encode_utf8(path)[i] == encode_utf8(
                    prefix,
                )[i] by {
                    if i < m {
                        assert(s.take(m)[i] == p.take(m)[i]);
                    }
                    assert(s[i] == p[i]);
                }
            }
        }
    }
}

} // verus!
