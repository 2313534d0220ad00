use std::cell::RefCell;
use std::collections::HashMap;
use std::io::{Cursor, Read, Write};
use std::path::PathBuf;
use std::rc::Rc;
use std::time::{Duration, Instant, SystemTime, UNIX_EPOCH};

use bloxtree::add::{Add, AddResult};
use bloxtree::error::{Error, IoError, IoErrorKind};
use bloxtree::get::{GetBytes, GetReader, PathStat, StatPath};
use bloxtree::hash::blob_path;
use bloxtree::index::{EntryRow, Query, Value, VersionInfo, VersionRow, SCHEMA};
use bloxtree::list::{CommonPrefixEntry, ListFolder, ListPaths, ListVersions, PathEntry};
use bloxtree::reader::BloxtreeReader;
use bloxtree::remove::{RemoveFolder, RemovePath, TrimPath};
use bloxtree::store::{BlobStore, DeleteBlob, OpenStore, Source, StatBlob, StoreBlob, Stored};
use bloxtree::talk::{BlobStat, Folder, Reply, Request, Step, Timestamp, READ_CHUNK};
use bloxtree::tree::{Bloxtree, Open, Shutdown};

use tempfile::{NamedTempFile, TempDir, TempPath};
use tokio::runtime::Runtime;

/// The blobs on disk, by path. Dropping one deletes its file.
type Blobs = Rc<RefCell<HashMap<PathBuf, NamedTempFile>>>;

/// Carries out requests in a directory, with a real database.
struct Disk {
    rt: Runtime,
    root: PathBuf,
    conn: Option<turso::Connection>,
    blobs: Blobs,
    temp: Option<NamedTempFile>,
    input: Box<dyn Read>,
    open: Option<Box<dyn Read>>,
    asked: usize,
}

fn io_error(e: std::io::Error) -> Error {
    let kind = match e.kind() {
        std::io::ErrorKind::NotFound => IoErrorKind::NotFound,
        std::io::ErrorKind::AlreadyExists => IoErrorKind::AlreadyExists,
        std::io::ErrorKind::InvalidData => IoErrorKind::InvalidData,
        _ => IoErrorKind::Other,
    };
    Error::Io(IoError { kind, message: e.to_string() })
}

fn missing() -> Reply {
    Reply::Failed(Error::Io(IoError {
        kind: IoErrorKind::NotFound,
        message: "no such file".to_string(),
    }))
}

fn value(v: turso::Value) -> Value {
    match v {
        turso::Value::Null => Value::Null,
        turso::Value::Integer(n) => Value::Integer(n),
        turso::Value::Real(_) => Value::Real,
        turso::Value::Text(s) => Value::Text(s),
        turso::Value::Blob(b) => Value::Blob(b),
    }
}

fn timestamp(t: SystemTime) -> Timestamp {
    let d = t.duration_since(UNIX_EPOCH).unwrap();
    Timestamp { seconds: d.as_secs() as i64, nanos: d.subsec_nanos() }
}

fn done(r: Result<(), std::io::Error>) -> Reply {
    match r {
        Ok(()) => Reply::Done,
        Err(e) => Reply::Failed(io_error(e)),
    }
}

impl Disk {
    fn new(root: PathBuf, blobs: Blobs) -> Disk {
        Disk {
            rt: Runtime::new().unwrap(),
            root,
            conn: None,
            blobs,
            temp: None,
            input: Box::new(std::io::empty()),
            open: None,
            asked: 0,
        }
    }

    fn objects(&self) -> PathBuf {
        self.root.join("objects")
    }

    fn blob(&self, hash: &bloxtree::hash::Hash) -> PathBuf {
        let (dir, file) = blob_path(hash);
        self.objects().join(dir).join(file)
    }

    fn make_dir(&self, parent: PathBuf, name: &str) -> Reply {
        match tempfile::Builder::new().prefix(name).rand_bytes(0).tempdir_in(parent) {
            Ok(dir) => {
                let _ = dir.keep();
                Reply::Done
            }
            Err(e) => Reply::Failed(io_error(e)),
        }
    }

    fn rows(&self, query: &Query) -> Result<Vec<Vec<Value>>, turso::Error> {
        let statement = query.statement();
        let params: Vec<turso::Value> =
            statement.params.into_iter().map(turso::Value::Blob).collect();
        let conn = self.conn.as_ref().unwrap();
        self.rt.block_on(async {
            let mut rows = conn.query(statement.sql, turso::params_from_iter(params)).await?;
            let mut out = Vec::new();
            while let Some(row) = rows.next().await? {
                let mut values = Vec::new();
                let mut i = 0;
                while i < row.column_count() {
                    values.push(value(row.get_value(i)?));
                    i += 1;
                }
                out.push(values);
            }
            Ok(out)
        })
    }

    fn query(&self, query: Query) -> Reply {
        let changes = matches!(
            query,
            Query::Insert { .. } | Query::DeleteVersion { .. } | Query::DeletePath { .. }
        );
        if changes {
            let statement = query.statement();
            let params: Vec<turso::Value> =
                statement.params.into_iter().map(turso::Value::Blob).collect();
            let conn = self.conn.as_ref().unwrap();
            let changed = self
                .rt
                .block_on(async { conn.execute(statement.sql, turso::params_from_iter(params)).await });
            return match changed {
                Ok(n) => Reply::Changed(n),
                Err(e) => Reply::Failed(Error::Db(e.to_string())),
            };
        }
        let rows = match self.rows(&query) {
            Ok(rows) => rows,
            Err(e) => return Reply::Failed(Error::Db(e.to_string())),
        };
        match query {
            Query::Latest { .. } | Query::Versions { .. } => {
                let mut out = Vec::new();
                for mut row in rows {
                    let hash = row.pop().unwrap();
                    let uuid = row.pop().unwrap();
                    out.push(VersionRow { uuid, hash });
                }
                Reply::Versions(out)
            }
            Query::Prefix { .. } | Query::Entries => {
                let mut out = Vec::new();
                for mut row in rows {
                    let hash = row.pop().unwrap();
                    let uuid = row.pop().unwrap();
                    let path = row.pop().unwrap();
                    out.push(EntryRow { path, uuid, hash });
                }
                Reply::Entries(out)
            }
            Query::Hashes { .. } => {
                Reply::Hashes(rows.into_iter().map(|mut row| row.pop().unwrap()).collect())
            }
            _ => Reply::Count(rows.into_iter().next().map(|mut row| row.pop().unwrap())),
        }
    }

    fn chunk(reader: &mut dyn Read) -> Reply {
        let mut buf = vec![0u8; READ_CHUNK];
        match reader.read(&mut buf) {
            Ok(n) => {
                buf.truncate(n);
                Reply::Chunk(buf)
            }
            Err(e) => Reply::Failed(io_error(e)),
        }
    }

    fn perform(&mut self, request: Request) -> Reply {
        self.asked += 1;
        match request {
            Request::RootExists => Reply::Answer(self.root.exists()),
            Request::RootIsDirectory => Reply::Answer(self.root.is_dir()),
            Request::CreateDirectory { folder } => match folder {
                Folder::Objects => self.make_dir(self.root.clone(), "objects"),
                Folder::Temporary => self.make_dir(self.objects(), "tmp"),
            },
            Request::IndexPathIsText => Reply::Answer(self.root.join("index.db").to_str().is_some()),
            Request::OpenIndex => {
                let path = self.root.join("index.db");
                let opened = self.rt.block_on(async {
                    let db = turso::Builder::new_local(path.to_str().unwrap())
                        .experimental_multiprocess_wal(true)
                        .build()
                        .await?;
                    db.connect()
                });
                match opened {
                    Ok(conn) => {
                        self.conn = Some(conn);
                        Reply::Done
                    }
                    Err(e) => Reply::Failed(Error::Db(e.to_string())),
                }
            }
            Request::ApplySchema => {
                let conn = self.conn.as_ref().unwrap();
                match self.rt.block_on(async { conn.execute_batch(SCHEMA).await }) {
                    Ok(()) => Reply::Done,
                    Err(e) => Reply::Failed(Error::Db(e.to_string())),
                }
            }
            Request::Index(query) => self.query(query),
            Request::FlushIndex => match self.conn.as_ref().unwrap().cacheflush() {
                Ok(()) => Reply::Done,
                Err(e) => Reply::Failed(Error::Db(e.to_string())),
            },
            Request::CreateTemp => match NamedTempFile::new_in(self.objects().join("tmp")) {
                Ok(file) => {
                    self.temp = Some(file);
                    Reply::Done
                }
                Err(e) => Reply::Failed(io_error(e)),
            },
            Request::ReadInput => Disk::chunk(self.input.as_mut()),
            Request::WriteTemp { data } => done(self.temp.as_mut().unwrap().write_all(&data)),
            Request::BlobExists { hash } => Reply::Answer(self.blob(&hash).exists()),
            Request::CreateBlobDirectory { hash } => {
                let (dir, _) = blob_path(&hash);
                self.make_dir(self.objects(), &dir)
            }
            Request::SyncTemp => done(self.temp.as_ref().unwrap().as_file().sync_all()),
            Request::PersistTemp { hash } => {
                let path = self.blob(&hash);
                match self.temp.take().unwrap().persist(&path) {
                    Ok(file) => {
                        let kept = TempPath::try_from_path(path.clone()).unwrap();
                        let named = NamedTempFile::from_parts(file, kept);
                        self.blobs.borrow_mut().insert(path, named);
                        Reply::Done
                    }
                    Err(e) => {
                        self.temp = Some(e.file);
                        Reply::Failed(io_error(e.error))
                    }
                }
            }
            Request::DiscardTemp => {
                self.temp = None;
                Reply::Done
            }
            Request::OpenBlob { hash } => match self.blobs.borrow().get(&self.blob(&hash)) {
                None => missing(),
                Some(file) => {
                    self.open = Some(Box::new(file.reopen().unwrap()));
                    Reply::Done
                }
            },
            Request::ReadBlob => Disk::chunk(self.open.as_mut().unwrap().as_mut()),
            Request::RemoveBlob { hash } => {
                match self.blobs.borrow_mut().remove(&self.blob(&hash)) {
                    None => missing(),
                    Some(file) => done(file.close()),
                }
            }
            Request::StatBlob { hash } => match self.blobs.borrow().get(&self.blob(&hash)) {
                None => missing(),
                Some(file) => {
                    let meta = file.as_file().metadata().unwrap();
                    let created = meta.created().or(meta.modified()).unwrap();
                    Reply::Stat(BlobStat { size: meta.len(), created_at: timestamp(created) })
                }
            },
        }
    }

    fn run<T, R>(&mut self, first: Step<T, R>, resume: fn(T, Reply) -> Step<T, R>) -> Result<R, Error> {
        let mut step = first;
        loop {
            match step {
                Step::Done(r) => return r,
                Step::Ask(request, task) => {
                    let reply = self.perform(request);
                    step = resume(task, reply);
                }
            }
        }
    }
}

/// A store with the disk that it is on.
struct Tree {
    bt: Bloxtree,
    disk: Disk,
}

impl Tree {
    fn open_in(root: PathBuf, blobs: Blobs) -> Result<Tree, Error> {
        let mut disk = Disk::new(root, blobs);
        let shown = disk.root.display().to_string();
        let bt = disk.run(Bloxtree::open(&shown), Open::resume)?;
        Ok(Tree { bt, disk })
    }

    fn add_bytes(&mut self, path: &str, data: &[u8]) -> Result<AddResult, Error> {
        let first = self.bt.add_bytes(path, data);
        self.disk.run(first, Add::resume)
    }

    fn add_bytes_to(&mut self, paths: &[&str], data: &[u8]) -> Result<AddResult, Error> {
        let first = self.bt.add_bytes_to(paths, data);
        self.disk.run(first, Add::resume)
    }

    fn add_reader(&mut self, path: &str, data: Vec<u8>) -> Result<AddResult, Error> {
        self.disk.input = Box::new(Cursor::new(data));
        let first = self.bt.add_reader(path);
        self.disk.run(first, Add::resume)
    }

    fn add_reader_to(&mut self, paths: &[&str], data: Vec<u8>) -> Result<AddResult, Error> {
        self.disk.input = Box::new(Cursor::new(data));
        let first = self.bt.add_reader_to(paths);
        self.disk.run(first, Add::resume)
    }

    fn get_bytes(&mut self, path: &str) -> Result<Option<Vec<u8>>, Error> {
        self.disk.run(self.bt.get_bytes(path), GetBytes::resume)
    }

    fn remove_path(&mut self, path: &str, hash: Option<bloxtree::hash::Hash>) -> Result<(), Error> {
        let first = self.bt.remove_path(path, hash);
        self.disk.run(first, RemovePath::resume)
    }

    fn remove_folder(&mut self, folder: &str) -> Result<(), Error> {
        let first = self.bt.remove_folder(folder);
        self.disk.run(first, RemoveFolder::resume)
    }

    fn trim_path(&mut self, path: &str, keep: u8) -> Result<(), Error> {
        let first = self.bt.trim_path(path, keep);
        self.disk.run(first, TrimPath::resume)
    }

    fn list_folder(&mut self, folder: &str) -> Result<Vec<CommonPrefixEntry>, Error> {
        self.disk.run(self.bt.list_folder(folder), ListFolder::resume)
    }

    fn list_paths(&mut self) -> Result<Vec<PathEntry>, Error> {
        self.disk.run(self.bt.list_paths(), ListPaths::resume)
    }

    fn versions(&mut self, path: &str) -> Result<Vec<VersionInfo>, Error> {
        self.disk.run(self.bt.versions(path), ListVersions::resume)
    }

    fn stat_path(&mut self, path: &str) -> Result<Option<PathStat>, Error> {
        self.disk.run(self.bt.stat_path(path), StatPath::resume)
    }

    fn stat(&mut self, hash: bloxtree::hash::Hash) -> Result<BlobStat, Error> {
        self.disk.run(self.bt.store.stat(hash), StatBlob::resume)
    }
}

fn no_blobs() -> Blobs {
    Rc::new(RefCell::new(HashMap::new()))
}

fn temp_bloxtree() -> (TempDir, Tree) {
    let dir = TempDir::new().unwrap();
    let bt = Tree::open_in(dir.path().to_path_buf(), no_blobs()).unwrap();
    (dir, bt)
}

/// Lets the clock of the identifiers move on.
fn wait() {
    let start = Instant::now();
    while start.elapsed() < Duration::from_millis(5) {}
}

// ---------------------------------------------------------------------------
// The store
// ---------------------------------------------------------------------------

#[test]
fn open_fails_on_nonexistent_root() {
    let root = PathBuf::from("/tmp/__bloxtree_nonexistent_dir_xyzzy__");
    assert!(Tree::open_in(root, no_blobs()).is_err());
}

#[test]
fn open_says_what_is_wrong_with_the_root() {
    let root = PathBuf::from("/tmp/__bloxtree_nonexistent_dir_xyzzy__");
    match Tree::open_in(root, no_blobs()) {
        Ok(_) => panic!("opened"),
        Err(e) => assert_eq!(
            e.message(),
            "root directory does not exist: /tmp/__bloxtree_nonexistent_dir_xyzzy__"
        ),
    }
    let file = NamedTempFile::new().unwrap();
    match Tree::open_in(file.path().to_path_buf(), no_blobs()) {
        Ok(_) => panic!("opened"),
        Err(e) => assert_eq!(
            e.message(),
            format!("root is not a directory: {}", file.path().display())
        ),
    }
}

#[test]
fn open_makes_the_directories_and_opens_again() {
    let dir = TempDir::new().unwrap();
    let root = dir.path().to_path_buf();
    drop(Tree::open_in(root.clone(), no_blobs()).unwrap());
    assert!(root.join("objects").join("tmp").is_dir());
    assert!(root.join("index.db").exists());
    let again = Tree::open_in(root.clone(), no_blobs()).unwrap();
    assert_eq!(again.bt.root, root.display().to_string());
    let Tree { bt, mut disk } = again;
    assert!(disk.run(bt.shutdown(), Shutdown::resume).is_ok());
}

#[test]
fn add_and_get_bytes() {
    let (_dir, mut bt) = temp_bloxtree();
    let r = bt.add_bytes("test/greeting.txt", b"hello world").unwrap();
    assert!(!r.blob_already_existed);
    assert_eq!(bt.get_bytes("test/greeting.txt").unwrap().unwrap(), b"hello world");
}

#[test]
fn get_bytes_missing() {
    let (_dir, mut bt) = temp_bloxtree();
    assert!(bt.get_bytes("nonexistent").unwrap().is_none());
}

#[test]
fn add_duplicate_content() {
    let (_dir, mut bt) = temp_bloxtree();
    let r1 = bt.add_bytes("path/a", b"hello").unwrap();
    assert!(!r1.blob_already_existed);
    let r2 = bt.add_bytes("path/b", b"hello").unwrap();
    assert!(r2.blob_already_existed);
    assert_eq!(r1.hash, r2.hash);
    assert_eq!(bt.disk.blobs.borrow().len(), 1);
}

#[test]
fn hash_is_that_of_the_content() {
    let (_dir, mut bt) = temp_bloxtree();
    let r = bt.add_bytes("a", b"hello").unwrap();
    assert_eq!(r.hash.bytes, *blake3::hash(b"hello").as_bytes());
    assert_eq!(r.uuid.bytes[6] >> 4, 7);
    assert_eq!(r.uuid.bytes[8] >> 6, 2);
}

#[test]
fn long_content_comes_back() {
    let (_dir, mut bt) = temp_bloxtree();
    let mut data: Vec<u8> = Vec::new();
    let mut i: u32 = 0;
    while i < 20000 {
        data.push((i % 251) as u8);
        i += 1;
    }
    let r = bt.add_bytes("bytes", &data).unwrap();
    assert_eq!(bt.get_bytes("bytes").unwrap().unwrap(), data);
    let s = bt.add_reader("reader", data.clone()).unwrap();
    assert_eq!(r.hash, s.hash);
    assert!(s.blob_already_existed);
    let t = bt.add_reader_to(&["x", "y"], vec![7u8; READ_CHUNK]).unwrap();
    assert!(!t.blob_already_existed);
    assert_eq!(bt.get_bytes("y").unwrap().unwrap(), vec![7u8; READ_CHUNK]);
    let e = bt.add_bytes("empty", b"").unwrap();
    assert_eq!(e.hash.bytes, *blake3::hash(b"").as_bytes());
    assert_eq!(bt.get_bytes("empty").unwrap().unwrap(), b"");
}

#[test]
fn one_version_for_all_paths() {
    let (_dir, mut bt) = temp_bloxtree();
    let r = bt.add_bytes_to(&["a", "b/c", "a"], b"data").unwrap();
    for path in ["a", "b/c"] {
        let v = bt.versions(path).unwrap();
        assert_eq!(v.len(), 1);
        assert_eq!(v[0].hash, r.hash);
        assert_eq!(v[0].uuid, r.uuid);
    }
    assert_eq!(bt.list_paths().unwrap().len(), 2);
}

#[test]
fn no_paths_are_refused() {
    let (_dir, mut bt) = temp_bloxtree();
    match bt.add_bytes_to(&[], b"data") {
        Ok(_) => panic!("added"),
        Err(e) => assert_eq!(e.message(), "no paths given"),
    }
    match bt.add_bytes_to(&["ok", "", "/x"], b"data") {
        Ok(_) => panic!("added"),
        Err(e) => assert_eq!(e.message(), "invalid path: path is empty"),
    }
    assert!(bt.list_paths().unwrap().is_empty());
    assert!(bt.disk.blobs.borrow().is_empty());
}

#[test]
fn remove_path_all_versions() {
    let (_dir, mut bt) = temp_bloxtree();
    let r = bt.add_bytes("rm/me.txt", b"data").unwrap();
    bt.remove_path("rm/me.txt", None).unwrap();
    assert!(bt.get_bytes("rm/me.txt").unwrap().is_none());
    assert!(bt.stat(r.hash).is_err());
}

#[test]
fn remove_path_specific_version() {
    let (_dir, mut bt) = temp_bloxtree();
    let v1 = bt.add_bytes("multi/ver.txt", b"v1").unwrap();
    wait();
    bt.add_bytes("multi/ver.txt", b"v2").unwrap();
    bt.remove_path("multi/ver.txt", Some(v1.hash)).unwrap();
    assert_eq!(bt.get_bytes("multi/ver.txt").unwrap().unwrap(), b"v2");
    assert!(bt.stat(v1.hash).is_err());
}

#[test]
fn a_blob_stays_while_a_path_names_it() {
    let (_dir, mut bt) = temp_bloxtree();
    let r = bt.add_bytes("one", b"shared").unwrap();
    bt.add_bytes("two", b"shared").unwrap();
    bt.remove_path("one", None).unwrap();
    assert!(bt.stat(r.hash).is_ok());
    assert_eq!(bt.get_bytes("two").unwrap().unwrap(), b"shared");
    bt.remove_path("two", None).unwrap();
    assert!(bt.stat(r.hash).is_err());
}

#[test]
fn one_row_goes_with_a_version() {
    let (_dir, mut bt) = temp_bloxtree();
    let r1 = bt.add_bytes("x", b"same").unwrap();
    let r2 = bt.add_bytes("x", b"same").unwrap();
    bt.remove_path("x", Some(r1.hash)).unwrap();
    let v = bt.versions("x").unwrap();
    assert_eq!(v.len(), 1);
    assert_eq!(v[0].uuid, r2.uuid);
    assert!(bt.stat(r1.hash).is_ok());
    bt.remove_path("x", Some(r1.hash)).unwrap();
    assert!(bt.stat(r1.hash).is_err());
    bt.remove_path("x", Some(r1.hash)).unwrap();
}

#[test]
fn a_missing_blob_counts_as_removed() {
    let (_dir, mut bt) = temp_bloxtree();
    bt.add_bytes("x", b"data").unwrap();
    bt.disk.blobs.borrow_mut().clear();
    assert!(bt.remove_path("x", None).is_ok());
    assert!(bt.versions("x").unwrap().is_empty());
}

#[test]
fn remove_folder_takes_what_is_below() {
    let (_dir, mut bt) = temp_bloxtree();
    bt.add_bytes("f/a", b"1").unwrap();
    bt.add_bytes("f/b/c", b"2").unwrap();
    bt.add_bytes("f", b"3").unwrap();
    bt.add_bytes("f0", b"4").unwrap();
    bt.add_bytes("f.txt", b"5").unwrap();
    bt.add_bytes("f/a", b"6").unwrap();
    bt.remove_folder("f").unwrap();
    let left: Vec<String> = bt.list_paths().unwrap().into_iter().map(|e| e.path).collect();
    assert_eq!(left, vec!["f", "f.txt", "f0"]);
    assert_eq!(bt.disk.blobs.borrow().len(), 3);
    assert!(bt.list_folder("f").unwrap().is_empty());
    assert!(bt.remove_folder("none").is_ok());
    assert!(bt.remove_folder("").is_err());
}

#[test]
fn trim_path_keeps_latest() {
    let (_dir, mut bt) = temp_bloxtree();
    let r1 = bt.add_bytes("trim/test.txt", b"oldest").unwrap();
    wait();
    let r2 = bt.add_bytes("trim/test.txt", b"middle").unwrap();
    wait();
    bt.add_bytes("trim/test.txt", b"newest").unwrap();
    bt.trim_path("trim/test.txt", 2).unwrap();
    assert_eq!(bt.versions("trim/test.txt").unwrap().len(), 2);
    assert_eq!(bt.get_bytes("trim/test.txt").unwrap().unwrap(), b"newest");
    assert!(bt.stat(r1.hash).is_err());
    assert!(bt.stat(r2.hash).is_ok());
}

#[test]
fn trim_keeps_the_newest_of_equal_versions() {
    let (_dir, mut bt) = temp_bloxtree();
    bt.add_bytes("x", b"a").unwrap();
    bt.add_bytes("x", b"b").unwrap();
    let r3 = bt.add_bytes("x", b"a").unwrap();
    let r4 = bt.add_bytes("x", b"b").unwrap();
    bt.add_bytes("y", b"a").unwrap();
    bt.trim_path("x", 2).unwrap();
    let v = bt.versions("x").unwrap();
    assert_eq!(v.len(), 2);
    assert_eq!(v[0].uuid, r4.uuid);
    assert_eq!(v[1].uuid, r3.uuid);
    assert_eq!(bt.versions("y").unwrap().len(), 1);
    bt.trim_path("x", 5).unwrap();
    assert_eq!(bt.versions("x").unwrap().len(), 2);
}

#[test]
fn trim_path_zero_removes_all() {
    let (_dir, mut bt) = temp_bloxtree();
    bt.add_bytes("trim/zero.txt", b"data").unwrap();
    bt.trim_path("trim/zero.txt", 0).unwrap();
    assert!(bt.get_bytes("trim/zero.txt").unwrap().is_none());
}

#[test]
fn trim_path_missing_is_noop() {
    let (_dir, mut bt) = temp_bloxtree();
    assert!(bt.trim_path("nonexistent", 5).is_ok());
}

#[test]
fn versions_newest_first() {
    let (_dir, mut bt) = temp_bloxtree();
    let r1 = bt.add_bytes("ver/order.txt", b"first").unwrap();
    wait();
    let r2 = bt.add_bytes("ver/order.txt", b"second").unwrap();
    let v = bt.versions("ver/order.txt").unwrap();
    assert_eq!(v.len(), 2);
    assert_eq!(v[0].hash, r2.hash);
    assert_eq!(v[1].hash, r1.hash);
}

#[test]
fn versions_missing_is_empty() {
    let (_dir, mut bt) = temp_bloxtree();
    assert!(bt.versions("nonexistent").unwrap().is_empty());
}

#[test]
fn same_content_adds_do_not_collide() {
    let (_dir, mut bt) = temp_bloxtree();
    let r1 = bt.add_bytes("collide/x.txt", b"same").unwrap();
    let r2 = bt.add_bytes("collide/x.txt", b"same").unwrap();
    assert_ne!(r1.uuid, r2.uuid);
    let v = bt.versions("collide/x.txt").unwrap();
    assert_eq!(v.len(), 2);
    assert_eq!(v[0].hash, v[1].hash);
}

#[test]
fn list_prefix_root() {
    let (_dir, mut bt) = temp_bloxtree();
    bt.add_bytes("a/b/x.txt", b"x").unwrap();
    bt.add_bytes("a/b/y.txt", b"y").unwrap();
    bt.add_bytes("a/c.txt", b"c").unwrap();
    bt.add_bytes("d.txt", b"d").unwrap();
    let entries = bt.list_folder("").unwrap();
    assert_eq!(entries.len(), 2);
    assert!(matches!(&entries[0], CommonPrefixEntry::CommonPrefix { path } if path == "a"));
    assert!(matches!(&entries[1], CommonPrefixEntry::Path(_)));
}

#[test]
fn list_prefix_subdir() {
    let (_dir, mut bt) = temp_bloxtree();
    bt.add_bytes("a/b/x.txt", b"x").unwrap();
    bt.add_bytes("a/b/y.txt", b"y").unwrap();
    let entries = bt.list_folder("a/b").unwrap();
    assert_eq!(entries.len(), 2);
    assert!(matches!(entries[0], CommonPrefixEntry::Path(_)));
    assert!(matches!(entries[1], CommonPrefixEntry::Path(_)));
}

#[test]
fn a_leaf_is_listed_with_its_latest_version() {
    let (_dir, mut bt) = temp_bloxtree();
    bt.add_bytes("f/x", b"1").unwrap();
    let r = bt.add_bytes("f/x", b"2").unwrap();
    let entries = bt.list_folder("f").unwrap();
    assert_eq!(entries.len(), 1);
    match &entries[0] {
        CommonPrefixEntry::Path(e) => {
            assert_eq!(e.path, "f/x");
            assert_eq!(e.hash, r.hash);
            assert_eq!(e.uuid, r.uuid);
        }
        CommonPrefixEntry::CommonPrefix { .. } => panic!("a leaf is no prefix"),
    }
    bt.add_bytes("f/x/y", b"3").unwrap();
    let entries = bt.list_folder("f").unwrap();
    assert_eq!(entries.len(), 1);
    assert!(matches!(&entries[0], CommonPrefixEntry::CommonPrefix { path } if path == "f/x"));
}

#[test]
fn prefixes_beyond_ascii_are_exact() {
    let (_dir, mut bt) = temp_bloxtree();
    bt.add_bytes("\u{e9}/a", b"1").unwrap();
    bt.add_bytes("\u{ea}/a", b"2").unwrap();
    bt.add_bytes("\u{10ffff}/a", b"3").unwrap();
    assert_eq!(bt.list_folder("\u{e9}").unwrap().len(), 1);
    assert_eq!(bt.list_folder("\u{10ffff}").unwrap().len(), 1);
    let root = bt.list_folder("").unwrap();
    assert_eq!(root.len(), 3);
}

#[test]
fn list_paths_unique() {
    let (_dir, mut bt) = temp_bloxtree();
    bt.add_bytes("one.txt", b"1").unwrap();
    bt.add_bytes("two.txt", b"2").unwrap();
    wait();
    bt.add_bytes("one.txt", b"1v2").unwrap();
    let paths = bt.list_paths().unwrap();
    assert_eq!(paths.len(), 2);
}

#[test]
fn list_paths_gives_the_latest() {
    let (_dir, mut bt) = temp_bloxtree();
    bt.add_bytes("b", b"1").unwrap();
    bt.add_bytes("a", b"2").unwrap();
    let r = bt.add_bytes("b", b"3").unwrap();
    let paths = bt.list_paths().unwrap();
    assert_eq!(paths[0].path, "a");
    assert_eq!(paths[1].path, "b");
    assert_eq!(paths[1].hash, r.hash);
    assert_eq!(paths[1].uuid, r.uuid);
}

#[test]
fn invalid_paths_rejected() {
    let (_dir, mut bt) = temp_bloxtree();
    assert!(bt.add_bytes("", b"data").is_err());
    assert!(bt.add_bytes(" x", b"data").is_err());
    assert!(bt.add_bytes("x ", b"data").is_err());
}

#[test]
fn every_operation_refuses_an_invalid_path() {
    let (_dir, mut bt) = temp_bloxtree();
    assert!(bt.get_bytes("/x").is_err());
    assert!(bt.versions("x/").is_err());
    assert!(bt.stat_path("").is_err());
    assert!(bt.remove_path("/x", None).is_err());
    assert!(bt.trim_path("/x", 0).is_err());
    assert!(bt.trim_path("/x", 1).is_err());
    assert!(bt.list_folder("x/").is_err());
}

#[test]
fn concurrent_open_and_write_same_store() {
    let dir = TempDir::new().unwrap();
    let blobs = no_blobs();
    let mut bt1 = Tree::open_in(dir.path().to_path_buf(), blobs.clone()).unwrap();
    let mut bt2 = Tree::open_in(dir.path().to_path_buf(), blobs).unwrap();

    bt1.add_bytes("a.txt", b"from one").unwrap();
    bt2.add_bytes("b.txt", b"from two").unwrap();
    assert_eq!(bt1.get_bytes("a.txt").unwrap().unwrap(), b"from one");
    assert_eq!(bt2.get_bytes("a.txt").unwrap().unwrap(), b"from one");
    assert_eq!(bt1.get_bytes("b.txt").unwrap().unwrap(), b"from two");
    assert_eq!(bt1.list_paths().unwrap().len(), 2);
}

#[test]
fn stat_path_tells_size_and_references() {
    let (_dir, mut bt) = temp_bloxtree();
    let r = bt.add_bytes_to(&["a", "b"], b"hello").unwrap();
    let st = bt.stat_path("a").unwrap().unwrap();
    assert_eq!(st.hash, r.hash);
    assert_eq!(st.uuid, r.uuid);
    assert_eq!(st.size, 5);
    assert_eq!(st.refcount, 2);
    assert!(st.created_at.seconds > 0);
    assert!(bt.stat_path("none").unwrap().is_none());
    bt.disk.blobs.borrow_mut().clear();
    assert!(bt.stat_path("a").is_err());
}

#[test]
fn get_reader_by_hash_reads_any_version() {
    let (_dir, mut bt) = temp_bloxtree();
    let r = bt.add_bytes("x", b"old").unwrap();
    bt.add_bytes("x", b"new").unwrap();
    let reader = bt
        .disk
        .run(bt.bt.get_reader_by_hash(r.hash), GetReader::resume)
        .unwrap()
        .unwrap();
    assert_eq!(read_all(&mut bt.disk, reader).unwrap(), b"old");
    let latest = bt.disk.run(bt.bt.get_reader("x"), GetReader::resume).unwrap().unwrap();
    assert_eq!(read_all(&mut bt.disk, latest).unwrap(), b"new");
    let none = bt.disk.run(bt.bt.get_reader("y"), GetReader::resume).unwrap();
    assert!(none.is_none());
    bt.disk.blobs.borrow_mut().clear();
    let gone = bt.disk.run(bt.bt.get_reader_by_hash(r.hash), GetReader::resume).unwrap();
    assert!(gone.is_none());
    assert!(bt.get_bytes("x").unwrap().is_none());
}

#[test]
fn changed_content_is_noticed() {
    let (_dir, mut bt) = temp_bloxtree();
    let r = bt.add_bytes("x", b"data").unwrap();
    let path = bt.disk.blob(&r.hash);
    bt.disk
        .blobs
        .borrow_mut()
        .get_mut(&path)
        .unwrap()
        .write_all(b"more")
        .unwrap();
    match bt.get_bytes("x") {
        Ok(_) => panic!("not noticed"),
        Err(e) => {
            assert!(matches!(&e, Error::Io(io) if io.kind == IoErrorKind::InvalidData));
            let expected = blake3::hash(b"data").to_hex().to_string();
            let actual = blake3::hash(b"datamore").to_hex().to_string();
            assert_eq!(
                e.message(),
                format!("IO error: hash mismatch: expected {expected}, got {actual}")
            );
        }
    }
}

// ---------------------------------------------------------------------------
// Blobs
// ---------------------------------------------------------------------------

fn temp_store() -> (TempDir, Disk, BlobStore) {
    let dir = TempDir::new().unwrap();
    let mut disk = Disk::new(dir.path().to_path_buf(), no_blobs());
    let made = disk.make_dir(disk.root.clone(), "objects");
    assert!(matches!(made, Reply::Done));
    let store = disk.run(BlobStore::open(), OpenStore::resume).unwrap();
    (dir, disk, store)
}

fn add_reader(disk: &mut Disk, store: &BlobStore, data: &[u8]) -> (bloxtree::hash::Hash, bool) {
    disk.input = Box::new(Cursor::new(data.to_vec()));
    let Stored { hash, existed } =
        disk.run(store.add_reader(Source::Reader), StoreBlob::resume).unwrap();
    (hash, existed)
}

fn read_all(disk: &mut Disk, reader: BloxtreeReader) -> Result<Vec<u8>, Error> {
    let mut reader = reader;
    let mut out = Vec::new();
    loop {
        match disk.perform(Request::ReadBlob) {
            Reply::Chunk(c) => {
                let (next, outcome) = reader.absorb(&c, READ_CHUNK);
                outcome?;
                reader = next;
                if c.is_empty() {
                    return Ok(out);
                }
                out.extend_from_slice(&c);
            }
            _ => panic!("no chunk"),
        }
    }
}

#[test]
fn write_and_read() {
    let (_dir, mut disk, store) = temp_store();

    let data = b"hello world";
    let (hash, existed) = add_reader(&mut disk, &store, data);
    assert!(!existed);

    let reader = disk.run(store.get_reader(hash), GetReader::resume).unwrap().unwrap();
    let buf = read_all(&mut disk, reader).unwrap();
    assert_eq!(buf, data);
}

#[test]
fn write_duplicate() {
    let (_dir, mut disk, store) = temp_store();

    let data = b"hello world";
    let (hash1, existed1) = add_reader(&mut disk, &store, data);
    assert!(!existed1);

    let (hash2, existed2) = add_reader(&mut disk, &store, data);
    assert!(existed2);
    assert_eq!(hash1, hash2);
}

#[test]
fn write_stream_and_read() {
    let (_dir, mut disk, store) = temp_store();

    let data = b"streaming test data that is a bit longer";
    let (hash, existed) = add_reader(&mut disk, &store, data);
    assert!(!existed);

    let reader = disk.run(store.get_reader(hash), GetReader::resume).unwrap().unwrap();
    let buf = read_all(&mut disk, reader).unwrap();
    assert_eq!(buf, data);
}

#[test]
fn delete_and_exists() {
    let (_dir, mut disk, store) = temp_store();

    let data = b"to be deleted";
    let (hash, _) = add_reader(&mut disk, &store, data);
    assert!(disk.run(store.stat(hash), StatBlob::resume).is_ok());

    disk.run(store.delete(hash), DeleteBlob::resume).unwrap();
    assert!(disk.run(store.stat(hash), StatBlob::resume).is_err());

    // Deleting again is a no-op.
    disk.run(store.delete(hash), DeleteBlob::resume).unwrap();
}

#[test]
fn stat_reports_size() {
    let (_dir, mut disk, store) = temp_store();

    let data = b"hello world";
    let (hash, _) = add_reader(&mut disk, &store, data);

    let stat = disk.run(store.stat(hash), StatBlob::resume).unwrap();
    assert_eq!(stat.size, data.len() as u64);
    assert!(stat.created_at.seconds > 0);
}

#[test]
fn stat_missing_blob_errors() {
    let (_dir, mut disk, store) = temp_store();

    let missing = bloxtree::hash::Hash { bytes: *blake3::hash(b"never written").as_bytes() };
    assert!(disk.run(store.stat(missing), StatBlob::resume).is_err());
}

#[test]
fn a_blob_stored_meanwhile_existed() {
    let hash = bloxtree::hash::Hash { bytes: *blake3::hash(b"x").as_bytes() };
    let raced = Reply::Failed(Error::Io(IoError {
        kind: IoErrorKind::AlreadyExists,
        message: "exists".to_string(),
    }));
    let stored = discarded((StoreBlob::Persisting { hash }).resume(raced)).unwrap();
    assert!(stored.existed);
    assert_eq!(stored.hash, hash);
    let failed = Reply::Failed(Error::Io(IoError {
        kind: IoErrorKind::Other,
        message: "disk full".to_string(),
    }));
    match discarded((StoreBlob::Persisting { hash }).resume(failed)) {
        Err(e) => assert_eq!(e.message(), "IO error: disk full"),
        Ok(_) => panic!("not failed"),
    }
    match discarded((StoreBlob::Persisting { hash }).resume(Reply::Answer(true))) {
        Err(e) => assert_eq!(e.message(), "the reply does not answer the request"),
        Ok(_) => panic!("not confused"),
    }
}

/// What storing ends with after the temporary file was removed.
fn discarded(step: Step<StoreBlob, Stored>) -> Result<Stored, Error> {
    match step {
        Step::Ask(Request::DiscardTemp, task) => match task.resume(Reply::Done) {
            Step::Done(outcome) => outcome,
            Step::Ask(..) => panic!("went on"),
        },
        _ => panic!("nothing removed"),
    }
}

#[test]
fn no_temporary_file_is_left() {
    let (_dir, mut disk, store) = temp_store();
    let _ = add_reader(&mut disk, &store, b"twice");
    assert!(disk.temp.is_none());
    let _ = add_reader(&mut disk, &store, b"twice");
    assert!(disk.temp.is_none());
    // A failure on the way removes it as well.
    let mut step = store.add_reader(Source::Bytes { data: b"lost".to_vec(), at: 0 });
    let outcome = loop {
        step = match step {
            Step::Ask(Request::SyncTemp, task) => {
                assert!(disk.temp.is_some());
                task.resume(Reply::Failed(Error::Other("no space".to_string())))
            }
            Step::Ask(request, task) => {
                let reply = disk.perform(request);
                task.resume(reply)
            }
            Step::Done(outcome) => break outcome,
        };
    };
    assert_eq!(outcome.unwrap_err().message(), "no space");
    assert!(disk.temp.is_none());
    // Where none could be made there is none to remove.
    match (StoreBlob::Making { source: Source::Reader })
        .resume(Reply::Failed(Error::Other("full".to_string())))
    {
        Step::Done(Err(e)) => assert_eq!(e.message(), "full"),
        _ => panic!("went on"),
    }
}

// ---------------------------------------------------------------------------
// Readers
// ---------------------------------------------------------------------------

fn read_file(tmp: &NamedTempFile, expected: blake3::Hash) -> Result<Vec<u8>, Error> {
    let mut file = tmp.reopen().unwrap();
    let mut reader =
        BloxtreeReader::new(bloxtree::hash::Hash { bytes: *expected.as_bytes() });
    let mut out = Vec::new();
    let mut buf = [0u8; 4];
    loop {
        let n = file.read(&mut buf).unwrap();
        let (next, outcome) = reader.absorb(&buf[..n], buf.len());
        outcome?;
        reader = next;
        if n == 0 {
            assert!(reader.verified);
            return Ok(out);
        }
        out.extend_from_slice(&buf[..n]);
    }
}

#[test]
fn an_empty_buffer_is_no_end() {
    let data = b"hello world";
    let expected = bloxtree::hash::Hash { bytes: *blake3::hash(data).as_bytes() };
    let (reader, outcome) = BloxtreeReader::new(expected).absorb(&[], 0);
    assert!(outcome.is_ok());
    assert!(!reader.verified);
    let (reader, outcome) = reader.absorb(data, 64);
    assert!(outcome.is_ok());
    let (reader, outcome) = reader.absorb(&[], 0);
    assert!(outcome.is_ok());
    assert!(!reader.verified);
    let (reader, outcome) = reader.absorb(&[], 64);
    assert!(outcome.is_ok());
    assert!(reader.verified);
    let (_, outcome) = BloxtreeReader::new(expected).absorb(&[], 64);
    assert!(outcome.is_err());
}

#[test]
fn read_matching_hash() {
    let data = b"hello world";
    let expected = blake3::hash(data);

    // Write test file.
    let tmp = NamedTempFile::new().unwrap();
    Write::write_all(&mut tmp.as_file(), data).unwrap();

    let buf = read_file(&tmp, expected).unwrap();
    assert_eq!(buf, data);
}

#[test]
fn read_mismatched_hash() {
    let data = b"hello world";
    let wrong = blake3::hash(b"different");

    let tmp = NamedTempFile::new().unwrap();
    Write::write_all(&mut tmp.as_file(), data).unwrap();

    let err = read_file(&tmp, wrong).unwrap_err();
    assert!(matches!(err, Error::Io(io) if io.kind == IoErrorKind::InvalidData));
}

/// How many requests an operation makes.
fn asked<R>(bt: &mut Tree, operation: impl Fn(&mut Tree) -> R) -> usize {
    let before = bt.disk.asked;
    operation(bt);
    bt.disk.asked - before
}

#[test]
fn operations_end_in_time() {
    let (_dir, mut bt) = temp_bloxtree();
    assert_eq!(bt.disk.asked, 7);
    assert_eq!(asked(&mut bt, |bt| bt.add_bytes("a/x", b"hello").unwrap()), 7);
    assert_eq!(asked(&mut bt, |bt| bt.add_bytes("a/y", b"hello").unwrap()), 5);
    assert_eq!(asked(&mut bt, |bt| bt.add_bytes("a/y", b"").unwrap()), 6);
    assert_eq!(asked(&mut bt, |bt| bt.get_bytes("a/x").unwrap()), 4);
    assert_eq!(asked(&mut bt, |bt| bt.get_bytes("none").unwrap()), 1);
    assert_eq!(asked(&mut bt, |bt| bt.stat_path("a/x").unwrap()), 3);
    assert_eq!(asked(&mut bt, |bt| bt.list_folder("a").unwrap()), 1);
    assert_eq!(asked(&mut bt, |bt| bt.list_paths().unwrap()), 1);
    assert_eq!(asked(&mut bt, |bt| bt.versions("a/y").unwrap()), 1);
    assert_eq!(asked(&mut bt, |bt| bt.trim_path("a/y", 1).unwrap()), 3);
    assert_eq!(asked(&mut bt, |bt| bt.remove_folder("a").unwrap()), 9);
}

#[test]
fn an_addition_cut_short_records_nothing() {
    let (_dir, mut bt) = temp_bloxtree();
    bt.add_bytes("p", b"old").unwrap();
    let mut step = bt.bt.add_bytes("p", b"new");
    loop {
        match step {
            Step::Ask(Request::Index(_), _) => break,
            Step::Ask(request, task) => {
                let reply = bt.disk.perform(request);
                assert_eq!(bt.versions("p").unwrap().len(), 1);
                step = task.resume(reply);
            }
            Step::Done(_) => panic!("recorded"),
        }
    }
    assert_eq!(bt.get_bytes("p").unwrap().unwrap(), b"old");
    assert_eq!(bt.disk.blobs.borrow().len(), 2);
}

#[test]
fn a_removal_cut_short_leaves_no_row_without_its_blob() {
    let (_dir, mut bt) = temp_bloxtree();
    bt.add_bytes("p", b"one").unwrap();
    bt.add_bytes("q", b"two").unwrap();
    let mut step = bt.bt.remove_path("p", None);
    loop {
        match step {
            Step::Done(r) => {
                r.unwrap();
                break;
            }
            Step::Ask(request, task) => {
                let reply = bt.disk.perform(request);
                for entry in bt.list_paths().unwrap() {
                    assert!(bt.get_bytes(&entry.path).unwrap().is_some());
                }
                step = task.resume(reply);
            }
        }
    }
    assert_eq!(bt.list_paths().unwrap().len(), 1);
    assert_eq!(bt.disk.blobs.borrow().len(), 1);
}
