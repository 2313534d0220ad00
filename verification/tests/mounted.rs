use std::collections::BTreeMap;
use std::hash::Hasher;

use bloxtree::add::AddResult;
use bloxtree::get::PathStat;
use bloxtree::index::{Entry, VersionInfo};
use bloxtree::list::folder_listing;
use bloxtree::mounted::dir::{is_direct_child, name_in, DirSlot, ReadDir};
use bloxtree::mounted::file::{Create, ReadFile, Release, Rename, SetAttr, Unlink};
use bloxtree::mounted::find::{resolve, GetAttr, Lookup, MakeDir, RemoveDir};
use bloxtree::mounted::state::{
    look_up_name, Errno, FsState, FsStep, TreeReply, TreeRequest,
};
use bloxtree::node::{
    dir_attr, file_attr, make_ino, system_time_from_datetime, FileAttr, FileKind, FileTime, ROOT,
};
use bloxtree::path::validate;
use bloxtree::pathset::PathSet;
use bloxtree::talk::Timestamp;
use bloxtree::uuid::Uuid;

#[test]
fn direct_child_root() {
    assert!(is_direct_child("a", ""));
    assert!(is_direct_child("ab", ""));
    assert!(!is_direct_child("a/b", ""));
    assert!(!is_direct_child("", ""));
}

#[test]
fn direct_child_subdir() {
    assert!(is_direct_child("a/b", "a"));
    assert!(!is_direct_child("a/b", ""));
    assert!(!is_direct_child("a/b/c", "a"));
    assert!(is_direct_child("a/b/c", "a/b"));
    assert!(!is_direct_child("ab", "a"));
    assert!(is_direct_child("a/bc", "a"));
}

#[test]
fn direct_child_no_match() {
    assert!(!is_direct_child("x/y", "a"));
    assert!(!is_direct_child("a", "a"));
}

// ---------------------------------------------------------------------------
// A tree in memory
// ---------------------------------------------------------------------------

/// A store in memory: the latest content of each path, and the older ones, oldest
/// first.
struct Memory {
    files: BTreeMap<String, Vec<u8>>,
    older: BTreeMap<String, Vec<Vec<u8>>>,
    opened: Vec<u8>,
}

fn hash(data: &[u8]) -> bloxtree::hash::Hash {
    bloxtree::hash::Hash { bytes: *blake3::hash(data).as_bytes() }
}

fn added(data: &[u8]) -> AddResult {
    AddResult { hash: hash(data), uuid: Uuid { bytes: [7; 16] }, blob_already_existed: false }
}

impl Memory {
    fn new(files: &[(&str, &str)]) -> Memory {
        let mut m = Memory {
            files: BTreeMap::new(),
            older: BTreeMap::new(),
            opened: Vec::new(),
        };
        for (path, data) in files {
            m.files.insert(path.to_string(), data.as_bytes().to_vec());
        }
        m
    }

    fn text(&self, path: &str) -> Option<String> {
        self.files.get(path).map(|d| String::from_utf8(d.clone()).unwrap())
    }

    /// The contents of a path, newest first.
    fn versions(&self, path: &str) -> Vec<Vec<u8>> {
        let mut all: Vec<Vec<u8>> = self.files.get(path).cloned().into_iter().collect();
        if let Some(older) = self.older.get(path) {
            all.extend(older.iter().rev().cloned());
        }
        all
    }

    fn add(&mut self, path: String, data: Vec<u8>) -> AddResult {
        let r = added(&data);
        if let Some(old) = self.files.insert(path.clone(), data) {
            self.older.entry(path).or_default().push(old);
        }
        r
    }

    fn perform(&mut self, request: TreeRequest) -> TreeReply {
        match request {
            TreeRequest::Versions { path } => TreeReply::Versions(validate(&path).map(|()| {
                self.versions(&path)
                    .iter()
                    .map(|d| VersionInfo { hash: hash(d), uuid: Uuid { bytes: [7; 16] } })
                    .collect()
            })),
            TreeRequest::Folder { path } => {
                if !path.is_empty() {
                    if let Err(e) = validate(&path) {
                        return TreeReply::Folder(Err(e));
                    }
                }
                let prefix = if path.is_empty() { String::new() } else { format!("{path}/") };
                let entries: Vec<Entry> = self
                    .files
                    .iter()
                    .filter(|(p, _)| p.starts_with(&prefix))
                    .map(|(p, d)| Entry {
                        path: p.clone(),
                        uuid: Uuid { bytes: [7; 16] },
                        hash: hash(d),
                    })
                    .collect();
                TreeReply::Folder(Ok(folder_listing(&path, &entries)))
            }
            TreeRequest::Stat { path } => TreeReply::Stat(validate(&path).map(|()| {
                self.files.get(&path).map(|d| PathStat {
                    hash: hash(d),
                    uuid: Uuid { bytes: [7; 16] },
                    size: d.len() as u64,
                    created_at: Timestamp { seconds: 2, nanos: 5 },
                    refcount: 1,
                })
            })),
            TreeRequest::Bytes { path } => {
                TreeReply::Bytes(validate(&path).map(|()| self.files.get(&path).cloned()))
            }
            TreeRequest::Add { path, data } => TreeReply::Added(validate(&path).map(|()| {
                self.add(path, data)
            })),
            TreeRequest::Remove { path } => TreeReply::Removed(validate(&path).map(|()| {
                self.files.remove(&path);
                self.older.remove(&path);
            })),
            TreeRequest::OpenReader { path } => TreeReply::Opened(validate(&path).map(|()| {
                match self.files.get(&path) {
                    Some(d) => {
                        self.opened = d.clone();
                        true
                    }
                    None => false,
                }
            })),
            TreeRequest::AddFromReader { path, limit } => {
                let mut data = self.opened.clone();
                if let Some(n) = limit {
                    data.truncate(n as usize);
                }
                TreeReply::Added(validate(&path).map(|()| self.add(path, data)))
            }
        }
    }
}

/// A mounted tree.
struct Mount {
    state: FsState,
    tree: Memory,
}

impl Mount {
    fn new(files: &[(&str, &str)]) -> Mount {
        Mount { state: FsState::new(), tree: Memory::new(files) }
    }

    fn run<T, R>(
        &mut self,
        first: FsStep<T, R>,
        resume: impl Fn(T, &mut FsState, TreeReply) -> FsStep<T, R>,
    ) -> Result<R, Errno> {
        let mut step = first;
        loop {
            match step {
                FsStep::Done(r) => return r,
                FsStep::Ask(request, task) => {
                    let reply = self.tree.perform(request);
                    step = resume(task, &mut self.state, reply);
                }
            }
        }
    }

    fn lookup(&mut self, parent: u64, name: &str) -> Result<FileAttr, Errno> {
        let first = Lookup::start(&self.state, parent, name);
        self.run(first, |t, s, r| t.resume(s, r))
    }

    fn getattr(&mut self, ino: u64) -> Result<FileAttr, Errno> {
        let first = GetAttr::start(&self.state, ino);
        self.run(first, |t, _, r| t.resume(r))
    }

    fn readdir(&mut self, ino: u64, offset: u64) -> Result<Vec<DirSlot>, Errno> {
        let first = ReadDir::start(&self.state, ino, offset);
        self.run(first, |t, s, r| t.resume(s, r))
    }

    fn names(&mut self, ino: u64) -> Vec<String> {
        self.readdir(ino, 0)
            .unwrap()
            .into_iter()
            .map(|s| match s.entry.kind {
                FileKind::Directory => format!("{}/", s.entry.name),
                FileKind::RegularFile => s.entry.name,
            })
            .collect()
    }

    fn read(&mut self, ino: u64, offset: u64, size: u32) -> Result<Vec<u8>, Errno> {
        let first = ReadFile::start(&self.state, ino, offset, size);
        self.run(first, |t, _, r| t.resume(r))
    }

    fn create(&mut self, parent: u64, name: &str) -> Result<(FileAttr, u64), Errno> {
        let first = Create::start(&mut self.state, parent, name);
        self.run(first, |t, s, r| t.resume(s, r))
    }

    fn release(&mut self, ino: u64, fh: u64) -> Result<(), Errno> {
        let first = Release::start(&mut self.state, ino, fh);
        self.run(first, |t, _, r| t.resume(r))
    }

    fn unlink(&mut self, parent: u64, name: &str) -> Result<(), Errno> {
        let first = Unlink::start(&self.state, parent, name);
        self.run(first, |t, s, r| t.resume(s, r))
    }

    fn rename(&mut self, parent: u64, name: &str, to: u64, new: &str) -> Result<(), Errno> {
        let first = Rename::start(&self.state, parent, name, to, new);
        self.run(first, |t, s, r| t.resume(s, r))
    }

    fn setattr(&mut self, ino: u64, size: Option<u64>) -> Result<FileAttr, Errno> {
        let first = SetAttr::start(&self.state, ino, size);
        self.run(first, |t, _, r| t.resume(r))
    }

    fn mkdir(&mut self, parent: u64, name: &str) -> Result<FileAttr, Errno> {
        let first = MakeDir::start(&self.state, parent, name);
        self.run(first, |t, s, r| t.resume(s, r))
    }

    fn rmdir(&mut self, parent: u64, name: &str) -> Result<(), Errno> {
        let first = RemoveDir::start(&self.state, parent, name);
        self.run(first, |t, s, r| t.resume(s, r))
    }
}

// ---------------------------------------------------------------------------
// Inodes
// ---------------------------------------------------------------------------

fn std_ino(path: &str, kind: u8) -> u64 {
    let mut h = std::collections::hash_map::DefaultHasher::new();
    std::hash::Hash::hash(path, &mut h);
    std::hash::Hash::hash(&kind, &mut h);
    h.finish()
}

#[test]
fn inode_numbers_are_default_hashes() {
    for path in ["", "a", "a/b", "caf\u{e9}"] {
        assert_eq!(make_ino(path, FileKind::Directory), std_ino(path, 3));
        assert_eq!(make_ino(path, FileKind::RegularFile), std_ino(path, 4));
    }
    assert_eq!(fuser::FileType::Directory as u8, 3);
    assert_eq!(fuser::FileType::RegularFile as u8, 4);
}

#[test]
fn the_root_has_a_fixed_number() {
    let mut s = FsState::new();
    assert_eq!(s.register_ino("", FileKind::Directory), ROOT);
    assert_eq!(s.ino_info.len(), 1);
    let file = s.register_ino("a", FileKind::RegularFile);
    assert_eq!(file, make_ino("a", FileKind::RegularFile));
    assert_eq!(s.register_ino("a", FileKind::RegularFile), file);
    assert_eq!(s.ino_info.len(), 2);
    s.remove_ino("a", FileKind::RegularFile);
    assert_eq!(s.ino_info.len(), 1);
}

#[test]
fn attributes_are_as_documented() {
    let d = dir_attr(5);
    assert_eq!(d.perm, 0o755);
    assert_eq!(d.nlink, 2);
    assert_eq!(d.size, 4096);
    assert_eq!(d.blocks, 8);
    assert_eq!(d.mtime, FileTime { before_epoch: false, nanos: 0 });
    let t = FileTime { before_epoch: false, nanos: 9 };
    let f = file_attr(6, 513, t);
    assert_eq!(f.perm, 0o644);
    assert_eq!(f.nlink, 1);
    assert_eq!(f.blocks, 2);
    assert_eq!(f.crtime, t);
    assert_eq!(file_attr(6, 0, t).blocks, 0);
    assert_eq!(file_attr(6, 512, t).blocks, 1);
    assert_eq!(file_attr(6, u64::MAX, t).blocks, 36028797018963968);
}

#[test]
fn times_are_distances_from_the_epoch() {
    let at = |seconds: i64, nanos: u32| system_time_from_datetime(Timestamp { seconds, nanos });
    assert_eq!(at(1, 5), FileTime { before_epoch: false, nanos: 1_000_000_005 });
    assert_eq!(at(-1, 5), FileTime { before_epoch: true, nanos: 999_999_995 });
    assert_eq!(at(0, 0), FileTime { before_epoch: false, nanos: 0 });
    assert_eq!(
        at(9223372036, 854775807),
        FileTime { before_epoch: false, nanos: 9223372036854775807 }
    );
    assert_eq!(at(9223372036, 854775808), FileTime { before_epoch: false, nanos: 0 });
    assert_eq!(
        at(-9223372037, 145224192),
        FileTime { before_epoch: true, nanos: 9223372036854775808 }
    );
    assert_eq!(at(-9223372037, 145224191), FileTime { before_epoch: false, nanos: 0 });
    assert_eq!(at(i64::MAX, 0), FileTime { before_epoch: false, nanos: 0 });
    assert_eq!(at(59, 1_999_999_999), FileTime { before_epoch: false, nanos: 60_999_999_999 });
    assert_eq!(at(-1, 1_000_000_000), FileTime { before_epoch: false, nanos: 0 });
    assert_eq!(at(-61, 1_500_000_000), FileTime { before_epoch: true, nanos: 59_500_000_000 });
    assert_eq!(at(58, 1_000_000_000), FileTime { before_epoch: false, nanos: 0 });
    assert_eq!(at(59, 2_000_000_000), FileTime { before_epoch: false, nanos: 0 });
}

// ---------------------------------------------------------------------------
// Finding
// ---------------------------------------------------------------------------

#[test]
fn the_tree_mirrors_the_paths() {
    let mut m = Mount::new(&[
        ("readme.txt", "hello world"),
        ("documents/report.txt", "r"),
        ("documents/notes.txt", "n"),
    ]);
    assert_eq!(m.names(ROOT), vec!["./", "../", "documents/", "readme.txt"]);
    let docs = m.lookup(ROOT, "documents").unwrap();
    assert_eq!(docs.kind, FileKind::Directory);
    assert_eq!(m.names(docs.ino), vec!["./", "../", "notes.txt", "report.txt"]);
    let report = m.lookup(docs.ino, "report.txt").unwrap();
    assert_eq!(report.kind, FileKind::RegularFile);
    assert_eq!(report.size, 1);
    assert_eq!(report.mtime, FileTime { before_epoch: false, nanos: 2_000_000_005 });
    assert_eq!(m.getattr(report.ino).unwrap(), report);
    assert_eq!(m.lookup(ROOT, "missing"), Err(Errno::NoEntry));
    assert_eq!(m.lookup(12345, "readme.txt"), Err(Errno::NoEntry));
    assert_eq!(m.getattr(12345), Err(Errno::NoEntry));
    assert_eq!(m.getattr(ROOT).unwrap(), dir_attr(ROOT));
}

#[test]
fn the_directory_takes_precedence() {
    let mut m = Mount::new(&[("photos/a.jpg", "photo"), ("photos/a.jpg/1.jpg", "one")]);
    let photos = m.lookup(ROOT, "photos").unwrap();
    assert_eq!(m.names(photos.ino), vec!["./", "../", "a.jpg/", "_a.jpg"]);
    assert_eq!(m.lookup(photos.ino, "a.jpg").unwrap().kind, FileKind::Directory);
    let hidden = m.lookup(photos.ino, "_a.jpg").unwrap();
    assert_eq!(hidden.kind, FileKind::RegularFile);
    assert_eq!(m.read(hidden.ino, 0, 100).unwrap(), b"photo");
    assert_eq!(m.lookup(photos.ino, "__a.jpg").unwrap(), hidden);
    assert_eq!(m.lookup(photos.ino, "___a.jpg"), Err(Errno::NoEntry));
}

#[test]
fn an_alias_needs_a_conflict() {
    let mut m = Mount::new(&[("a", "1"), ("b/c", "2")]);
    assert_eq!(m.lookup(ROOT, "_a"), Err(Errno::NoEntry));
    assert_eq!(m.lookup(ROOT, "_b"), Err(Errno::NoEntry));
}

#[test]
fn a_stored_underscore_name_is_itself() {
    let mut m = Mount::new(&[("a", "leaf"), ("a/x", "x"), ("_a", "real")]);
    let real = m.lookup(ROOT, "_a").unwrap();
    assert_eq!(m.read(real.ino, 0, 10).unwrap(), b"real");
    let leaf = m.lookup(ROOT, "__a").unwrap();
    assert_eq!(m.read(leaf.ino, 0, 10).unwrap(), b"leaf");
    m.unlink(ROOT, "_a").unwrap();
    assert_eq!(m.tree.text("_a"), None);
    assert_eq!(m.tree.text("a").unwrap(), "leaf");
    m.unlink(ROOT, "_a").unwrap();
    assert_eq!(m.tree.text("a"), None);
    assert_eq!(m.tree.text("a/x").unwrap(), "x");
}

#[test]
fn lookup_gives_all_attributes() {
    let mut m = Mount::new(&[("d/f", "hello")]);
    let d = m.lookup(ROOT, "d").unwrap();
    assert_eq!(d, dir_attr(make_ino("d", FileKind::Directory)));
    let f = m.lookup(d.ino, "f").unwrap();
    let time = FileTime { before_epoch: false, nanos: 2_000_000_005 };
    assert_eq!(f, file_attr(make_ino("d/f", FileKind::RegularFile), 5, time));
    assert_eq!((f.atime, f.mtime, f.ctime, f.crtime), (time, time, time, time));
    assert_eq!(m.lookup(d.ino, "g"), Err(Errno::NoEntry));
    assert_eq!(m.lookup(12345, "f"), Err(Errno::NoEntry));
}

#[test]
fn what_can_be_is_decided() {
    assert_eq!(resolve(false, false, false), None);
    assert_eq!(resolve(false, true, false), Some(FileKind::RegularFile));
    assert_eq!(resolve(false, false, true), Some(FileKind::Directory));
    assert_eq!(resolve(false, true, true), Some(FileKind::Directory));
    assert_eq!(resolve(true, true, true), Some(FileKind::RegularFile));
    assert_eq!(resolve(true, true, false), None);
    assert_eq!(resolve(true, false, true), None);
}

#[test]
fn names_lose_their_underscores() {
    assert_eq!(look_up_name("_a"), ("a".to_string(), true));
    assert_eq!(look_up_name("__a"), ("a".to_string(), true));
    assert_eq!(look_up_name("___a"), ("_a".to_string(), true));
    assert_eq!(look_up_name("a_"), ("a_".to_string(), false));
    assert_eq!(look_up_name("_"), (String::new(), true));
    assert_eq!(FsState::child_path("", "x"), "x");
    assert_eq!(FsState::child_path("d/e", "x"), "d/e/x");
    assert_eq!(name_in("d/e/x"), "x");
    assert_eq!(name_in("x"), "x");
}

#[test]
fn reading_a_directory_goes_on_at_the_offset() {
    let mut m = Mount::new(&[("a", "1"), ("b", "2"), ("c/d", "3")]);
    let all = m.readdir(ROOT, 0).unwrap();
    let nexts: Vec<u64> = all.iter().map(|s| s.next).collect();
    assert_eq!(nexts, vec![1, 2, 3, 4, 5]);
    assert_eq!(all[1].entry.path, "");
    let rest = m.readdir(ROOT, 3).unwrap();
    assert_eq!(rest.len(), 2);
    assert_eq!(rest[0].entry.name, "b");
    assert_eq!(rest[0].next, 4);
    assert!(m.readdir(ROOT, 5).unwrap().is_empty());
    assert!(m.readdir(ROOT, 99).unwrap().is_empty());
    assert!(matches!(m.readdir(12345, 0), Err(Errno::NoEntry)));
}

#[test]
fn every_entry_is_read_once_from_any_offset() {
    let mut m = Mount::new(&[("b", "1"), ("a", "2"), ("a/x", "3"), ("_a", "4"), ("c/d", "5")]);
    m.mkdir(ROOT, "e").unwrap();
    m.mkdir(ROOT, "b2").unwrap();
    let all: Vec<(String, String, bool, u64)> = m
        .readdir(ROOT, 0)
        .unwrap()
        .into_iter()
        .map(|s| (s.entry.name, s.entry.path, s.entry.kind == FileKind::Directory, s.next))
        .collect();
    let names: Vec<&str> = all.iter().map(|s| s.0.as_str()).collect();
    assert_eq!(names, vec![".", "..", "_a", "a", "_a", "b", "c", "b2", "e"]);
    for (i, x) in all.iter().enumerate() {
        assert!(all[i + 1..].iter().all(|y| (&x.0, &x.1, x.2) != (&y.0, &y.1, y.2)));
    }
    for k in 0..=all.len() + 1 {
        let part: Vec<(String, String, bool, u64)> = m
            .readdir(ROOT, k as u64)
            .unwrap()
            .into_iter()
            .map(|s| (s.entry.name, s.entry.path, s.entry.kind == FileKind::Directory, s.next))
            .collect();
        assert_eq!(part, all.iter().skip(k).cloned().collect::<Vec<_>>());
    }
}

// ---------------------------------------------------------------------------
// Files
// ---------------------------------------------------------------------------

#[test]
fn reads_give_the_part_asked_for() {
    let mut m = Mount::new(&[("f", "0123456789")]);
    let f = m.lookup(ROOT, "f").unwrap();
    assert_eq!(m.read(f.ino, 0, 4).unwrap(), b"0123");
    assert_eq!(m.read(f.ino, 8, 4).unwrap(), b"89");
    assert_eq!(m.read(f.ino, 10, 4).unwrap(), b"");
    assert_eq!(m.read(f.ino, u64::MAX, u32::MAX).unwrap(), b"");
    assert_eq!(m.read(ROOT, 0, 4), Err(Errno::Io));
    assert_eq!(m.read(12345, 0, 4), Err(Errno::NoEntry));
    m.tree.files.clear();
    assert_eq!(m.read(f.ino, 0, 4), Err(Errno::Io));
}

#[test]
fn writes_are_committed_on_release() {
    let mut m = Mount::new(&[]);
    let (attr, fh) = m.create(ROOT, "new.txt").unwrap();
    assert_eq!(attr.size, 0);
    assert_eq!(fh, 1);
    assert_eq!(m.state.write(attr.ino, fh, 0, b"hello"), 5);
    assert_eq!(m.state.write(attr.ino, fh, 5, b" world"), 6);
    assert_eq!(m.tree.text("new.txt"), None);
    m.release(attr.ino, fh).unwrap();
    assert_eq!(m.tree.text("new.txt").unwrap(), "hello world");
    assert!(m.state.write_bufs.is_empty());
    assert_eq!(m.lookup(ROOT, "new.txt").unwrap().size, 11);
}

#[test]
fn gaps_are_zeros_and_overlaps_overwrite() {
    let mut m = Mount::new(&[]);
    let (attr, fh) = m.create(ROOT, "f").unwrap();
    m.state.write(attr.ino, fh, 3, b"xy");
    m.state.write(attr.ino, fh, 4, b"zw");
    m.state.write(attr.ino, fh, 0, b"a");
    m.state.write(attr.ino, fh, 8, b"");
    m.release(attr.ino, fh).unwrap();
    assert_eq!(m.tree.files["f"], b"a\0\0xzw\0\0");
}

#[test]
fn every_handle_has_its_own_buffer() {
    let mut m = Mount::new(&[("a", "1"), ("b", "2")]);
    let a = m.lookup(ROOT, "a").unwrap();
    let b = m.lookup(ROOT, "b").unwrap();
    let fa = m.state.open();
    let fb = m.state.open();
    assert_ne!(fa, fb);
    m.state.write(a.ino, fa, 0, b"new a");
    m.state.write(b.ino, fb, 0, b"new b");
    m.release(a.ino, fa).unwrap();
    assert_eq!(m.tree.text("a").unwrap(), "new a");
    assert_eq!(m.tree.text("b").unwrap(), "2");
    m.release(b.ino, fb).unwrap();
    assert_eq!(m.tree.text("b").unwrap(), "new b");
}

#[test]
fn a_fresh_handle_is_none_in_use() {
    let mut m = Mount::new(&[("a", "1")]);
    let a = m.lookup(ROOT, "a").unwrap();
    let mut used = Vec::new();
    for name in ["x", "y"] {
        let (attr, fh) = m.create(ROOT, name).unwrap();
        assert!(!used.contains(&fh));
        used.push(fh);
        let other = m.state.open();
        assert!(!used.contains(&other));
        used.push(other);
        m.state.write(a.ino, other, 0, b"new");
        m.release(attr.ino, fh).unwrap();
        used.retain(|h| *h != fh);
    }
    assert_eq!(used.len(), 2);
    assert!(m.state.write_bufs.keys().all(|h| used.contains(h) && *h < m.state.next_fh));
}

#[test]
fn an_open_handle_that_wrote_nothing_commits_nothing() {
    let mut m = Mount::new(&[("a", "1")]);
    let a = m.lookup(ROOT, "a").unwrap();
    let fh = m.state.open();
    m.release(a.ino, fh).unwrap();
    assert_eq!(m.tree.text("a").unwrap(), "1");
    let (attr, fh) = m.create(ROOT, "empty").unwrap();
    m.release(attr.ino, fh).unwrap();
    assert_eq!(m.tree.text("empty").unwrap(), "");
    assert!(matches!(m.create(12345, "x"), Err(Errno::NoEntry)));
}

#[test]
fn created_names_stand_for_the_plain_name() {
    let mut m = Mount::new(&[("a", "1"), ("a/x", "2")]);
    let (attr, fh) = m.create(ROOT, "_a").unwrap();
    assert_eq!(attr, file_attr(make_ino("a", FileKind::RegularFile), 0, attr.mtime));
    m.state.write(attr.ino, fh, 0, b"new");
    m.release(attr.ino, fh).unwrap();
    assert_eq!(m.tree.text("a").unwrap(), "new");
    assert_eq!(m.tree.versions("a"), vec![b"new".to_vec(), b"1".to_vec()]);
    assert_eq!(m.tree.text("_a"), None);
    assert_eq!(m.lookup(ROOT, "_a").unwrap().ino, attr.ino);
}

#[test]
fn a_made_directory_takes_an_underscore_too() {
    let mut m = Mount::new(&[]);
    m.mkdir(ROOT, "d").unwrap();
    let (attr, fh) = m.create(ROOT, "__d").unwrap();
    m.release(attr.ino, fh).unwrap();
    assert_eq!(m.tree.text("d").unwrap(), "");
    assert_eq!(m.lookup(ROOT, "_d").unwrap().ino, attr.ino);
    assert_eq!(m.lookup(ROOT, "d").unwrap().kind, FileKind::Directory);
    m.unlink(ROOT, "_d").unwrap();
    assert_eq!(m.tree.text("d"), None);
}

#[test]
fn underscores_stay_where_no_directory_is() {
    let mut m = Mount::new(&[("b", "2")]);
    for name in ["_x", "__y", "_b", "_"] {
        let (attr, fh) = m.create(ROOT, name).unwrap();
        assert_eq!(attr.ino, make_ino(name, FileKind::RegularFile));
        m.state.write(attr.ino, fh, 0, name.as_bytes());
        m.release(attr.ino, fh).unwrap();
        assert_eq!(m.tree.text(name).unwrap(), name);
        assert_eq!(m.lookup(ROOT, name).unwrap().ino, attr.ino);
    }
    assert_eq!(m.tree.text("b").unwrap(), "2");
    m.rename(ROOT, "_x", ROOT, "__z").unwrap();
    assert_eq!(m.tree.text("_x"), None);
    assert_eq!(m.tree.text("__z").unwrap(), "_x");
    m.unlink(ROOT, "_b").unwrap();
    assert_eq!(m.tree.text("_b"), None);
    assert_eq!(m.tree.text("b").unwrap(), "2");
    assert_eq!(m.rename(ROOT, "_b", ROOT, "w"), Err(Errno::NoEntry));
    m.unlink(ROOT, "_b").unwrap();
    assert_eq!(m.tree.text("b").unwrap(), "2");
}

#[test]
fn unlink_removes_the_path() {
    let mut m = Mount::new(&[("a", "1"), ("a/x", "2"), ("b", "3")]);
    m.unlink(ROOT, "a").unwrap();
    assert_eq!(m.tree.text("a"), None);
    assert_eq!(m.tree.text("a/x").unwrap(), "2");
    assert_eq!(m.tree.text("b").unwrap(), "3");
    assert_eq!(m.unlink(ROOT, ""), Err(Errno::Io));
    assert_eq!(m.unlink(12345, "b"), Err(Errno::NoEntry));
}

#[test]
fn rename_moves_the_content() {
    let mut m = Mount::new(&[("a", "1"), ("d/b", "2")]);
    let d = m.lookup(ROOT, "d").unwrap();
    m.rename(ROOT, "a", d.ino, "c").unwrap();
    assert_eq!(m.tree.text("a"), None);
    assert_eq!(m.tree.text("d/c").unwrap(), "1");
    m.rename(d.ino, "c", d.ino, "b").unwrap();
    assert_eq!(m.tree.text("d/b").unwrap(), "1");
    assert_eq!(m.tree.files.len(), 1);
    assert_eq!(m.rename(ROOT, "none", ROOT, "x"), Err(Errno::NoEntry));
    assert_eq!(m.rename(d.ino, "b", ROOT, ""), Err(Errno::Io));
    assert_eq!(m.rename(12345, "b", ROOT, "x"), Err(Errno::NoEntry));
    assert_eq!(m.rename(d.ino, "b", 12345, "x"), Err(Errno::NoEntry));
    assert_eq!(m.tree.text("d/b").unwrap(), "1");
}

#[test]
fn rename_follows_aliases() {
    let mut m = Mount::new(&[("a", "1"), ("a/x", "2"), ("c/y", "3")]);
    m.rename(ROOT, "_a", ROOT, "_b").unwrap();
    assert_eq!(m.tree.text("a"), None);
    assert_eq!(m.tree.text("_b").unwrap(), "1");
    assert_eq!(m.tree.text("b"), None);
    m.rename(ROOT, "_b", ROOT, "_c").unwrap();
    assert_eq!(m.tree.text("_b"), None);
    assert_eq!(m.tree.text("c").unwrap(), "1");
    assert_eq!(m.tree.text("c/y").unwrap(), "3");
}

#[test]
fn rename_puts_one_version_on_top() {
    let mut m = Mount::new(&[("old", "1"), ("new", "a"), ("other", "z")]);
    m.tree.add("old".to_string(), b"2".to_vec());
    m.tree.add("new".to_string(), b"b".to_vec());
    m.rename(ROOT, "old", ROOT, "new").unwrap();
    assert_eq!(m.tree.versions("new"), vec![b"2".to_vec(), b"b".to_vec(), b"a".to_vec()]);
    assert!(m.tree.versions("old").is_empty());
    assert_eq!(m.tree.versions("other"), vec![b"z".to_vec()]);
    assert_eq!(m.rename(ROOT, "old", ROOT, "new"), Err(Errno::NoEntry));
    assert_eq!(m.tree.versions("new").len(), 3);
}

#[test]
fn truncation_keeps_the_first_bytes() {
    let mut m = Mount::new(&[("f", "0123456789")]);
    let f = m.lookup(ROOT, "f").unwrap();
    let cut = m.setattr(f.ino, Some(4)).unwrap();
    assert_eq!(cut.size, 4);
    assert_eq!(m.tree.text("f").unwrap(), "0123");
    assert_eq!(m.tree.versions("f"), vec![b"0123".to_vec(), b"0123456789".to_vec()]);
    assert_eq!(m.setattr(f.ino, Some(100)).unwrap().size, 4);
    assert_eq!(m.tree.versions("f").len(), 3);
    assert_eq!(m.tree.text("f").unwrap(), "0123");
    let same = m.setattr(f.ino, None).unwrap();
    assert_eq!(same, m.getattr(f.ino).unwrap());
    assert_eq!(same.size, 4);
    assert_eq!(m.tree.versions("f").len(), 3);
    assert_eq!(m.setattr(ROOT, None).unwrap(), dir_attr(ROOT));
    assert_eq!(m.setattr(12345, None), Err(Errno::NoEntry));
    m.tree.files.clear();
    assert_eq!(m.setattr(f.ino, Some(1)), Err(Errno::Io));
    assert_eq!(m.setattr(f.ino, None).unwrap().size, 0);
}

// ---------------------------------------------------------------------------
// Directories
// ---------------------------------------------------------------------------

#[test]
fn made_directories_are_there_until_removed() {
    let mut m = Mount::new(&[("z", "1")]);
    let d = m.mkdir(ROOT, "d").unwrap();
    assert_eq!(d.kind, FileKind::Directory);
    assert_eq!(m.lookup(ROOT, "d").unwrap(), d);
    assert_eq!(m.names(ROOT), vec!["./", "../", "z", "d/"]);
    m.mkdir(d.ino, "e").unwrap();
    assert_eq!(m.names(d.ino), vec!["./", "../", "e/"]);
    assert_eq!(m.rmdir(ROOT, "d"), Err(Errno::NotEmpty));
    m.rmdir(d.ino, "e").unwrap();
    m.rmdir(ROOT, "d").unwrap();
    assert_eq!(m.lookup(ROOT, "d"), Err(Errno::NoEntry));
    assert_eq!(m.rmdir(ROOT, "d"), Err(Errno::NoEntry));
    assert_eq!(m.mkdir(12345, "x"), Err(Errno::NoEntry));
    assert_eq!(m.rmdir(12345, "x"), Err(Errno::NoEntry));
}

#[test]
fn what_exists_is_not_made() {
    let mut m = Mount::new(&[("f", "1"), ("d/x", "2"), ("c", "3"), ("c/y", "4"), ("_u", "5")]);
    assert_eq!(m.mkdir(ROOT, "f"), Err(Errno::Exists));
    assert_eq!(m.mkdir(ROOT, "d"), Err(Errno::Exists));
    assert_eq!(m.mkdir(ROOT, "_c"), Err(Errno::Exists));
    assert_eq!(m.mkdir(ROOT, "_u"), Err(Errno::Exists));
    m.mkdir(ROOT, "n").unwrap();
    assert_eq!(m.mkdir(ROOT, "n"), Err(Errno::Exists));
    m.mkdir(ROOT, "_n").unwrap();
    assert_eq!(m.mkdir(ROOT, "_n"), Err(Errno::Exists));
}

#[test]
fn only_made_directories_are_removed() {
    let mut m = Mount::new(&[("d/x", "1")]);
    assert_eq!(m.rmdir(ROOT, "d"), Err(Errno::NoEntry));
    m.mkdir(ROOT, "e").unwrap();
    m.tree.files.insert("e/y".to_string(), vec![1]);
    assert_eq!(m.rmdir(ROOT, "e"), Err(Errno::NotEmpty));
    m.tree.files.remove("e/y");
    m.rmdir(ROOT, "e").unwrap();
}

#[test]
fn a_made_directory_hides_a_later_file() {
    let mut m = Mount::new(&[]);
    m.mkdir(ROOT, "d").unwrap();
    m.mkdir(ROOT, "e").unwrap();
    m.tree.files.insert("d/x".to_string(), vec![1]);
    m.tree.files.insert("e".to_string(), vec![2]);
    assert_eq!(m.names(ROOT), vec!["./", "../", "d/", "e"]);
    assert_eq!(m.lookup(ROOT, "e").unwrap().kind, FileKind::Directory);
    assert_eq!(m.lookup(ROOT, "_e").unwrap().kind, FileKind::RegularFile);
}

#[test]
fn sets_of_paths_are_kept_in_order() {
    let mut s = PathSet::new();
    for p in ["b", "a/x", "a", "c", "a"] {
        s = s.with(p.to_string());
    }
    assert_eq!(s.len(), 4);
    let all: Vec<String> = (0..s.len()).map(|i| s.at(i).clone()).collect();
    assert_eq!(all, vec!["a", "a/x", "b", "c"]);
    assert!(s.contains("a/x"));
    assert!(!s.contains("x"));
    assert!(s.has_below("a"));
    assert!(!s.has_below("b"));
    s = s.without("a/x").without("zzz");
    assert!(!s.has_below("a"));
    assert_eq!(s.len(), 3);
}

#[test]
fn a_wrong_reply_is_an_error() {
    let m = Mount::new(&[("a", "1")]);
    match Lookup::start(&m.state, ROOT, "a") {
        FsStep::Ask(_, t) => {
            let mut state = FsState::new();
            assert!(matches!(
                t.resume(&mut state, TreeReply::Removed(Ok(()))),
                FsStep::Done(Err(Errno::Io))
            ));
        }
        FsStep::Done(_) => panic!("nothing asked"),
    }
}

#[test]
fn filesystem_operations_end_in_time() {
    let m = Mount::new(&[("a", "1"), ("a/x", "2"), ("b", "3"), ("c/y", "4")]);
    let Mount { mut state, mut tree } = m;
    let mut turns = 0;
    let mut step = Lookup::start(&state, ROOT, "_a");
    while let FsStep::Ask(request, task) = step {
        turns += 1;
        let reply = tree.perform(request);
        step = task.resume(&mut state, reply);
    }
    assert_eq!(turns, 5);
    let mut turns = 0;
    let mut step = ReadDir::start(&state, ROOT, 0);
    while let FsStep::Ask(request, task) = step {
        turns += 1;
        let reply = tree.perform(request);
        step = task.resume(&state, reply);
    }
    assert_eq!(turns, 3);
    let mut turns = 0;
    let mut step = Rename::start(&state, ROOT, "_a", ROOT, "_d");
    while let FsStep::Ask(request, task) = step {
        turns += 1;
        let reply = tree.perform(request);
        step = task.resume(&mut state, reply);
    }
    assert_eq!(turns, 9);
    let mut turns = 0;
    let mut step = Create::start(&mut state, ROOT, "_c");
    while let FsStep::Ask(request, task) = step {
        turns += 1;
        let reply = tree.perform(request);
        step = task.resume(&mut state, reply);
    }
    assert_eq!(turns, 3);
}
