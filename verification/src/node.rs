//! Inodes of the mounted tree: their numbers and their attributes.

use std::collections::hash_map::DefaultHasher;
use std::hash::Hasher;

use vstd::prelude::*;
use vstd::std_specs::hash::DefaultHasherAdditionalSpecFns;
use vstd::string::*;
use vstd::utf8::*;

use crate::talk::Timestamp;

verus! {

/// The inode number of the root directory.
pub const ROOT: u64 = 1;

/// What an inode is.
#[derive(Clone, Copy, Debug, PartialEq, Eq, Structural)]
pub enum FileKind {
    Directory,
    RegularFile,
}

/// The number of a kind among all file types: named pipe, character device,
/// block device, directory, regular file.
pub open spec fn kind_code(kind: FileKind) -> u8 {
    match kind {
        FileKind::Directory => 3,
        FileKind::RegularFile => 4,
    }
}

/// The inode number of a path and a kind: the default hash of the path as text
/// and of the number of the kind.
pub open spec fn ino_of(path: Seq<char>, kind: FileKind) -> u64 {
    DefaultHasher::spec_finish(seq![encode_utf8(path), seq![0xffu8], seq![kind_code(kind)]])
}

/// Computes an inode number.
pub fn make_ino(path: &str, kind: FileKind) -> (r: u64)
    ensures
        r == ino_of(path@, kind),
{
    let bytes = path.as_bytes_vec();
    let code: u8 = match kind {
        FileKind::Directory => 3,
        FileKind::RegularFile => 4,
    };
    let end: [u8; 1] = [0xff];
    let kind_byte: [u8; 1] = [code];
    let mut h = DefaultHasher::new();
    h.write(bytes.as_slice());
    h.write(end.as_slice());
    h.write(kind_byte.as_slice());
    proof {
        assert(end@ =~= seq![0xffu8]);
        assert(kind_byte@ =~= seq![code]);
        assert(h@ =~= seq![encode_utf8(path@), seq![0xffu8], seq![code]]);
    }
    h.finish()
}

/// A point in time, as a distance from the Unix epoch.
#[derive(Clone, Copy, Debug, PartialEq, Eq, Structural)]
pub struct FileTime {
    pub before_epoch: bool,
    pub nanos: u64,
}

/// The Unix epoch.
pub open spec fn epoch() -> FileTime {
    FileTime { before_epoch: false, nanos: 0 }
}

/// The attributes of an inode.
#[derive(Clone, Copy, Debug, PartialEq, Eq, Structural)]
pub struct FileAttr {
    pub ino: u64,
    pub size: u64,
    pub blocks: u64,
    pub atime: FileTime,
    pub mtime: FileTime,
    pub ctime: FileTime,
    pub crtime: FileTime,
    pub kind: FileKind,
    pub perm: u16,
    pub nlink: u32,
    pub uid: u32,
    pub gid: u32,
    pub rdev: u32,
    pub blksize: u32,
    pub flags: u32,
}

/// The attributes of a directory: `0755`, two links, the Unix epoch.
pub open spec fn is_dir_attr(attr: FileAttr, ino: u64) -> bool {
    attr == FileAttr {
        ino,
        size: 4096,
        blocks: 8,
        atime: epoch(),
        mtime: epoch(),
        ctime: epoch(),
        crtime: epoch(),
        kind: FileKind::Directory,
        perm: 0o755,
        nlink: 2,
        uid: 0,
        gid: 0,
        rdev: 0,
        blksize: 4096,
        flags: 0,
    }
}

/// The attributes of a regular file: `0644`, one link, one time for all four,
/// and as many blocks of 512 bytes as hold the content.
pub open spec fn is_file_attr(attr: FileAttr, ino: u64, size: u64, time: FileTime) -> bool {
    attr == FileAttr {
        ino,
        size,
        blocks: ((size + 511) / 512) as u64,
        atime: time,
        mtime: time,
        ctime: time,
        crtime: time,
        kind: FileKind::RegularFile,
        perm: 0o644,
        nlink: 1,
        uid: 0,
        gid: 0,
        rdev: 0,
        blksize: 4096,
        flags: 0,
    }
}

/// The Unix epoch.
pub fn unix_epoch() -> (r: FileTime)
    ensures
        r == epoch(),
{
    FileTime { before_epoch: false, nanos: 0 }
}

/// The attributes of a directory.
pub fn dir_attr(ino: u64) -> (r: FileAttr)
    ensures
        is_dir_attr(r, ino),
{
    let time = unix_epoch();
    FileAttr {
        ino,
        size: 4096,
        blocks: 8,
        atime: time,
        mtime: time,
        ctime: time,
        crtime: time,
        kind: FileKind::Directory,
        perm: 0o755,
        nlink: 2,
        uid: 0,
        gid: 0,
        rdev: 0,
        blksize: 4096,
        flags: 0,
    }
}

/// The attributes of a regular file.
pub fn file_attr(ino: u64, size: u64, time: FileTime) -> (r: FileAttr)
    ensures
        is_file_attr(r, ino, size, time),
{
    let blocks: u64 = if size % 512 == 0 {
        size / 512
    } else {
        size / 512 + 1
    };
    FileAttr {
        ino,
        size,
        blocks,
        atime: time,
        mtime: time,
        ctime: time,
        crtime: time,
        kind: FileKind::RegularFile,
        perm: 0o644,
        nlink: 1,
        uid: 0,
        gid: 0,
        rdev: 0,
        blksize: 4096,
        flags: 0,
    }
}

/// The nanoseconds since the Unix epoch.
pub open spec fn nanos_of(t: Timestamp) -> int {
    t.seconds * 1_000_000_000 + t.nanos
}

/// The nanoseconds within the second are possible: they make up less than a
/// second, or less than two in the last second of a minute, which may be a leap
/// second.
pub open spec fn is_possible(t: Timestamp) -> bool {
    t.nanos < 1_000_000_000 || (t.nanos < 2_000_000_000 && t.seconds as int % 60 == 59)
}

/// `chrono::DateTime::timestamp_nanos_opt`, of the time that
/// `chrono::DateTime::from_timestamp` makes: the nanoseconds since the Unix
/// epoch, where they fit. Of an impossible timestamp no time is made.
#[verifier::external_body]
pub(crate) fn timestamp_nanos(t: Timestamp) -> (r: Option<i64>)
    ensures
        match r {
            Some(n) => is_possible(t) && n == nanos_of(t),
            None => !is_possible(t) || !(i64::MIN <= nanos_of(t) <= i64::MAX),
        },
{
    chrono::DateTime::<chrono::Utc>::from_timestamp(t.seconds, t.nanos).and_then(
        |time| time.timestamp_nanos_opt(),
    )
}

/// The time of a timestamp; the Unix epoch where it is impossible or the
/// nanoseconds do not fit.
pub open spec fn time_of(t: Timestamp) -> FileTime {
    let n = nanos_of(t);
    if !is_possible(t) || n < i64::MIN || n > i64::MAX {
        epoch()
    } else if n < 0 {
        FileTime { before_epoch: true, nanos: (-n) as u64 }
    } else {
        FileTime { before_epoch: false, nanos: n as u64 }
    }
}

/// Turns a timestamp into a file time.
pub fn system_time_from_datetime(t: Timestamp) -> (r: FileTime)
    ensures
        r == time_of(t),
{
    match timestamp_nanos(t) {
        None => unix_epoch(),
        Some(n) => if n >= 0 {
            FileTime { before_epoch: false, nanos: n as u64 }
        } else if n == i64::MIN {
            FileTime { before_epoch: true, nanos: 0x8000_0000_0000_0000 }
        } else {
            FileTime { before_epoch: true, nanos: (-n) as u64 }
        },
    }
}

} // verus!
