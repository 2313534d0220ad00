//! What the filesystem remembers, and what it asks of the store.

use std::collections::HashMap;

use vstd::prelude::*;
use vstd::string::*;

use crate::add::AddResult;
use crate::error::Error;
use crate::get::PathStat;
use crate::index::VersionInfo;
use crate::list::CommonPrefixEntry;
use crate::node;
use crate::node::{file_attr, make_ino, system_time_from_datetime, unix_epoch, FileAttr, FileKind, ROOT};
use crate::pathset::PathSet;
use crate::text::{chars_of, slice_of, text_of};

verus! {

broadcast use vstd::std_specs::hash::group_hash_axioms;

// ---------------------------------------------------------------------------
// Conversations with the store
// ---------------------------------------------------------------------------

/// How an operation is refused.
#[derive(Clone, Copy, Debug, PartialEq, Eq, Structural)]
pub enum Errno {
    /// No such file or directory.
    NoEntry,
    /// Input or output error.
    Io,
    /// The file exists.
    Exists,
    /// The directory is not empty.
    NotEmpty,
}

/// What an operation asks of the store.
#[derive(Debug)]
pub enum TreeRequest {
    /// The versions of a path.
    Versions { path: String },
    /// What a folder directly holds.
    Folder { path: String },
    /// The metadata of a path.
    Stat { path: String },
    /// The content of a path.
    Bytes { path: String },
    /// Add content under a path.
    Add { path: String, data: Vec<u8> },
    /// Remove a path with all its versions.
    Remove { path: String },
    /// Open a reader for the content of a path, and hold it.
    OpenReader { path: String },
    /// Add what the reader held gives under a path: all, or no more than
    /// `limit` bytes.
    AddFromReader { path: String, limit: Option<u64> },
}

/// What comes back.
#[derive(Debug)]
pub enum TreeReply {
    Versions(Result<Vec<VersionInfo>, Error>),
    Folder(Result<Vec<CommonPrefixEntry>, Error>),
    Stat(Result<Option<PathStat>, Error>),
    Bytes(Result<Option<Vec<u8>>, Error>),
    Added(Result<AddResult, Error>),
    Removed(Result<(), Error>),
    /// Whether there is content to read.
    Opened(Result<bool, Error>),
}

/// Where an operation stands.
#[derive(Debug)]
pub enum FsStep<T, R> {
    Ask(TreeRequest, T),
    Done(Result<R, Errno>),
}

/// The operation ends with this error.
pub open spec fn fails<T, R>(step: FsStep<T, R>, errno: Errno) -> bool {
    step == FsStep::<T, R>::Done(Err(errno))
}

/// The path has a version, as far as the reply says.
pub open spec fn leaf_in(r: Result<Vec<VersionInfo>, Error>) -> bool {
    r matches Ok(v) && v@.len() > 0
}

/// The folder holds something, as far as the reply says.
pub open spec fn children_in(r: Result<Vec<CommonPrefixEntry>, Error>) -> bool {
    r matches Ok(v) && v@.len() > 0
}

/// Whether the reply names a version.
pub fn has_leaf(r: &Result<Vec<VersionInfo>, Error>) -> (b: bool)
    ensures
        b == leaf_in(*r),
{
    match r {
        Ok(v) => v.len() > 0,
        Err(_) => false,
    }
}

/// Whether the reply names a child.
pub fn has_children(r: &Result<Vec<CommonPrefixEntry>, Error>) -> (b: bool)
    ensures
        b == children_in(*r),
{
    match r {
        Ok(v) => v.len() > 0,
        Err(_) => false,
    }
}

// ---------------------------------------------------------------------------
// State
// ---------------------------------------------------------------------------

/// The path and the kind of an inode.
#[derive(Debug)]
pub struct InodeInfo {
    pub path: String,
    pub kind: FileKind,
}

/// The path and the kind of an inode, over mathematical values.
pub struct Node {
    pub path: Seq<char>,
    pub kind: FileKind,
}

impl View for InodeInfo {
    type V = Node;

    open spec fn view(&self) -> Node {
        Node { path: self.path@, kind: self.kind }
    }
}

/// What was written through a handle and is not committed yet.
#[derive(Debug)]
pub struct WriteBuf {
    pub ino: u64,
    pub data: Vec<u8>,
}

/// A write buffer, over mathematical values.
pub struct Buffer {
    pub ino: u64,
    pub data: Seq<u8>,
}

impl View for WriteBuf {
    type V = Buffer;

    open spec fn view(&self) -> Buffer {
        Buffer { ino: self.ino, data: self.data@ }
    }
}

/// What the filesystem remembers.
#[derive(Debug)]
pub struct FsState {
    pub ino_info: HashMap<u64, InodeInfo>,
    pub ephemeral_dirs: PathSet,
    pub write_bufs: HashMap<u64, WriteBuf>,
    pub next_fh: u64,
}

/// What the filesystem remembers, over mathematical values.
#[verifier::ext_equal]
pub struct FsView {
    /// The inodes by number.
    pub inodes: Map<u64, Node>,
    /// The directories made by `mkdir`, in order.
    pub dirs: Seq<Seq<char>>,
    /// The write buffers by handle.
    pub buffers: Map<u64, Buffer>,
    /// The next handle.
    pub next_fh: u64,
}

impl View for FsState {
    type V = FsView;

    open spec fn view(&self) -> FsView {
        FsView {
            inodes: self.ino_info@.map_values(|i: InodeInfo| i@),
            dirs: self.ephemeral_dirs@,
            buffers: self.write_bufs@.map_values(|b: WriteBuf| b@),
            next_fh: self.next_fh,
        }
    }
}

/// The inode number under which a path is registered; the root directory has a
/// fixed one.
pub open spec fn ino_for(path: Seq<char>, kind: FileKind) -> u64 {
    if path.len() == 0 && kind == FileKind::Directory {
        ROOT
    } else {
        node::ino_of(path, kind)
    }
}

/// The state with the path registered. A number that is taken keeps its inode.
pub open spec fn registered(s: FsView, path: Seq<char>, kind: FileKind) -> FsView {
    let ino = ino_for(path, kind);
    if s.inodes.contains_key(ino) {
        s
    } else {
        FsView { inodes: s.inodes.insert(ino, Node { path, kind }), ..s }
    }
}

/// The state without the inode of a path.
pub open spec fn unregistered(s: FsView, path: Seq<char>, kind: FileKind) -> FsView {
    FsView { inodes: s.inodes.remove(node::ino_of(path, kind)), ..s }
}

/// The path of the directory with an inode number.
pub open spec fn directory_path(s: FsView, ino: u64) -> Option<Seq<char>> {
    if ino == ROOT {
        Some(Seq::empty())
    } else if s.inodes.contains_key(ino) {
        Some(s.inodes[ino].path)
    } else {
        None
    }
}

/// The path of a child: its name in the root directory, and else the path of the
/// directory, a slash and its name.
pub open spec fn joined(parent: Seq<char>, name: Seq<char>) -> Seq<char> {
    if parent.len() == 0 {
        name
    } else {
        parent.push('/') + name
    }
}

/// What is known at first: the root directory, and no handle.
pub open spec fn at_first() -> FsView {
    FsView {
        inodes: map![ROOT => Node { path: Seq::empty(), kind: FileKind::Directory }],
        dirs: Seq::empty(),
        buffers: Map::empty(),
        next_fh: 1,
    }
}

impl FsState {
    /// Nothing but the root directory is known.
    pub fn new() -> (r: FsState)
        ensures
            r@ == at_first(),
    {
        let mut r = FsState {
            ino_info: HashMap::new(),
            ephemeral_dirs: PathSet::new(),
            write_bufs: HashMap::new(),
            next_fh: 1,
        };
        let root = "";
        proof {
            reveal_strlit("");
            assert(root@ =~= Seq::<char>::empty());
        }
        let _ = r.register_ino(root, FileKind::Directory);
        proof {
            assert(r@.inodes =~= map![ROOT => Node { path: Seq::<char>::empty(), kind: FileKind::Directory }]);
            assert(r@.buffers =~= Map::<u64, Buffer>::empty());
        }
        r
    }

    /// Registers a path and gives its inode number.
    pub fn register_ino(&mut self, path: &str, kind: FileKind) -> (r: u64)
        ensures
            r == ino_for(path@, kind),
            final(self)@ == registered(old(self)@, path@, kind),
    {
        let is_root = chars_of(path).len() == 0 && kind == FileKind::Directory;
        let ino: u64 = if is_root {
            ROOT
        } else {
            make_ino(path, kind)
        };
        if !self.ino_info.contains_key(&ino) {
            let info = InodeInfo { path: path.to_owned(), kind };
            let _ = self.ino_info.insert(ino, info);
            proof {
                assert(self@.inodes =~= registered(old(self)@, path@, kind).inodes);
            }
        }
        ino
    }

    /// Forgets the inode of a path.
    pub fn remove_ino(&mut self, path: &str, kind: FileKind)
        ensures
            final(self)@ == unregistered(old(self)@, path@, kind),
    {
        let ino = make_ino(path, kind);
        let _ = self.ino_info.remove(&ino);
        proof {
            assert(self@.inodes =~= unregistered(old(self)@, path@, kind).inodes);
        }
    }

    /// A fresh handle for an inode, with an empty write buffer.
    pub fn alloc_fh(&mut self, ino: u64) -> (r: u64)
        ensures
            r == old(self).next_fh,
            final(self)@ == (FsView {
                buffers: old(self)@.buffers.insert(r, Buffer { ino, data: Seq::empty() }),
                next_fh: old(self).next_fh.wrapping_add(1),
                ..old(self)@
            }),
    {
        let fh = self.next_fh;
        self.next_fh = fh.wrapping_add(1);
        let buf = WriteBuf { ino, data: Vec::new() };
        let _ = self.write_bufs.insert(fh, buf);
        proof {
            assert(buf@ == Buffer { ino, data: Seq::<u8>::empty() });
            assert(self@.buffers =~= old(self)@.buffers.insert(fh, buf@));
        }
        fh
    }

    /// The path of the directory with an inode number.
    pub fn parent_path(&self, ino: u64) -> (r: Option<String>)
        ensures
            match directory_path(self@, ino) {
                Some(p) => r matches Some(s) && s@ == p,
                None => r is None,
            },
    {
        if ino == ROOT {
            let r = String::new();
            proof {
                assert(r@ =~= Seq::<char>::empty());
            }
            return Some(r);
        }
        match self.ino_info.get(&ino) {
            Some(info) => Some(info.path.clone()),
            None => None,
        }
    }

    /// The path of a child.
    pub fn child_path(parent: &str, name: &str) -> (r: String)
        ensures
            r@ == joined(parent@, name@),
    {
        if chars_of(parent).len() == 0 {
            name.to_owned()
        } else {
            let mut r = parent.to_owned();
            r.push('/');
            r.append(name);
            r
        }
    }
}

// ---------------------------------------------------------------------------
// Names
// ---------------------------------------------------------------------------

/// The name begins with an underscore.
pub open spec fn is_alias(name: Seq<char>) -> bool {
    name.len() > 0 && name[0] == '_'
}

/// The name that a looked up name stands for: without one underscore in front,
/// or without two.
pub open spec fn looked_up(name: Seq<char>) -> Seq<char> {
    if is_alias(name) {
        if is_alias(name.skip(1)) {
            name.skip(2)
        } else {
            name.skip(1)
        }
    } else {
        name
    }
}

/// The name that a looked up name stands for, and whether it is an alias.
pub fn look_up_name(name: &str) -> (r: (String, bool))
    ensures
        r.0@ == looked_up(name@),
        r.1 == is_alias(name@),
{
    let chars = chars_of(name);
    if chars.len() > 0 && chars[0] == '_' {
        let from: usize = if chars.len() > 1 && chars[1] == '_' {
            2
        } else {
            1
        };
        let s = text_of(&slice_of(&chars, from, chars.len()));
        proof {
            assert(name@.skip(1).len() > 0 ==> name@.skip(1)[0] == name@[1]);
            assert(s@ =~= name@.skip(from as int));
        }
        (s, true)
    } else {
        (name.to_owned(), false)
    }
}

// ---------------------------------------------------------------------------
// Attributes
// ---------------------------------------------------------------------------

/// The attributes of a file, by the metadata that came back: without them it is
/// empty and of the Unix epoch.
pub open spec fn is_stat_attr(
    attr: FileAttr,
    ino: u64,
    r: Result<Option<PathStat>, Error>,
) -> bool {
    match r {
        Ok(Some(st)) => node::is_file_attr(attr, ino, st.size, node::time_of(st.created_at)),
        _ => node::is_file_attr(attr, ino, 0, node::epoch()),
    }
}

/// The attributes of a file, by the metadata that came back.
pub fn file_attr_for_path(ino: u64, r: &Result<Option<PathStat>, Error>) -> (attr: FileAttr)
    ensures
        is_stat_attr(attr, ino, *r),
{
    match r {
        Ok(Some(st)) => file_attr(ino, st.size, system_time_from_datetime(st.created_at)),
        _ => file_attr(ino, 0, unix_epoch()),
    }
}

} // verus!
