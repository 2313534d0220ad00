//! Files: reading, writing, making, removing, renaming and truncating.

use vstd::prelude::*;
use vstd::slice::*;
use vstd::string::*;

use crate::mounted::find;
use crate::mounted::find::{give_attr, GetAttr};
use crate::mounted::state;
use crate::mounted::state::{
    has_children, has_leaf, look_up_name, Buffer, Errno, FsState, FsStep, FsView, TreeReply,
    TreeRequest, WriteBuf,
};
use crate::node;
use crate::node::{file_attr, unix_epoch, FileAttr, FileKind};
use crate::pathset::PathSet;
use crate::text::chars_of;

verus! {

broadcast use vstd::std_specs::hash::group_hash_axioms;

// ---------------------------------------------------------------------------
// Reading
// ---------------------------------------------------------------------------

/// The part of the content from `offset` on, no more than `size` bytes.
pub open spec fn part_of(content: Seq<u8>, offset: u64, size: u32) -> Seq<u8> {
    if offset >= content.len() {
        Seq::empty()
    } else if content.len() - offset <= size {
        content.skip(offset as int)
    } else {
        content.subrange(offset as int, offset + size)
    }
}

/// Cuts a part out of the content.
pub fn cut(content: &Vec<u8>, offset: u64, size: u32) -> (r: Vec<u8>)
    ensures
        r@ == part_of(content@, offset, size),
        forall|i: int| 0 <= i < r@.len() ==> #[trigger] r@[i] == content@[offset + i],
        r@.len() == (if offset >= content@.len() {
            0
        } else if content@.len() - offset < size {
            content@.len() - offset
        } else {
            size as int
        }),
{
    let len: usize = content.len();
    if offset >= len as u64 {
        let r: Vec<u8> = Vec::new();
        proof {
            assert(r@ =~= part_of(content@, offset, size));
        }
        return r;
    }
    let start: usize = offset as usize;
    let end: usize = if (len - start) as u64 <= size as u64 {
        len
    } else {
        start + size as usize
    };
    let r = slice_to_vec(slice_subrange(content.as_slice(), start, end));
    proof {
        assert(r@ =~= part_of(content@, offset, size));
    }
    r
}

/// Reading from a file.
#[derive(Debug)]
pub struct ReadFile {
    pub offset: u64,
    pub size: u32,
}

/// The first step of reading from a file. A directory has no readable contents.
pub open spec fn read_starts(
    s: FsView,
    ino: u64,
    offset: u64,
    size: u32,
    step: FsStep<ReadFile, Vec<u8>>,
) -> bool {
    if s.inodes.contains_key(ino) {
        if s.inodes[ino].kind == FileKind::Directory {
            state::fails(step, Errno::Io)
        } else {
            &&& step matches FsStep::Ask(TreeRequest::Bytes { path: p }, t)
            &&& p@ == s.inodes[ino].path
            &&& t == ReadFile { offset, size }
        }
    } else {
        state::fails(step, Errno::NoEntry)
    }
}

/// The step of reading from a file after a reply.
pub open spec fn read_resumes(
    task: ReadFile,
    reply: TreeReply,
    next: FsStep<ReadFile, Vec<u8>>,
) -> bool {
    match reply {
        TreeReply::Bytes(Ok(Some(content))) => next matches FsStep::Done(Ok(part)) && part@
            == part_of(content@, task.offset, task.size),
        _ => state::fails(next, Errno::Io),
    }
}

impl ReadFile {
    /// Starts to read from a file.
    pub fn start(state: &FsState, ino: u64, offset: u64, size: u32) -> (r: FsStep<
        ReadFile,
        Vec<u8>,
    >)
        ensures
            read_starts(state@, ino, offset, size, r),
    {
        match state.ino_info.get(&ino) {
            None => FsStep::Done(Err(Errno::NoEntry)),
            Some(info) => match info.kind {
                FileKind::Directory => FsStep::Done(Err(Errno::Io)),
                FileKind::RegularFile => FsStep::Ask(
                    TreeRequest::Bytes { path: info.path.clone() },
                    ReadFile { offset, size },
                ),
            },
        }
    }

    /// Goes on with the reply.
    pub fn resume(self, reply: TreeReply) -> (r: FsStep<ReadFile, Vec<u8>>)
        ensures
            read_resumes(self, reply, r),
    {
        match reply {
            TreeReply::Bytes(Ok(Some(content))) => FsStep::Done(
                Ok(cut(&content, self.offset, self.size)),
            ),
            _ => FsStep::Done(Err(Errno::Io)),
        }
    }
}

// ---------------------------------------------------------------------------
// Writing
// ---------------------------------------------------------------------------

/// The buffer with bytes written at an offset. It grows as far as needed, and a
/// gap is filled with zeros.
pub open spec fn written(data: Seq<u8>, offset: int, bytes: Seq<u8>) -> Seq<u8> {
    Seq::new(
        if data.len() >= offset + bytes.len() {
            data.len()
        } else {
            (offset + bytes.len()) as nat
        },
        |i: int|
            if offset <= i < offset + bytes.len() {
                bytes[i - offset]
            } else if i < data.len() {
                data[i]
            } else {
                0u8
            },
    )
}

/// The state after bytes were written through a handle. A handle without a
/// buffer gets an empty one first.
pub open spec fn wrote(s: FsView, ino: u64, fh: u64, offset: int, bytes: Seq<u8>) -> FsView {
    let before = if s.buffers.contains_key(fh) {
        s.buffers[fh]
    } else {
        Buffer { ino, data: Seq::empty() }
    };
    FsView {
        buffers: s.buffers.insert(
            fh,
            Buffer { ino: before.ino, data: written(before.data, offset, bytes) },
        ),
        ..s
    }
}

/// Writes bytes at an offset.
fn write_at(data: Vec<u8>, offset: usize, bytes: &[u8]) -> (r: Vec<u8>)
    requires
        offset + bytes@.len() <= usize::MAX,
    ensures
        r@ == written(data@, offset as int, bytes@),
        r@.len() >= data@.len() && r@.len() >= offset + bytes@.len(),
        r@.len() == data@.len() || r@.len() == offset + bytes@.len(),
        forall|i: int|
            offset <= i < offset + bytes@.len() ==> #[trigger] r@[i] == bytes@[i - offset],
        forall|i: int|
            0 <= i < data@.len() && !(offset <= i < offset + bytes@.len()) ==> #[trigger] r@[i]
                == data@[i],
{
    let ghost before = data@;
    let mut data = data;
    let end: usize = offset + bytes.len();
    while data.len() < end
        invariant
            before.len() <= data@.len(),
            data@.len() <= end || data@.len() == before.len(),
            data@.take(before.len() as int) == before,
            forall|i: int| before.len() <= i < data@.len() ==> data@[i] == 0,
        decreases end - data@.len(),
    {
        let ghost prior = data@;
        data.push(0);
        proof {
            assert(data@.take(before.len() as int) =~= prior.take(before.len() as int));
        }
    }
    let ghost grown = data@;
    proof {
        assert forall|i: int| 0 <= i < before.len() implies grown[i] == before[i] by {
            assert(grown.take(before.len() as int)[i] == before[i]);
        }
    }
    let mut i: usize = 0;
    while i < bytes.len()
        invariant
            i <= bytes@.len(),
            end == offset + bytes@.len(),
            end <= data@.len(),
            data@.len() == grown.len(),
            forall|j: int|
                0 <= j < data@.len() ==> #[trigger] data@[j] == (if offset <= j < offset + i {
                    bytes@[j - offset]
                } else {
                    grown[j]
                }),
        decreases bytes@.len() - i,
    {
        data.set(offset + i, bytes[i]);
        i += 1;
    }
    proof {
        assert(data@ =~= written(before, offset as int, bytes@));
    }
    data
}

impl FsState {
    /// Writes bytes through a handle, into its buffer. They are committed when
    /// the handle is released.
    pub fn write(&mut self, ino: u64, fh: u64, offset: u64, bytes: &[u8]) -> (r: u32)
        requires
            offset + bytes@.len() <= usize::MAX,
        ensures
            r == bytes@.len() as u32,
            final(self)@ == wrote(old(self)@, ino, fh, offset as int, bytes@),
            final(self)@.buffers.contains_key(fh),
            forall|i: int|
                offset <= i < offset + bytes@.len() ==> #[trigger] final(self)@.buffers[fh].data[i]
                    == bytes@[i - offset],
            forall|i: int|
                old(self)@.buffers.contains_key(fh) && 0 <= i < old(self)@.buffers[fh].data.len()
                    && !(offset <= i < offset + bytes@.len()) ==> i < final(self)@.buffers[fh].data.len()
                    && #[trigger] final(self)@.buffers[fh].data[i] == old(self)@.buffers[fh].data[i],
            forall|h: u64|
                h != fh && old(self)@.buffers.contains_key(h) ==> #[trigger] final(self)@.buffers[h]
                    == old(self)@.buffers[h],
    {
        let buf = match self.write_bufs.remove(&fh) {
            Some(buf) => buf,
            None => WriteBuf { ino, data: Vec::new() },
        };
        let WriteBuf { ino: owner, data } = buf;
        let new = WriteBuf { ino: owner, data: write_at(data, offset as usize, bytes) };
        let _ = self.write_bufs.insert(fh, new);
        proof {
            assert(buf@ == (if old(self)@.buffers.contains_key(fh) {
                old(self)@.buffers[fh]
            } else {
                Buffer { ino, data: Seq::empty() }
            })) by {
                assert(buf.data@ =~= buf@.data);
            }
            assert(self@.buffers =~= wrote(old(self)@, ino, fh, offset as int, bytes@).buffers);
        }
        bytes.len() as u32
    }
}

// ---------------------------------------------------------------------------
// Which path a name stands for
// ---------------------------------------------------------------------------

/// The two paths that a name with an underscore in front can stand for: its own,
/// and the one that it is an alias of.
#[derive(Debug)]
pub struct Choice {
    pub literal: String,
    pub shadowed: String,
}

/// The choice that a name leaves.
pub open spec fn is_choice(c: Choice, parent: Seq<char>, name: Seq<char>) -> bool {
    &&& c.literal@ == state::joined(parent, name)
    &&& c.shadowed@ == state::joined(parent, state::looked_up(name))
}

/// The name leaves a choice: it begins with an underscore, and goes on.
pub open spec fn leaves_choice(name: Seq<char>) -> bool {
    state::is_alias(name) && state::looked_up(name).len() > 0
}

/// Choosing the path that a name stands for where a file is made, removed or
/// renamed. It is the path of the name, unless that is nothing and the name is an
/// alias in a directory's shadow.
#[derive(Debug)]
pub enum ChoosePath {
    /// The versions of the path of the name are being asked for.
    Leaf { choice: Choice },
    /// What is below the path of the name is being asked for.
    Children { choice: Choice },
    /// What is below the other path is being asked for.
    Shadow { choice: Choice },
}

/// The first step of choosing.
pub open spec fn choosing_starts(
    parent: Seq<char>,
    name: Seq<char>,
    step: FsStep<ChoosePath, String>,
) -> bool {
    if leaves_choice(name) {
        &&& step matches FsStep::Ask(
            TreeRequest::Versions { path: p },
            ChoosePath::Leaf { choice: c },
        )
        &&& is_choice(c, parent, name)
        &&& p@ == c.literal@
    } else {
        step matches FsStep::Done(Ok(path)) && path@ == state::joined(parent, name)
    }
}

/// The step of choosing after a reply. `dirs` are the directories made by
/// `mkdir`.
pub open spec fn choosing_resumes(
    task: ChoosePath,
    dirs: Seq<Seq<char>>,
    reply: TreeReply,
    next: FsStep<ChoosePath, String>,
) -> bool {
    match (task, reply) {
        (ChoosePath::Leaf { choice }, TreeReply::Versions(r)) => if state::leaf_in(r) {
            next == FsStep::<ChoosePath, String>::Done(Ok(choice.literal))
        } else {
            &&& next matches FsStep::Ask(
                TreeRequest::Folder { path: p },
                ChoosePath::Children { choice: c },
            )
            &&& p@ == choice.literal@
            &&& c == choice
        },
        (ChoosePath::Children { choice }, TreeReply::Folder(r)) => if state::children_in(r)
            || dirs.contains(choice.literal@) {
            next == FsStep::<ChoosePath, String>::Done(Ok(choice.literal))
        } else {
            &&& next matches FsStep::Ask(
                TreeRequest::Folder { path: p },
                ChoosePath::Shadow { choice: c },
            )
            &&& p@ == choice.shadowed@
            &&& c == choice
        },
        (ChoosePath::Shadow { choice }, TreeReply::Folder(r)) => next == FsStep::<
            ChoosePath,
            String,
        >::Done(
            Ok(
                if state::children_in(r) || dirs.contains(choice.shadowed@) {
                    choice.shadowed
                } else {
                    choice.literal
                },
            ),
        ),
        _ => state::fails(next, Errno::Io),
    }
}

impl ChoosePath {
    /// Starts to choose the path of a name in a directory.
    pub fn start(parent: &str, name: &str) -> (r: FsStep<ChoosePath, String>)
        ensures
            choosing_starts(parent@, name@, r),
    {
        let literal = FsState::child_path(parent, name);
        let (plain, alias) = look_up_name(name);
        if alias && chars_of(plain.as_str()).len() > 0 {
            let shadowed = FsState::child_path(parent, plain.as_str());
            FsStep::Ask(
                TreeRequest::Versions { path: literal.clone() },
                ChoosePath::Leaf { choice: Choice { literal, shadowed } },
            )
        } else {
            FsStep::Done(Ok(literal))
        }
    }

    /// Goes on with the reply.
    pub fn resume(self, dirs: &PathSet, reply: TreeReply) -> (r: FsStep<ChoosePath, String>)
        ensures
            choosing_resumes(self, dirs@, reply, r),
    {
        match (self, reply) {
            (ChoosePath::Leaf { choice }, TreeReply::Versions(r)) => if has_leaf(&r) {
                FsStep::Done(Ok(choice.literal))
            } else {
                FsStep::Ask(
                    TreeRequest::Folder { path: choice.literal.clone() },
                    ChoosePath::Children { choice },
                )
            },
            (ChoosePath::Children { choice }, TreeReply::Folder(r)) => if has_children(&r)
                || dirs.contains(choice.literal.as_str()) {
                FsStep::Done(Ok(choice.literal))
            } else {
                FsStep::Ask(
                    TreeRequest::Folder { path: choice.shadowed.clone() },
                    ChoosePath::Shadow { choice },
                )
            },
            (ChoosePath::Shadow { choice }, TreeReply::Folder(r)) => if has_children(&r)
                || dirs.contains(choice.shadowed.as_str()) {
                FsStep::Done(Ok(choice.shadowed))
            } else {
                FsStep::Done(Ok(choice.literal))
            },
            _ => FsStep::Done(Err(Errno::Io)),
        }
    }
}

// ---------------------------------------------------------------------------
// Making and opening
// ---------------------------------------------------------------------------

/// The state after a file was made: its path is registered, and a fresh handle
/// has an empty buffer.
pub open spec fn created(s: FsView, path: Seq<char>) -> FsView {
    let ino = state::ino_for(path, FileKind::RegularFile);
    let known = state::registered(s, path, FileKind::RegularFile);
    FsView {
        buffers: known.buffers.insert(s.next_fh, Buffer { ino, data: Seq::empty() }),
        next_fh: s.next_fh.wrapping_add(1),
        ..known
    }
}

/// Making a file in a directory.
#[derive(Debug)]
pub struct Create {
    pub choosing: ChoosePath,
}

/// The step of making a file when choosing its path is at `c`, with the state
/// before and after. When the path is known the file is made and opened.
pub open spec fn create_goes_on(
    s: FsView,
    after: FsView,
    c: FsStep<ChoosePath, String>,
    next: FsStep<Create, (FileAttr, u64)>,
) -> bool {
    match c {
        FsStep::Ask(request, t) => after == s && next == FsStep::<Create, (FileAttr, u64)>::Ask(
            request,
            Create { choosing: t },
        ),
        FsStep::Done(Err(e)) => after == s && state::fails(next, e),
        FsStep::Done(Ok(path)) => {
            &&& after == created(s, path@)
            &&& next matches FsStep::Done(Ok((attr, fh)))
            &&& fh == s.next_fh
            &&& node::is_file_attr(
                attr,
                state::ino_for(path@, FileKind::RegularFile),
                0,
                node::epoch(),
            )
        },
    }
}

/// The first step of making a file, with the state before and after.
pub open spec fn create_starts(
    s: FsView,
    after: FsView,
    parent: u64,
    name: Seq<char>,
    step: FsStep<Create, (FileAttr, u64)>,
) -> bool {
    match state::directory_path(s, parent) {
        None => after == s && state::fails(step, Errno::NoEntry),
        Some(at) => exists|c: FsStep<ChoosePath, String>| #[trigger]
            choosing_starts(at, name, c) && create_goes_on(s, after, c, step),
    }
}

/// The step of making a file after a reply, with the state before and after.
pub open spec fn create_resumes(
    task: Create,
    s: FsView,
    after: FsView,
    reply: TreeReply,
    next: FsStep<Create, (FileAttr, u64)>,
) -> bool {
    exists|c: FsStep<ChoosePath, String>| #[trigger]
        choosing_resumes(task.choosing, s.dirs, reply, c) && create_goes_on(s, after, c, next)
}

/// Makes and opens the file when its path is known.
fn create_on(state: &mut FsState, c: FsStep<ChoosePath, String>) -> (r: FsStep<
    Create,
    (FileAttr, u64),
>)
    ensures
        create_goes_on(old(state)@, final(state)@, c, r),
{
    match c {
        FsStep::Ask(request, choosing) => FsStep::Ask(request, Create { choosing }),
        FsStep::Done(Err(e)) => FsStep::Done(Err(e)),
        FsStep::Done(Ok(path)) => {
            let ino = state.register_ino(path.as_str(), FileKind::RegularFile);
            let fh = state.alloc_fh(ino);
            FsStep::Done(Ok((file_attr(ino, 0, unix_epoch()), fh)))
        },
    }
}

impl Create {
    /// Starts to make a file in a directory and open it: its attributes and a
    /// handle.
    pub fn start(state: &mut FsState, parent: u64, name: &str) -> (r: FsStep<
        Create,
        (FileAttr, u64),
    >)
        ensures
            create_starts(old(state)@, final(state)@, parent, name@, r),
    {
        match state.parent_path(parent) {
            None => FsStep::Done(Err(Errno::NoEntry)),
            Some(at) => {
                let c = ChoosePath::start(at.as_str(), name);
                assert(choosing_starts(at@, name@, c));
                create_on(state, c)
            },
        }
    }

    /// Goes on with the reply.
    pub fn resume(self, state: &mut FsState, reply: TreeReply) -> (r: FsStep<
        Create,
        (FileAttr, u64),
    >)
        ensures
            create_resumes(self, old(state)@, final(state)@, reply, r),
    {
        let ghost before = state@;
        let ghost task = self.choosing;
        let c = self.choosing.resume(&state.ephemeral_dirs, reply);
        assert(choosing_resumes(task, before.dirs, reply, c));
        create_on(state, c)
    }
}

/// The state after a file was opened: a handle is given out.
pub open spec fn opened(s: FsView) -> FsView {
    FsView { next_fh: s.next_fh.wrapping_add(1), ..s }
}

impl FsState {
    /// Opens a file: a fresh handle. It has no buffer until it is written to.
    pub fn open(&mut self) -> (r: u64)
        ensures
            r == old(self)@.next_fh,
            final(self)@ == opened(old(self)@),
    {
        let fh = self.next_fh;
        self.next_fh = fh.wrapping_add(1);
        fh
    }
}

/// Releasing a handle.
#[derive(Debug)]
pub struct Release;

/// The first step of releasing a handle, with the state before and after: its
/// buffer goes, and what it holds is committed to the path of the inode.
pub open spec fn release_starts(
    s: FsView,
    after: FsView,
    ino: u64,
    fh: u64,
    step: FsStep<Release, ()>,
) -> bool {
    &&& after == FsView { buffers: s.buffers.remove(fh), ..s }
    &&& if s.buffers.contains_key(fh) && s.inodes.contains_key(ino) {
        &&& step matches FsStep::Ask(TreeRequest::Add { path: p, data }, _)
        &&& p@ == s.inodes[ino].path
        &&& data@ == s.buffers[fh].data
    } else {
        step == FsStep::<Release, ()>::Done(Ok(()))
    }
}

/// The step of releasing a handle after a reply. Whatever came of the commit,
/// the handle is released.
pub open spec fn release_resumes(
    task: Release,
    reply: TreeReply,
    next: FsStep<Release, ()>,
) -> bool {
    match reply {
        TreeReply::Added(_) => next == FsStep::<Release, ()>::Done(Ok(())),
        _ => state::fails(next, Errno::Io),
    }
}

impl Release {
    /// Starts to release a handle.
    pub fn start(state: &mut FsState, ino: u64, fh: u64) -> (r: FsStep<Release, ()>)
        ensures
            release_starts(old(state)@, final(state)@, ino, fh, r),
    {
        let ghost before = state@;
        let buf = state.write_bufs.remove(&fh);
        proof {
            assert(state@.buffers =~= before.buffers.remove(fh));
            assert(state@ == FsView { buffers: before.buffers.remove(fh), ..before });
        }
        match buf {
            None => FsStep::Done(Ok(())),
            Some(buf) => match state.ino_info.get(&ino) {
                None => FsStep::Done(Ok(())),
                Some(info) => FsStep::Ask(
                    TreeRequest::Add { path: info.path.clone(), data: buf.data },
                    Release,
                ),
            },
        }
    }

    /// Goes on with the reply.
    pub fn resume(self, reply: TreeReply) -> (r: FsStep<Release, ()>)
        ensures
            release_resumes(self, reply, r),
    {
        match reply {
            TreeReply::Added(_) => FsStep::Done(Ok(())),
            _ => FsStep::Done(Err(Errno::Io)),
        }
    }
}

// ---------------------------------------------------------------------------
// Removing
// ---------------------------------------------------------------------------

/// Removing a file.
#[derive(Debug)]
pub enum Unlink {
    /// It is being found out which path is meant.
    Choosing(ChoosePath),
    /// The path is being removed.
    Removing { path: String },
}

/// The step that removes a path.
pub open spec fn unlinks(step: FsStep<Unlink, ()>, path: Seq<char>) -> bool {
    &&& step matches FsStep::Ask(TreeRequest::Remove { path: p }, Unlink::Removing { path: q })
    &&& p@ == path
    &&& q@ == path
}

/// The step of removing a file when choosing its path is at `c`.
pub open spec fn unlink_goes_on(c: FsStep<ChoosePath, String>, next: FsStep<Unlink, ()>) -> bool {
    match c {
        FsStep::Ask(request, t) => next == FsStep::<Unlink, ()>::Ask(request, Unlink::Choosing(t)),
        FsStep::Done(Err(e)) => state::fails(next, e),
        FsStep::Done(Ok(path)) => unlinks(next, path@),
    }
}

/// The first step of removing a file.
pub open spec fn unlink_starts(
    s: FsView,
    parent: u64,
    name: Seq<char>,
    step: FsStep<Unlink, ()>,
) -> bool {
    match state::directory_path(s, parent) {
        None => state::fails(step, Errno::NoEntry),
        Some(at) => exists|c: FsStep<ChoosePath, String>| #[trigger]
            choosing_starts(at, name, c) && unlink_goes_on(c, step),
    }
}

/// The step of removing a file after a reply, with the state before and after.
/// With the path its inode goes.
pub open spec fn unlink_resumes(
    task: Unlink,
    s: FsView,
    after: FsView,
    reply: TreeReply,
    next: FsStep<Unlink, ()>,
) -> bool {
    match (task, reply) {
        (Unlink::Choosing(t), _) => after == s && exists|c: FsStep<ChoosePath, String>| #[trigger]
            choosing_resumes(t, s.dirs, reply, c) && unlink_goes_on(c, next),
        (Unlink::Removing { path }, TreeReply::Removed(Ok(_))) => {
            &&& after == state::unregistered(s, path@, FileKind::RegularFile)
            &&& next == FsStep::<Unlink, ()>::Done(Ok(()))
        },
        _ => after == s && state::fails(next, Errno::Io),
    }
}

/// Removes the path when it is known.
fn unlink_on(c: FsStep<ChoosePath, String>) -> (r: FsStep<Unlink, ()>)
    ensures
        unlink_goes_on(c, r),
{
    match c {
        FsStep::Ask(request, t) => FsStep::Ask(request, Unlink::Choosing(t)),
        FsStep::Done(Err(e)) => FsStep::Done(Err(e)),
        FsStep::Done(Ok(path)) => FsStep::Ask(
            TreeRequest::Remove { path: path.clone() },
            Unlink::Removing { path },
        ),
    }
}

impl Unlink {
    /// Starts to remove a file.
    pub fn start(state: &FsState, parent: u64, name: &str) -> (r: FsStep<Unlink, ()>)
        ensures
            unlink_starts(state@, parent, name@, r),
    {
        match state.parent_path(parent) {
            None => FsStep::Done(Err(Errno::NoEntry)),
            Some(at) => {
                let c = ChoosePath::start(at.as_str(), name);
                assert(choosing_starts(at@, name@, c));
                unlink_on(c)
            },
        }
    }

    /// Goes on with the reply.
    pub fn resume(self, state: &mut FsState, reply: TreeReply) -> (r: FsStep<Unlink, ()>)
        ensures
            unlink_resumes(self, old(state)@, final(state)@, reply, r),
    {
        match self {
            Unlink::Choosing(t) => {
                let ghost task = t;
                let ghost before = state@;
                let c = t.resume(&state.ephemeral_dirs, reply);
                assert(choosing_resumes(task, before.dirs, reply, c));
                unlink_on(c)
            },
            Unlink::Removing { path } => match reply {
                TreeReply::Removed(Ok(_)) => {
                    state.remove_ino(path.as_str(), FileKind::RegularFile);
                    FsStep::Done(Ok(()))
                },
                _ => FsStep::Done(Err(Errno::Io)),
            },
        }
    }
}

// ---------------------------------------------------------------------------
// Renaming
// ---------------------------------------------------------------------------

/// Renaming a file.
#[derive(Debug)]
pub enum Rename {
    /// It is being found out which old path is meant.
    ChoosingOld { choosing: ChoosePath, parent: String, name: String },
    /// It is being found out which new path is meant.
    ChoosingNew { old_path: String, choosing: ChoosePath },
    /// The content is being opened.
    Opening { old_path: String, new_path: String },
    /// The content is being added under the new path.
    Adding { old_path: String },
    /// The old path is being removed.
    Removing { old_path: String },
}

/// The step that opens the content for the move.
pub open spec fn moves(step: FsStep<Rename, ()>, from: Seq<char>, to: Seq<char>) -> bool {
    &&& step matches FsStep::Ask(
        TreeRequest::OpenReader { path: p },
        Rename::Opening { old_path: a, new_path: b },
    )
    &&& p@ == from
    &&& a@ == from
    &&& b@ == to
}

/// The step of renaming when choosing the new path is at `c`.
pub open spec fn rename_to(
    c: FsStep<ChoosePath, String>,
    from: Seq<char>,
    next: FsStep<Rename, ()>,
) -> bool {
    match c {
        FsStep::Ask(request, t) => {
            &&& next matches FsStep::Ask(q, Rename::ChoosingNew { old_path: a, choosing })
            &&& q == request
            &&& a@ == from
            &&& choosing == t
        },
        FsStep::Done(Err(e)) => state::fails(next, e),
        FsStep::Done(Ok(to)) => moves(next, from, to@),
    }
}

/// The step of renaming when choosing the old path is at `c`: the new path is
/// chosen after it.
pub open spec fn rename_from(
    c: FsStep<ChoosePath, String>,
    parent: Seq<char>,
    name: Seq<char>,
    next: FsStep<Rename, ()>,
) -> bool {
    match c {
        FsStep::Ask(request, t) => {
            &&& next matches FsStep::Ask(q, Rename::ChoosingOld { choosing, parent: p, name: n })
            &&& q == request
            &&& choosing == t
            &&& p@ == parent
            &&& n@ == name
        },
        FsStep::Done(Err(e)) => state::fails(next, e),
        FsStep::Done(Ok(from)) => exists|d: FsStep<ChoosePath, String>| #[trigger]
            choosing_starts(parent, name, d) && rename_to(d, from@, next),
    }
}

/// The first step of renaming a file.
pub open spec fn rename_starts(
    s: FsView,
    parent: u64,
    name: Seq<char>,
    new_parent: u64,
    new_name: Seq<char>,
    step: FsStep<Rename, ()>,
) -> bool {
    match (state::directory_path(s, parent), state::directory_path(s, new_parent)) {
        (Some(at), Some(to)) => exists|c: FsStep<ChoosePath, String>| #[trigger]
            choosing_starts(at, name, c) && rename_from(c, to, new_name, step),
        _ => state::fails(step, Errno::NoEntry),
    }
}

/// The step of renaming a file after a reply, with the state before and after.
/// The content is added under the new path, then the old path is removed.
pub open spec fn rename_resumes(
    task: Rename,
    s: FsView,
    after: FsView,
    reply: TreeReply,
    next: FsStep<Rename, ()>,
) -> bool {
    match (task, reply) {
        (Rename::ChoosingOld { choosing, parent, name }, _) => after == s && exists|
            c: FsStep<ChoosePath, String>,
        | #[trigger]
            choosing_resumes(choosing, s.dirs, reply, c) && rename_from(c, parent@, name@, next),
        (Rename::ChoosingNew { old_path, choosing }, _) => after == s && exists|
            c: FsStep<ChoosePath, String>,
        | #[trigger]
            choosing_resumes(choosing, s.dirs, reply, c) && rename_to(c, old_path@, next),
        (Rename::Opening { old_path, new_path }, TreeReply::Opened(r)) => {
            &&& after == s
            &&& if r matches Ok(there) && there {
                &&& next matches FsStep::Ask(
                    TreeRequest::AddFromReader { path: p, limit },
                    Rename::Adding { old_path: a },
                )
                &&& p@ == new_path@
                &&& limit is None
                &&& a@ == old_path@
            } else {
                state::fails(next, Errno::NoEntry)
            }
        },
        (Rename::Adding { old_path }, TreeReply::Added(r)) => {
            &&& after == s
            &&& if r is Ok {
                &&& next matches FsStep::Ask(
                    TreeRequest::Remove { path: p },
                    Rename::Removing { old_path: a },
                )
                &&& p@ == old_path@
                &&& a@ == old_path@
            } else {
                state::fails(next, Errno::Io)
            }
        },
        (Rename::Removing { old_path }, TreeReply::Removed(_)) => {
            &&& after == state::unregistered(s, old_path@, FileKind::RegularFile)
            &&& next == FsStep::<Rename, ()>::Done(Ok(()))
        },
        _ => after == s && state::fails(next, Errno::Io),
    }
}

/// Opens the content for the move.
fn move_path(old_path: String, new_path: String) -> (r: FsStep<Rename, ()>)
    ensures
        moves(r, old_path@, new_path@),
{
    FsStep::Ask(
        TreeRequest::OpenReader { path: old_path.clone() },
        Rename::Opening { old_path, new_path },
    )
}

/// Opens the content for the move when the new path is known.
fn go_to(c: FsStep<ChoosePath, String>, old_path: String) -> (r: FsStep<Rename, ()>)
    ensures
        rename_to(c, old_path@, r),
{
    match c {
        FsStep::Ask(request, choosing) => FsStep::Ask(
            request,
            Rename::ChoosingNew { old_path, choosing },
        ),
        FsStep::Done(Err(e)) => FsStep::Done(Err(e)),
        FsStep::Done(Ok(new_path)) => move_path(old_path, new_path),
    }
}

/// Goes on to the new path when the old one is known.
fn go_from(c: FsStep<ChoosePath, String>, parent: String, name: String) -> (r: FsStep<Rename, ()>)
    ensures
        rename_from(c, parent@, name@, r),
{
    match c {
        FsStep::Ask(request, choosing) => FsStep::Ask(
            request,
            Rename::ChoosingOld { choosing, parent, name },
        ),
        FsStep::Done(Err(e)) => FsStep::Done(Err(e)),
        FsStep::Done(Ok(old_path)) => {
            let d = ChoosePath::start(parent.as_str(), name.as_str());
            assert(choosing_starts(parent@, name@, d));
            go_to(d, old_path)
        },
    }
}

impl Rename {
    /// Starts to rename a file.
    pub fn start(state: &FsState, parent: u64, name: &str, new_parent: u64, new_name: &str) -> (r:
        FsStep<Rename, ()>)
        ensures
            rename_starts(state@, parent, name@, new_parent, new_name@, r),
    {
        let at = match state.parent_path(parent) {
            Some(at) => at,
            None => {
                return FsStep::Done(Err(Errno::NoEntry));
            },
        };
        let to = match state.parent_path(new_parent) {
            Some(to) => to,
            None => {
                return FsStep::Done(Err(Errno::NoEntry));
            },
        };
        let c = ChoosePath::start(at.as_str(), name);
        assert(choosing_starts(at@, name@, c));
        go_from(c, to, new_name.to_owned())
    }

    /// Goes on with the reply.
    pub fn resume(self, state: &mut FsState, reply: TreeReply) -> (r: FsStep<Rename, ()>)
        ensures
            rename_resumes(self, old(state)@, final(state)@, reply, r),
    {
        match (self, reply) {
            (Rename::ChoosingOld { choosing, parent, name }, reply) => {
                let ghost task = choosing;
                let ghost before = state@;
                let c = choosing.resume(&state.ephemeral_dirs, reply);
                assert(choosing_resumes(task, before.dirs, reply, c));
                go_from(c, parent, name)
            },
            (Rename::ChoosingNew { old_path, choosing }, reply) => {
                let ghost task = choosing;
                let ghost before = state@;
                let c = choosing.resume(&state.ephemeral_dirs, reply);
                assert(choosing_resumes(task, before.dirs, reply, c));
                go_to(c, old_path)
            },
            (Rename::Opening { old_path, new_path }, TreeReply::Opened(r)) => match r {
                Ok(true) => FsStep::Ask(
                    TreeRequest::AddFromReader { path: new_path, limit: None },
                    Rename::Adding { old_path },
                ),
                _ => FsStep::Done(Err(Errno::NoEntry)),
            },
            (Rename::Adding { old_path }, TreeReply::Added(r)) => match r {
                Ok(_) => FsStep::Ask(
                    TreeRequest::Remove { path: old_path.clone() },
                    Rename::Removing { old_path },
                ),
                Err(_) => FsStep::Done(Err(Errno::Io)),
            },
            (Rename::Removing { old_path }, TreeReply::Removed(_)) => {
                state.remove_ino(old_path.as_str(), FileKind::RegularFile);
                FsStep::Done(Ok(()))
            },
            _ => FsStep::Done(Err(Errno::Io)),
        }
    }
}

// ---------------------------------------------------------------------------
// Setting attributes
// ---------------------------------------------------------------------------

/// Setting attributes. Only the size is honored.
#[derive(Debug)]
pub enum SetAttr {
    /// The content is being opened.
    Opening { ino: u64, path: String, kind: FileKind, size: u64 },
    /// The content is being added, cut to the size.
    Adding { ino: u64, path: String, kind: FileKind },
    /// The attributes are being found out.
    Attr(GetAttr),
}

/// A step of finding out attributes as one of setting them.
pub open spec fn after_setting(step: FsStep<GetAttr, FileAttr>) -> FsStep<SetAttr, FileAttr> {
    match step {
        FsStep::Ask(request, t) => FsStep::Ask(request, SetAttr::Attr(t)),
        FsStep::Done(r) => FsStep::Done(r),
    }
}

/// The step that gives the attributes.
pub open spec fn gives_set_attr(
    step: FsStep<SetAttr, FileAttr>,
    ino: u64,
    path: Seq<char>,
    kind: FileKind,
) -> bool {
    exists|a: FsStep<GetAttr, FileAttr>| #[trigger]
        find::gives_attr(a, ino, path, kind) && step == after_setting(a)
}

/// The first step of setting attributes.
pub open spec fn setattr_starts(
    s: FsView,
    ino: u64,
    size: Option<u64>,
    step: FsStep<SetAttr, FileAttr>,
) -> bool {
    if s.inodes.contains_key(ino) {
        let path = s.inodes[ino].path;
        let kind = s.inodes[ino].kind;
        match size {
            None => gives_set_attr(step, ino, path, kind),
            Some(n) => {
                &&& step matches FsStep::Ask(
                    TreeRequest::OpenReader { path: p },
                    SetAttr::Opening { ino: i, path: q, kind: k, size: z },
                )
                &&& p@ == path
                &&& i == ino
                &&& q@ == path
                &&& k == kind
                &&& z == n
            },
        }
    } else {
        state::fails(step, Errno::NoEntry)
    }
}

/// The step of setting attributes after a reply. The first bytes of the content,
/// no more than the size, become a new version; whatever came of that, the
/// attributes are given.
pub open spec fn setattr_resumes(
    task: SetAttr,
    reply: TreeReply,
    next: FsStep<SetAttr, FileAttr>,
) -> bool {
    match (task, reply) {
        (SetAttr::Opening { ino, path, kind, size }, TreeReply::Opened(r)) => if r matches Ok(there)
            && there {
            &&& next matches FsStep::Ask(
                TreeRequest::AddFromReader { path: p, limit },
                SetAttr::Adding { ino: i, path: q, kind: k },
            )
            &&& p@ == path@
            &&& limit == Some(size)
            &&& i == ino
            &&& q@ == path@
            &&& k == kind
        } else {
            state::fails(next, Errno::Io)
        },
        (SetAttr::Adding { ino, path, kind }, TreeReply::Added(_)) => gives_set_attr(
            next,
            ino,
            path@,
            kind,
        ),
        (SetAttr::Attr(t), _) => exists|a: FsStep<GetAttr, FileAttr>| #[trigger]
            find::attr_resumes(t, reply, a) && next == after_setting(a),
        _ => state::fails(next, Errno::Io),
    }
}

/// A step of finding out attributes as one of setting them.
fn attr_after_setting(step: FsStep<GetAttr, FileAttr>) -> (r: FsStep<SetAttr, FileAttr>)
    ensures
        r == after_setting(step),
{
    match step {
        FsStep::Ask(request, t) => FsStep::Ask(request, SetAttr::Attr(t)),
        FsStep::Done(r) => FsStep::Done(r),
    }
}

impl SetAttr {
    /// Starts to set attributes.
    pub fn start(state: &FsState, ino: u64, size: Option<u64>) -> (r: FsStep<SetAttr, FileAttr>)
        ensures
            setattr_starts(state@, ino, size, r),
    {
        match state.ino_info.get(&ino) {
            None => FsStep::Done(Err(Errno::NoEntry)),
            Some(info) => match size {
                None => attr_after_setting(give_attr(ino, info.path.as_str(), info.kind)),
                Some(size) => FsStep::Ask(
                    TreeRequest::OpenReader { path: info.path.clone() },
                    SetAttr::Opening { ino, path: info.path.clone(), kind: info.kind, size },
                ),
            },
        }
    }

    /// Goes on with the reply.
    pub fn resume(self, reply: TreeReply) -> (r: FsStep<SetAttr, FileAttr>)
        ensures
            setattr_resumes(self, reply, r),
    {
        match self {
            SetAttr::Opening { ino, path, kind, size } => match reply {
                TreeReply::Opened(Ok(true)) => FsStep::Ask(
                    TreeRequest::AddFromReader { path: path.clone(), limit: Some(size) },
                    SetAttr::Adding { ino, path, kind },
                ),
                _ => FsStep::Done(Err(Errno::Io)),
            },
            SetAttr::Adding { ino, path, kind } => match reply {
                TreeReply::Added(_) => attr_after_setting(give_attr(ino, path.as_str(), kind)),
                _ => FsStep::Done(Err(Errno::Io)),
            },
            SetAttr::Attr(t) => attr_after_setting(t.resume(reply)),
        }
    }
}

} // verus!
