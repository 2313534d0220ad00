//! What names, inodes, attributes and directory entries mean.

use vstd::prelude::*;
use vstd::string::*;

use crate::laws;
use crate::list;
use crate::list::Listed;
use crate::mounted::dir;
use crate::mounted::dir::{DirSlot, Link, ReadDir};
use crate::mounted::file;
use crate::mounted::file::{Create, ReadFile, Release, Rename, SetAttr, Unlink};
use crate::mounted::find;
use crate::mounted::find::GetAttr;
use crate::mounted::laws as files;
use crate::mounted::laws::{Files, FsTurn};
use crate::mounted::state;
use crate::mounted::state::{Errno, FsStep, FsView, Node, TreeReply};
use crate::node;
use crate::node::{FileAttr, FileKind, FileTime};
use crate::path;
use crate::pathset;
use crate::talk::Timestamp;
use crate::text;

verus! {

// ---------------------------------------------------------------------------
// Names
// ---------------------------------------------------------------------------

/// A name in the root directory is a path; in another it is put after the path of
/// the directory and a slash.
pub proof fn joined_law(parent: Seq<char>, name: Seq<char>)
    ensures
        parent.len() == 0 ==> state::joined(parent, name) == name,
        parent.len() > 0 ==> state::joined(parent, name) == parent + seq!['/'] + name,
{
    assert(parent.push('/') + name =~= parent + seq!['/'] + name);
}

/// A name stands for itself, unless it begins with underscores: one is left out, or
/// two where there are two or more.
pub proof fn looked_up_law(name: Seq<char>)
    ensures
        state::is_alias(name) <==> name.len() > 0 && name[0] == '_',
        !(name.len() > 0 && name[0] == '_') ==> state::looked_up(name) == name,
        state::looked_up(seq!['_'] + name) == (if name.len() > 0 && name[0] == '_' {
            name.skip(1)
        } else {
            name
        }),
{
    let one = seq!['_'] + name;
    assert(one.skip(1) =~= name);
    if name.len() > 0 {
        assert(one.skip(2) =~= name.skip(1));
    }
}

/// A name leaves a choice of two paths exactly if it begins with an underscore and
/// holds more than one underscore or two.
pub proof fn choice_law(name: Seq<char>)
    ensures
        file::leaves_choice(name) <==> {
            &&& name.len() > 1
            &&& name[0] == '_'
            &&& !(name.len() == 2 && name[1] == '_')
        },
{
    if name.len() > 1 {
        assert(name.skip(1)[0] == name[1]);
    }
}

/// A file is made, removed and renamed under the path of its name, where this does
/// not begin with an underscore; under such a name it is looked up too.
pub proof fn plain_name_law(f: Files, dirs: Seq<Seq<char>>, at: Seq<char>, name: Seq<char>)
    requires
        name.len() > 0,
        name[0] != '_',
    ensures
        ({
            let path = if at.len() == 0 {
                name
            } else {
                at + seq!['/'] + name
            };
            let is_file = path::is_valid(path) && f.contents.contains_key(path);
            let is_dir = dirs.contains(path) || (path::is_valid(path) && exists|p: Seq<char>|
                #![trigger f.contents.contains_key(p)]
                f.contents.contains_key(p) && text::has_prefix(p, path + seq!['/']));
            &&& files::target(f, dirs, at, name) == path
            &&& files::found(f, dirs, at, name) == (if is_dir {
                Some((path, FileKind::Directory))
            } else if is_file {
                Some((path, FileKind::RegularFile))
            } else {
                None
            })
        }),
{
    joined_law(at, name);
    looked_up_law(name);
    let path = state::joined(at, name);
    assert(path.push('/') =~= path + seq!['/']);
    assert(path.len() > 0);
}

/// A path lies directly in a directory exactly if it is the path of the directory, a
/// slash and a name without slashes; in the root it is such a name.
pub proof fn child_law(candidate: Seq<char>, parent: Seq<char>)
    ensures
        dir::is_child(candidate, parent) <==> laws::lies_in(candidate, parent),
{
    if dir::is_child(candidate, parent) {
        if parent.len() == 0 {
            assert(laws::is_part_of(candidate, candidate, parent));
        } else {
            let prefix = parent.push('/');
            let part = candidate.skip(prefix.len() as int);
            assert(candidate.take(prefix.len() as int) == prefix);
            assert(candidate =~= candidate.take(prefix.len() as int) + part);
            assert(prefix =~= parent + seq!['/']);
            assert(laws::is_part_of(part, candidate, parent));
        }
    }
    if laws::lies_in(candidate, parent) {
        let part = choose|part: Seq<char>| laws::is_part_of(part, candidate, parent);
        if parent.len() > 0 {
            let prefix = parent.push('/');
            assert(candidate.take(prefix.len() as int) =~= prefix);
            assert(candidate.skip(prefix.len() as int) =~= part);
        }
    }
}

/// The name of a path in its directory is what follows the last slash.
pub proof fn last_part_law(p: Seq<char>)
    ensures
        !dir::last_part(p).contains('/'),
        dir::last_part(p).len() <= p.len(),
        p.skip(p.len() - dir::last_part(p).len()) == dir::last_part(p),
        dir::last_part(p).len() < p.len() ==> p[p.len() - dir::last_part(p).len() - 1] == '/',
    decreases p.len(),
{
    let part = dir::last_part(p);
    if p.len() > 0 && p.last() != '/' {
        let head = p.drop_last();
        let rest = dir::last_part(head);
        last_part_law(head);
        assert(part == rest.push(p.last()));
        assert(p.skip(p.len() - part.len()) =~= part) by {
            assert forall|i: int| 0 <= i < part.len() implies part[i] == p[p.len() - part.len()
                + i] by {
                if i < rest.len() {
                    assert(rest[i] == head.skip(head.len() - rest.len())[i]);
                }
            }
        }
        assert forall|i: int| 0 <= i < part.len() implies part[i] != '/' by {
            if i < rest.len() {
                assert(rest.contains(rest[i]));
            }
        }
    } else {
        assert(p.skip(p.len() as int) =~= part);
    }
}

// ---------------------------------------------------------------------------
// Inodes
// ---------------------------------------------------------------------------

/// Registering a path makes its inode known, under its path and kind unless the
/// number is taken, and changes nothing else.
pub proof fn registered_law(s: FsView, path: Seq<char>, kind: FileKind)
    ensures
        ({
            let ino = state::ino_for(path, kind);
            let after = state::registered(s, path, kind);
            &&& after.inodes.contains_key(ino)
            &&& !s.inodes.contains_key(ino) ==> after.inodes[ino] == Node { path, kind }
            &&& forall|i: u64|
                s.inodes.contains_key(i) ==> #[trigger] after.inodes.contains_key(i)
                    && after.inodes[i] == s.inodes[i]
            &&& forall|i: u64|
                i != ino && #[trigger] after.inodes.contains_key(i) ==> s.inodes.contains_key(i)
            &&& after.dirs == s.dirs && after.buffers == s.buffers && after.next_fh == s.next_fh
        }),
{
}

/// Forgetting the inode of a path forgets it, and changes nothing else.
pub proof fn unregistered_law(s: FsView, path: Seq<char>, kind: FileKind)
    ensures
        ({
            let ino = node::ino_of(path, kind);
            let after = state::unregistered(s, path, kind);
            &&& forall|i: u64| #[trigger]
                after.inodes.contains_key(i) <==> s.inodes.contains_key(i) && i != ino
            &&& forall|i: u64| #[trigger]
                after.inodes.contains_key(i) ==> after.inodes[i] == s.inodes[i]
            &&& after.dirs == s.dirs && after.buffers == s.buffers && after.next_fh == s.next_fh
        }),
{
}

/// The numbers that stand for a directory and for a file differ: a directory is the
/// fourth of all file types, a file the fifth.
pub proof fn kind_law()
    ensures
        node::kind_code(FileKind::Directory) == 3,
        node::kind_code(FileKind::RegularFile) == 4,
{
}

/// The root directory has its own number and the empty path. The number of another
/// file or directory comes from its path and its kind, and its path is the one that it
/// is known under.
pub proof fn directory_path_law(s: FsView, ino: u64, path: Seq<char>, kind: FileKind)
    ensures
        state::ino_for(Seq::empty(), FileKind::Directory) == 1,
        path.len() > 0 || kind == FileKind::RegularFile ==> state::ino_for(path, kind)
            == node::ino_of(path, kind),
        state::directory_path(s, 1) == Some(Seq::<char>::empty()),
        ino != 1 && s.inodes.contains_key(ino) ==> state::directory_path(s, ino) == Some(
            s.inodes[ino].path,
        ),
        ino != 1 && !s.inodes.contains_key(ino) ==> state::directory_path(s, ino) is None,
{
}

/// At first the root directory is known, and nothing else; no directory was made and
/// no handle given out. The first handle will be one.
pub proof fn first_state_law()
    ensures
        state::at_first().inodes.contains_key(1),
        state::at_first().inodes[1] == (Node { path: Seq::empty(), kind: FileKind::Directory }),
        forall|i: u64| #[trigger] state::at_first().inodes.contains_key(i) ==> i == 1,
        state::at_first().dirs.len() == 0,
        forall|h: u64| !#[trigger] state::at_first().buffers.contains_key(h),
        state::at_first().next_fh == 1,
{
}

// ---------------------------------------------------------------------------
// Attributes
// ---------------------------------------------------------------------------

/// A directory can be read and entered by all and written by its owner; it has two
/// links and the time of the Unix epoch.
pub proof fn dir_attr_law(attr: FileAttr, ino: u64)
    requires
        node::is_dir_attr(attr, ino),
    ensures
        attr.ino == ino,
        attr.kind == FileKind::Directory,
        attr.perm == 493,
        attr.nlink == 2,
        attr.size == 4096,
        attr.blocks * 512 == attr.size,
        attr.atime.nanos == 0 && !attr.atime.before_epoch,
        attr.mtime == attr.atime && attr.ctime == attr.atime && attr.crtime == attr.atime,
        attr.uid == 0 && attr.gid == 0 && attr.rdev == 0 && attr.flags == 0,
        attr.blksize == 4096,
{
}

/// A file can be read by all and written by its owner; it has one link, the size and
/// the time that are given, and just the blocks that its content fills.
pub proof fn file_attr_law(attr: FileAttr, ino: u64, size: u64, time: FileTime)
    requires
        node::is_file_attr(attr, ino, size, time),
    ensures
        attr.ino == ino,
        attr.kind == FileKind::RegularFile,
        attr.perm == 420,
        attr.nlink == 1,
        attr.size == size,
        size <= 512 * attr.blocks < size + 512,
        attr.atime == time && attr.mtime == time && attr.ctime == time && attr.crtime == time,
        attr.uid == 0 && attr.gid == 0 && attr.rdev == 0 && attr.flags == 0,
        attr.blksize == 4096,
{
}

/// A file time is as far from the Unix epoch as the timestamp, on the same side of
/// it, where the nanoseconds fit; else it is the epoch.
pub proof fn time_law(t: Timestamp)
    ensures
        ({
            let n = t.seconds * 1_000_000_000 + t.nanos;
            let fits = -0x8000_0000_0000_0000 <= n <= 0x7fff_ffff_ffff_ffff;
            let time = node::time_of(t);
            let distance = if time.before_epoch {
                -(time.nanos as int)
            } else {
                time.nanos as int
            };
            &&& t.nanos < 1_000_000_000 && fits ==> distance == n
            &&& t.nanos < 2_000_000_000 && t.seconds as int % 60 == 59 && fits ==> distance == n
            &&& !fits ==> distance == 0
            &&& t.nanos >= 2_000_000_000 ==> distance == 0
            &&& t.nanos >= 1_000_000_000 && t.seconds as int % 60 != 59 ==> distance == 0
            &&& time.nanos == 0 ==> !time.before_epoch
        }),
{
}

/// The attributes of an inode: those of a directory, or those of a file with the size
/// of its content and the time of its metadata. An inode that is not known is
/// refused. Nothing changes.
pub proof fn getattr_law(ino: u64, turns: Seq<FsTurn<GetAttr, FileAttr>>)
    requires
        files::is_run(
            |t, s: FsView, z: FsView, r, n| s == z && find::attr_resumes(t, r, n),
            turns,
        ),
        find::attr_starts(turns[0].state, ino, turns[0].step),
    ensures
        turns.last().files == turns[0].files,
        turns.last().state == turns[0].state,
        turns.last().step matches FsStep::Done(r) ==> {
            let s = turns[0].state;
            let f = turns[0].files;
            if !s.inodes.contains_key(ino) {
                r == Err::<FileAttr, Errno>(Errno::NoEntry)
            } else {
                let path = s.inodes[ino].path;
                &&& r matches Ok(attr)
                &&& attr.ino == ino
                &&& match s.inodes[ino].kind {
                    FileKind::Directory => node::is_dir_attr(attr, ino),
                    FileKind::RegularFile => if path::is_valid(path) && f.contents.contains_key(
                        path,
                    ) {
                        &&& attr.size == f.contents[path].len()
                        &&& turns[0].reply matches TreeReply::Stat(Ok(Some(st)))
                        &&& node::is_file_attr(attr, ino, st.size, node::time_of(st.created_at))
                    } else {
                        node::is_file_attr(
                            attr,
                            ino,
                            0,
                            FileTime { before_epoch: false, nanos: 0 },
                        )
                    },
                }
            }
        },
{
    let resumes = |
        t: GetAttr,
        s: FsView,
        z: FsView,
        r: TreeReply,
        n: FsStep<GetAttr, FileAttr>,
    |
        s == z && find::attr_resumes(t, r, n);
    if turns.len() > 1 {
        assert(files::leads_on(resumes, turns, 0));
        if turns.len() > 2 {
            assert(files::leads_on(resumes, turns, 1));
        }
    }
}

// ---------------------------------------------------------------------------
// Making, writing and reading a file
// ---------------------------------------------------------------------------

/// A file that was made is known under its path, empty, and open under a handle with
/// an empty buffer.
pub proof fn created_law(s: FsView, path: Seq<char>)
    ensures
        ({
            let ino = state::ino_for(path, FileKind::RegularFile);
            let after = file::created(s, path);
            &&& after.inodes == state::registered(s, path, FileKind::RegularFile).inodes
            &&& after.dirs == s.dirs
            &&& after.buffers.contains_key(s.next_fh)
            &&& after.buffers[s.next_fh].ino == ino
            &&& after.buffers[s.next_fh].data.len() == 0
            &&& forall|h: u64|
                h != s.next_fh ==> (#[trigger] after.buffers.contains_key(h)
                    <==> s.buffers.contains_key(h)) && (s.buffers.contains_key(h)
                    ==> after.buffers[h] == s.buffers[h])
            &&& s.next_fh < u64::MAX ==> after.next_fh == s.next_fh + 1
        }),
{
}

/// Opening a file gives out the next handle, and changes nothing else.
pub proof fn opened_law(s: FsView)
    ensures
        file::opened(s).inodes == s.inodes,
        file::opened(s).dirs == s.dirs,
        file::opened(s).buffers == s.buffers,
        s.next_fh < u64::MAX ==> file::opened(s).next_fh == s.next_fh + 1,
{
}

/// What a handle's buffer held when it was released is what is read of the file
/// after: any range of it.
pub proof fn read_after_release(
    ino: u64,
    fh: u64,
    before: FsView,
    releasing: Seq<FsTurn<Release, ()>>,
    offset: u64,
    size: u32,
    reading: Seq<FsTurn<ReadFile, Vec<u8>>>,
)
    requires
        files::is_run(
            |t, s: FsView, z: FsView, r, n| s == z && file::release_resumes(t, r, n),
            releasing,
        ),
        file::release_starts(before, releasing[0].state, ino, fh, releasing[0].step),
        releasing.last().step is Done,
        before.buffers.contains_key(fh),
        before.inodes.contains_key(ino),
        before.inodes[ino].kind == FileKind::RegularFile,
        path::is_valid(before.inodes[ino].path),
        files::is_run(
            |t, s: FsView, z: FsView, r, n| s == z && file::read_resumes(t, r, n),
            reading,
        ),
        file::read_starts(reading[0].state, ino, offset, size, reading[0].step),
        reading[0].files == releasing.last().files,
        reading[0].state == releasing.last().state,
    ensures
        reading.last().step matches FsStep::Done(r) ==> r matches Ok(b) && files::is_range(
            before.buffers[fh].data,
            offset as int,
            size as int,
            b@,
        ),
{
    files::release_law(ino, fh, before, releasing);
    let resumes = |t: Release, s: FsView, z: FsView, r: TreeReply, n: FsStep<Release, ()>|
        s == z && file::release_resumes(t, r, n);
    if releasing.len() > 1 {
        assert(files::leads_on(resumes, releasing, 0));
        if releasing.len() > 2 {
            assert(files::leads_on(resumes, releasing, 1));
        }
    }
    assert(reading[0].state.inodes == before.inodes);
    files::read_law(ino, offset, size, reading);
}

/// The path of a name in a directory.
pub open spec fn path_in(at: Seq<char>, name: Seq<char>) -> Seq<char> {
    if at.len() == 0 {
        name
    } else {
        at + seq!['/'] + name
    }
}

/// The name is not empty and does not begin with an underscore.
pub open spec fn is_plain(name: Seq<char>) -> bool {
    name.len() > 0 && name[0] != '_'
}

/// Writes change no inode, and the handle keeps its buffer.
proof fn writes_keep(
    states: Seq<FsView>,
    ino: u64,
    fh: u64,
    writes: Seq<(int, Seq<u8>)>,
    n: int,
)
    requires
        files::are_writes(states, ino, fh, writes),
        states[0].buffers.contains_key(fh),
        0 <= n <= writes.len(),
    ensures
        states[n].inodes == states[0].inodes,
        states[n].buffers.contains_key(fh),
    decreases n,
{
    if n > 0 {
        let m = n - 1;
        writes_keep(states, ino, fh, writes, m);
        files::write_changes_one_buffer(states[m], ino, fh, writes[m].0, writes[m].1);
        assert(states[m + 1] == file::wrote(states[m], ino, fh, writes[m].0, writes[m].1));
    }
}

/// A file that is made, written and released holds what was written: at every
/// position the byte of the last write there, as far as the farthest write. No other
/// file changes.
pub proof fn made_file_holds_what_was_written(
    parent: u64,
    name: Seq<char>,
    before: FsView,
    making: Seq<FsTurn<Create, (FileAttr, u64)>>,
    attr: FileAttr,
    fh: u64,
    states: Seq<FsView>,
    writes: Seq<(int, Seq<u8>)>,
    releasing: Seq<FsTurn<Release, ()>>,
)
    requires
        files::is_run(|t, s, z, r, n| file::create_resumes(t, s, z, r, n), making),
        file::create_starts(before, making[0].state, parent, name, making[0].step),
        is_plain(name),
        state::directory_path(before, parent) matches Some(at) && path::is_valid(
            path_in(at, name),
        ) && !before.inodes.contains_key(
            state::ino_for(path_in(at, name), FileKind::RegularFile),
        ),
        making.last().step == FsStep::<Create, (FileAttr, u64)>::Done(Ok((attr, fh))),
        files::are_writes(states, attr.ino, fh, writes),
        states[0] == making.last().state,
        files::is_run(
            |t, s: FsView, z: FsView, r, n| s == z && file::release_resumes(t, r, n),
            releasing,
        ),
        file::release_starts(states.last(), releasing[0].state, attr.ino, fh, releasing[0].step),
        releasing[0].files == making.last().files,
        releasing.last().step is Done,
    ensures
        ({
            let path = path_in(state::directory_path(before, parent)->0, name);
            let first = making[0].files.contents;
            let end = releasing.last().files.contents;
            &&& end.contains_key(path)
            &&& forall|p: Seq<char>|
                p != path ==> (#[trigger] end.contains_key(p) <==> first.contains_key(p)) && (
                first.contains_key(p) ==> end[p] == first[p])
            &&& forall|k: int|
                0 <= k < writes.len() ==> (#[trigger] writes[k]).0 + writes[k].1.len()
                    <= end[path].len()
            &&& end[path].len() > 0 ==> exists|k: int|
                0 <= k < writes.len() && (#[trigger] writes[k]).0 + writes[k].1.len()
                    == end[path].len()
            &&& forall|k: int, i: int|
                #![trigger files::covers(writes, k, i)]
                0 <= k < writes.len() && files::covers(writes, k, i) && (forall|m: int|
                    k < m < writes.len() ==> !#[trigger] files::covers(writes, m, i))
                    ==> end[path][i] == writes[k].1[i - writes[k].0]
        }),
{
    let at = state::directory_path(before, parent)->0;
    let path = path_in(at, name);
    let n = writes.len() as int;
    files::create_law(parent, name, before, making);
    plain_name_law(making[0].files, before.dirs, at, name);
    created_law(before, path);
    registered_law(before, path, FileKind::RegularFile);
    writes_keep(states, attr.ino, fh, writes, n);
    files::writes_law(states, attr.ino, fh, writes, n);
    files::release_law(attr.ino, fh, states.last(), releasing);
    assert(states.last() == states[n]);
    assert(attr.ino == state::ino_for(path, FileKind::RegularFile));
    assert(states[n].inodes[attr.ino].path == path);
    assert(releasing.last().files.contents[path] == files::buffered(states[n], fh));
}

/// Removing a file removes the file of its name and keeps every other.
pub proof fn unlink_removes_one(parent: u64, name: Seq<char>, turns: Seq<FsTurn<Unlink, ()>>)
    requires
        files::is_run(|t, s, z, r, n| file::unlink_resumes(t, s, z, r, n), turns),
        file::unlink_starts(turns[0].state, parent, name, turns[0].step),
        is_plain(name),
        state::directory_path(turns[0].state, parent) matches Some(at) && path::is_valid(
            path_in(at, name),
        ),
        turns.last().step is Done,
    ensures
        ({
            let path = path_in(state::directory_path(turns[0].state, parent)->0, name);
            let first = turns[0].files.contents;
            let end = turns.last().files.contents;
            &&& turns.last().step == FsStep::<Unlink, ()>::Done(Ok(()))
            &&& !end.contains_key(path)
            &&& forall|p: Seq<char>|
                p != path ==> (#[trigger] end.contains_key(p) <==> first.contains_key(p)) && (
                first.contains_key(p) ==> end[p] == first[p])
            &&& !turns.last().state.inodes.contains_key(
                node::ino_of(path, FileKind::RegularFile),
            )
        }),
{
    let at = state::directory_path(turns[0].state, parent)->0;
    files::unlink_law(parent, name, turns);
    plain_name_law(turns[0].files, turns[0].state.dirs, at, name);
}

/// Renaming a file moves its content to the path of the new name and keeps every
/// other file. What the new path held is gone.
pub proof fn rename_moves_one(
    parent: u64,
    name: Seq<char>,
    new_parent: u64,
    new_name: Seq<char>,
    turns: Seq<FsTurn<Rename, ()>>,
)
    requires
        files::is_run(|t, s, z, r, n| file::rename_resumes(t, s, z, r, n), turns),
        file::rename_starts(turns[0].state, parent, name, new_parent, new_name, turns[0].step),
        is_plain(name),
        is_plain(new_name),
        state::directory_path(turns[0].state, parent) matches Some(at) && path::is_valid(
            path_in(at, name),
        ) && turns[0].files.contents.contains_key(path_in(at, name)),
        state::directory_path(turns[0].state, new_parent) matches Some(to) && path::is_valid(
            path_in(to, new_name),
        ),
        turns.last().step is Done,
    ensures
        ({
            let old = path_in(state::directory_path(turns[0].state, parent)->0, name);
            let new = path_in(state::directory_path(turns[0].state, new_parent)->0, new_name);
            let first = turns[0].files.contents;
            let end = turns.last().files.contents;
            &&& turns.last().step == FsStep::<Rename, ()>::Done(Ok(()))
            &&& !end.contains_key(old)
            &&& old != new ==> end.contains_key(new) && end[new] == first[old]
            &&& forall|p: Seq<char>|
                p != old && p != new ==> (#[trigger] end.contains_key(p) <==> first.contains_key(
                    p,
                )) && (first.contains_key(p) ==> end[p] == first[p])
        }),
{
    let at = state::directory_path(turns[0].state, parent)->0;
    let to = state::directory_path(turns[0].state, new_parent)->0;
    files::rename_law(parent, name, new_parent, new_name, turns);
    plain_name_law(turns[0].files, turns[0].state.dirs, at, name);
    plain_name_law(turns[0].files, turns[0].state.dirs, to, new_name);
}

/// Cutting a file off keeps its first bytes, as many as asked for, and every other
/// file. A file that is shorter stays as it is.
pub proof fn truncate_keeps_first_bytes(
    ino: u64,
    size: u64,
    turns: Seq<FsTurn<SetAttr, FileAttr>>,
)
    requires
        files::is_run(
            |t, s: FsView, z: FsView, r, n| s == z && file::setattr_resumes(t, r, n),
            turns,
        ),
        file::setattr_starts(turns[0].state, ino, Some(size), turns[0].step),
        turns[0].state.inodes.contains_key(ino),
        turns[0].state.inodes[ino].kind == FileKind::RegularFile,
        path::is_valid(turns[0].state.inodes[ino].path),
        turns[0].files.contents.contains_key(turns[0].state.inodes[ino].path),
        turns.last().step is Done,
    ensures
        ({
            let path = turns[0].state.inodes[ino].path;
            let first = turns[0].files.contents;
            let end = turns.last().files.contents;
            &&& turns.last().step matches FsStep::Done(Ok(attr))
            &&& attr.size == end[path].len()
            &&& end.contains_key(path)
            &&& end[path].len() == (if size < first[path].len() {
                size as int
            } else {
                first[path].len() as int
            })
            &&& forall|i: int| 0 <= i < end[path].len() ==> #[trigger] end[path][i]
                == first[path][i]
            &&& forall|p: Seq<char>|
                p != path ==> (#[trigger] end.contains_key(p) <==> first.contains_key(p)) && (
                first.contains_key(p) ==> end[p] == first[p])
        }),
{
    files::truncate_law(ino, size, turns);
}

// ---------------------------------------------------------------------------
// Directories
// ---------------------------------------------------------------------------

/// Some directory of the list lies below the path.
pub proof fn any_below_law(dirs: Seq<Seq<char>>, p: Seq<char>)
    ensures
        pathset::any_below(dirs, p) <==> exists|d: Seq<char>|
            #![trigger dirs.contains(d)]
            dirs.contains(d) && text::has_prefix(d, p + seq!['/']),
{
    assert(p + seq!['/'] =~= p.push('/'));
    if pathset::any_below(dirs, p) {
        let i = choose|i: int|
            0 <= i < dirs.len() && text::has_prefix(#[trigger] dirs[i], p.push('/'));
        assert(dirs.contains(dirs[i]));
    }
    if exists|d: Seq<char>|
        #![trigger dirs.contains(d)]
        dirs.contains(d) && text::has_prefix(d, p + seq!['/']) {
        let d = choose|d: Seq<char>|
            #![trigger dirs.contains(d)]
            dirs.contains(d) && text::has_prefix(d, p + seq!['/']);
        let i = choose|i: int| 0 <= i < dirs.len() && dirs[i] == d;
        assert(text::has_prefix(dirs[i], p.push('/')));
    }
}

/// The entry is right: it is a directory under its name, a file under its name, or a
/// file that a directory hides under its name with an underscore in front.
pub open spec fn is_right(
    f: Files,
    dirs: Seq<Seq<char>>,
    parent: Seq<char>,
    link: Link,
) -> bool {
    exists|base: Seq<char>|
        {
            &&& #[trigger] laws::is_part_of(base, link.path, parent)
            &&& match link.kind {
                FileKind::Directory => link.name == base && (files::has_file_below(f, link.path)
                    || dirs.contains(link.path)),
                FileKind::RegularFile => {
                    ||| link.name == base && f.contents.contains_key(link.path)
                        && !files::has_file_below(f, link.path)
                    ||| link.name == seq!['_'] + base && files::is_leaf(f, link.path) && (
                    files::has_file_below(f, link.path) || dirs.contains(link.path))
                },
            }
        }
}

/// Every entry of a directory after itself and the one above is right.
pub proof fn entries_are_right(
    f: Files,
    dirs: Seq<Seq<char>>,
    parent: Seq<char>,
    listed: Seq<Listed>,
    i: int,
)
    requires
        files::is_tree_listing(f, parent, listed),
    ensures
        ({
            let made = dir::made_in(dirs, parent);
            let all = dir::directory(parent, listed, made, files::leaves_of(f, listed, made));
            &&& all.len() >= 2
            &&& all[0] == Link { name: seq!['.'], path: parent, kind: FileKind::Directory }
            &&& all[1] == Link {
                name: seq!['.', '.'],
                path: Seq::empty(),
                kind: FileKind::Directory,
            }
            &&& 2 <= i < all.len() ==> is_right(f, dirs, parent, all[i])
        }),
{
    let made = dir::made_in(dirs, parent);
    let leaves = files::leaves_of(f, listed, made);
    let n = listed.len() as int;
    let stored = dir::stored_links(listed, leaves.take(n));
    let rest = dir::with_all_made(stored, made, leaves.skip(n));
    let all = dir::directory(parent, listed, made, leaves);
    reveal_strlit(".");
    reveal_strlit("..");
    assert("."@ =~= seq!['.']);
    assert(".."@ =~= seq!['.', '.']);
    if 2 <= i < all.len() {
        let link = all[i];
        assert(link == rest[i - 2]);
        assert(rest.contains(link));
        files::made_come_from(stored, made, leaves.skip(n), link);
        files::stored_come_from(f, listed, leaves.take(n));
        if stored.contains(link) {
            let k = choose|k: int|
                0 <= k < n && #[trigger] dir::links_of(listed[k], leaves.take(n)[k]).contains(link);
            assert(leaves.take(n)[k] == leaves[k]);
            stored_entry_is_right(f, dirs, parent, listed, k, link);
        } else {
            let j = choose|j: int|
                0 <= j < made.len() && (link == dir::dir_link(#[trigger] made[j]) || (link
                    == dir::hidden_link(made[j]) && leaves.skip(n)[j]));
            assert(made.contains(made[j]));
            files::filter_member(dirs, |d: Seq<char>| dir::is_child(d, parent), made[j]);
            assert(leaves.skip(n)[j] == leaves[n + j]);
            base_of_child(made[j], parent);
            assert(laws::is_part_of(dir::last_part(made[j]), link.path, parent));
        }
    }
}

/// An entry that a listed path gives is right.
proof fn stored_entry_is_right(
    f: Files,
    dirs: Seq<Seq<char>>,
    parent: Seq<char>,
    listed: Seq<Listed>,
    k: int,
    link: Link,
)
    requires
        files::is_tree_listing(f, parent, listed),
        0 <= k < listed.len(),
        dir::links_of(
            listed[k],
            listed[k] is CommonPrefix && files::is_leaf(f, listed[k].name()),
        ).contains(link),
    ensures
        is_right(f, dirs, parent, link),
{
    let p = listed[k].name();
    let from = dir::links_of(listed[k], listed[k] is CommonPrefix && files::is_leaf(f, p));
    let m = choose|m: int| 0 <= m < from.len() && from[m] == link;
    assert(dir::is_child(listed[k].name(), parent));
    base_of_child(p, parent);
    assert(laws::is_part_of(dir::last_part(p), link.path, parent));
}

/// The last part of a child is what it adds to its directory.
proof fn base_of_child(p: Seq<char>, parent: Seq<char>)
    requires
        dir::is_child(p, parent),
    ensures
        laws::is_part_of(dir::last_part(p), p, parent),
{
    child_law(p, parent);
    let part = choose|part: Seq<char>| laws::is_part_of(part, p, parent);
    let last = dir::last_part(p);
    last_part_law(p);
    let m = p.len() - part.len();
    assert(p.skip(m) =~= part);
    if last.len() < part.len() {
        let at = p.len() - last.len() - 1;
        assert(p[at] == part[at - m]);
        assert(part.contains(part[at - m]));
    } else if last.len() > part.len() {
        let at = m - 1;
        assert(p[at] == '/');
        let j = at - (p.len() - last.len());
        assert(last[j] == p.skip(p.len() - last.len())[j]);
        assert(last.contains(last[j]));
    }
    assert(last =~= part);
}

/// Some entry stands for the path under the name, as the kind.
pub open spec fn has_entry(
    links: Seq<Link>,
    name: Seq<char>,
    p: Seq<char>,
    kind: FileKind,
) -> bool {
    exists|i: int|
        {
            &&& 0 <= i < links.len()
            &&& (#[trigger] links[i]).name == name
            &&& links[i].path == p
            &&& links[i].kind == kind
        }
}

/// Everything that lies directly in a directory is listed: a path with files below it
/// as a directory under its name, a file without under its name, and a file that has
/// files below it under its name with an underscore in front. A directory that
/// `mkdir` made is listed too, or another entry has its name.
pub proof fn everything_is_listed(
    f: Files,
    dirs: Seq<Seq<char>>,
    parent: Seq<char>,
    listed: Seq<Listed>,
    base: Seq<char>,
    p: Seq<char>,
)
    requires
        files::is_tree_listing(f, parent, listed),
        laws::is_part_of(base, p, parent),
    ensures
        ({
            let made = dir::made_in(dirs, parent);
            let all = dir::directory(parent, listed, made, files::leaves_of(f, listed, made));
            &&& files::has_file_below(f, p) ==> has_entry(all, base, p, FileKind::Directory)
            &&& files::is_leaf(f, p) && !files::has_file_below(f, p) ==> has_entry(
                all,
                base,
                p,
                FileKind::RegularFile,
            )
            &&& files::is_leaf(f, p) && files::has_file_below(f, p) ==> has_entry(
                all,
                seq!['_'] + base,
                p,
                FileKind::RegularFile,
            )
            &&& dirs.contains(p) ==> dir::is_taken(all, base)
        }),
{
    let made = dir::made_in(dirs, parent);
    let leaves = files::leaves_of(f, listed, made);
    assert(laws::lies_in(p, parent));
    child_law(p, parent);
    base_of_child(p, parent);
    part_is_one(base, dir::last_part(p), p, parent);
    if files::is_leaf(f, p) || files::has_file_below(f, p) {
        let k = place_of(f, parent, listed, p);
        let from = dir::links_of(listed[k], leaves[k]);
        assert(from.contains(from[0]));
        is_in_directory(f, dirs, parent, listed, k, from[0]);
        if files::is_leaf(f, p) && files::has_file_below(f, p) {
            assert(from.contains(from[1]));
            is_in_directory(f, dirs, parent, listed, k, from[1]);
        }
    }
    if dirs.contains(p) {
        made_name_is_taken(f, dirs, parent, listed, p);
    }
}

/// Where a child with files at or below it is listed.
proof fn place_of(f: Files, parent: Seq<char>, listed: Seq<Listed>, p: Seq<char>) -> (k: int)
    requires
        files::is_tree_listing(f, parent, listed),
        dir::is_child(p, parent),
        files::is_leaf(f, p) || files::has_file_below(f, p),
    ensures
        0 <= k < listed.len(),
        listed[k].name() == p,
        listed[k] is CommonPrefix <==> files::has_file_below(f, p),
{
    let q = if files::has_file_below(f, p) {
        choose|q: Seq<char>|
            #![trigger f.contents.contains_key(q)]
            f.contents.contains_key(q) && text::has_prefix(q, list::folder_prefix(p))
    } else {
        p
    };
    assert(f.contents.contains_key(q));
    at_or_below(q, p, parent);
    let k = choose|k: int|
        0 <= k < listed.len() && ((#[trigger] listed[k]).name() == q || text::has_prefix(
            q,
            listed[k].name().push('/'),
        ));
    assert(dir::is_child(listed[k].name(), parent));
    child_law(p, parent);
    child_law(listed[k].name(), parent);
    same_child(q, p, listed[k].name(), parent);
    k
}

/// The name of a directory that `mkdir` made is the name of an entry.
proof fn made_name_is_taken(
    f: Files,
    dirs: Seq<Seq<char>>,
    parent: Seq<char>,
    listed: Seq<Listed>,
    p: Seq<char>,
)
    requires
        dirs.contains(p),
        dir::is_child(p, parent),
    ensures
        ({
            let made = dir::made_in(dirs, parent);
            let all = dir::directory(parent, listed, made, files::leaves_of(f, listed, made));
            dir::is_taken(all, dir::last_part(p))
        }),
{
    let made = dir::made_in(dirs, parent);
    let leaves = files::leaves_of(f, listed, made);
    let n = listed.len() as int;
    let stored = dir::stored_links(listed, leaves.take(n));
    let rest = dir::with_all_made(stored, made, leaves.skip(n));
    let all = dir::directory(parent, listed, made, leaves);
    let test = |d: Seq<char>| dir::is_child(d, parent);
    let i = choose|i: int| 0 <= i < dirs.len() && dirs[i] == p;
    dirs.lemma_filter_contains(test, i);
    let j = choose|j: int| 0 <= j < made.len() && made[j] == p;
    made_is_taken(stored, made, leaves.skip(n), j);
    let m = choose|m: int|
        0 <= m < rest.len() && (#[trigger] rest[m]).name == dir::last_part(p);
    assert(all[m + 2] == rest[m]);
}

/// A path adds one part to its directory.
proof fn part_is_one(a: Seq<char>, b: Seq<char>, p: Seq<char>, parent: Seq<char>)
    requires
        laws::is_part_of(a, p, parent),
        laws::is_part_of(b, p, parent),
    ensures
        a == b,
{
    if parent.len() > 0 {
        let m = parent.len() + 1;
        assert(p.skip(m as int) =~= a);
        assert(p.skip(m as int) =~= b);
    }
}

/// What is at or below a child is below the directory.
proof fn at_or_below(q: Seq<char>, p: Seq<char>, parent: Seq<char>)
    requires
        dir::is_child(p, parent),
        q == p || text::has_prefix(q, list::folder_prefix(p)),
    ensures
        text::has_prefix(q, list::folder_prefix(parent)),
{
    let prefix = list::folder_prefix(parent);
    if parent.len() == 0 {
        assert(q.take(0) =~= prefix);
    } else {
        assert(p.take(prefix.len() as int) == prefix);
        assert(q.take(prefix.len() as int) =~= prefix) by {
            assert forall|i: int| 0 <= i < prefix.len() implies q[i] == prefix[i] by {
                assert(p.take(prefix.len() as int)[i] == prefix[i]);
                if q != p {
                    assert(q.take(p.len() as int + 1)[i] == p.push('/')[i]);
                }
            }
        }
    }
}

/// A path is at or below one child of a directory only.
proof fn same_child(q: Seq<char>, a: Seq<char>, b: Seq<char>, parent: Seq<char>)
    requires
        laws::lies_in(a, parent),
        laws::lies_in(b, parent),
        q == a || text::has_prefix(q, list::folder_prefix(a)),
        q == b || text::has_prefix(q, b.push('/')),
    ensures
        a == b,
{
    let x = choose|x: Seq<char>| laws::is_part_of(x, a, parent);
    let y = choose|y: Seq<char>| laws::is_part_of(y, b, parent);
    let m = if parent.len() == 0 {
        0
    } else {
        parent.len() + 1
    };
    assert(a.len() > 0);
    assert forall|i: int| 0 <= i < a.len() implies q[i] == a[i] by {
        if q != a {
            assert(q.take(a.len() as int + 1)[i] == a.push('/')[i]);
        }
    }
    assert forall|i: int| 0 <= i < b.len() implies q[i] == b[i] by {
        if q != b {
            assert(q.take(b.len() as int + 1)[i] == b.push('/')[i]);
        }
    }
    assert(q != a ==> q[a.len() as int] == '/') by {
        if q != a {
            assert(q.take(a.len() as int + 1)[a.len() as int] == a.push('/')[a.len() as int]);
        }
    }
    assert(q != b ==> q[b.len() as int] == '/') by {
        if q != b {
            assert(q.take(b.len() as int + 1)[b.len() as int] == b.push('/')[b.len() as int]);
        }
    }
    if a.len() < b.len() {
        assert(b[a.len() as int] == '/');
        assert(y[a.len() - m] == '/');
        assert(y.contains(y[a.len() - m]));
    } else if b.len() < a.len() {
        assert(a[b.len() as int] == '/');
        assert(x[b.len() - m] == '/');
        assert(x.contains(x[b.len() - m]));
    }
    assert(a =~= b);
}

/// An entry that a listed path gives is one of the directory.
proof fn is_in_directory(
    f: Files,
    dirs: Seq<Seq<char>>,
    parent: Seq<char>,
    listed: Seq<Listed>,
    k: int,
    link: Link,
)
    requires
        0 <= k < listed.len(),
        dir::links_of(
            listed[k],
            files::leaves_of(f, listed, dir::made_in(dirs, parent))[k],
        ).contains(link),
    ensures
        ({
            let made = dir::made_in(dirs, parent);
            let all = dir::directory(parent, listed, made, files::leaves_of(f, listed, made));
            has_entry(all, link.name, link.path, link.kind)
        }),
{
    let made = dir::made_in(dirs, parent);
    let leaves = files::leaves_of(f, listed, made);
    let n = listed.len() as int;
    let stored = dir::stored_links(listed, leaves.take(n));
    let rest = dir::with_all_made(stored, made, leaves.skip(n));
    let all = dir::directory(parent, listed, made, leaves);
    files::stored_come_from(f, listed, leaves.take(n));
    assert(leaves.take(n)[k] == leaves[k]);
    assert(stored.contains(link));
    files::made_come_from(stored, made, leaves.skip(n), link);
    let j = choose|j: int| 0 <= j < rest.len() && rest[j] == link;
    assert(all[j + 2] == rest[j]);
}

/// The name of a made directory is taken.
proof fn made_is_taken(links: Seq<Link>, made: Seq<Seq<char>>, leaves: Seq<bool>, j: int)
    requires
        0 <= j < made.len(),
        leaves.len() == made.len(),
    ensures
        dir::is_taken(dir::with_all_made(links, made, leaves), dir::last_part(made[j])),
    decreases made.len(),
{
    let head = made.drop_last();
    let known = leaves.drop_last();
    let a = dir::with_all_made(links, head, known);
    let out = dir::with_all_made(links, made, leaves);
    let name = dir::last_part(made[j]);
    if j < head.len() {
        made_is_taken(links, head, known, j);
        let i = choose|i: int| 0 <= i < a.len() && (#[trigger] a[i]).name == name;
        assert(out[i] == a[i]);
    } else if !dir::is_taken(a, name) {
        assert(out[a.len() as int] == dir::dir_link(made[j]));
    }
}

/// A made directory is listed after what was listed before, unless its name is taken,
/// and with it the file that it hides, under its name with an underscore in front,
/// unless that name is taken.
pub proof fn made_directory_law(links: Seq<Link>, p: Seq<char>, leaf: bool)
    ensures
        ({
            let after = dir::with_made(links, p, leaf);
            let name = dir::last_part(p);
            &&& after.len() >= links.len() && after.take(links.len() as int) == links
            &&& dir::is_taken(links, name) ==> after == links
            &&& !dir::is_taken(links, name) ==> has_entry(after, name, p, FileKind::Directory)
            &&& !dir::is_taken(links, name) && leaf && !dir::is_taken(links, seq!['_'] + name)
                ==> has_entry(after, seq!['_'] + name, p, FileKind::RegularFile)
            &&& !leaf ==> after.len() <= links.len() + 1
        }),
{
    let after = dir::with_made(links, p, leaf);
    let name = dir::last_part(p);
    let more = links.push(dir::dir_link(p));
    assert(after.take(links.len() as int) =~= links);
    if !dir::is_taken(links, name) {
        assert(after[links.len() as int] == dir::dir_link(p));
        if leaf && !dir::is_taken(links, seq!['_'] + name) {
            assert((seq!['_'] + name).len() == name.len() + 1);
            assert(!dir::is_taken(more, dir::hidden_link(p).name)) by {
                assert forall|i: int| 0 <= i < more.len() implies (#[trigger] more[i]).name
                    != dir::hidden_link(p).name by {
                    if i < links.len() {
                        assert(links[i] == more[i]);
                    }
                }
            }
            assert(after[links.len() as int + 1] == dir::hidden_link(p));
        }
    }
}

/// Reading a directory gives every entry from the offset on, each with the offset
/// after it: what lies in the directory, and nothing else. Nothing changes.
pub proof fn readdir_gives_all(
    ino: u64,
    offset: u64,
    turns: Seq<FsTurn<ReadDir, Vec<DirSlot>>>,
)
    requires
        files::is_run(
            |t, s: FsView, z: FsView, r, n| s == z && dir::readdir_resumes(t, s, r, n),
            turns,
        ),
        dir::readdir_starts(turns[0].state, ino, offset, turns[0].step),
        state::directory_path(turns[0].state, ino) matches Some(p) && (p.len() == 0
            || path::is_valid(p)),
        files::files_are_clean(turns[0].files),
    ensures
        turns.last().step matches FsStep::Done(r) ==> {
            let f = turns[0].files;
            let dirs = turns[0].state.dirs;
            let parent = state::directory_path(turns[0].state, ino)->0;
            &&& r matches Ok(slots)
            &&& exists|links: Seq<Link>|
                {
                    &&& #[trigger] is_whole(f, dirs, parent, links)
                    &&& slots@.len() == (if offset < links.len() {
                        links.len() - offset
                    } else {
                        0
                    })
                    &&& forall|i: int|
                        0 <= i < slots@.len() ==> (#[trigger] slots@[i]).entry.name@ == links[offset
                            + i].name && slots@[i].entry.path@ == links[offset + i].path
                            && slots@[i].entry.kind == links[offset + i].kind && slots@[i].next
                            == offset + i + 1
                }
        },
{
    files::readdir_law(ino, offset, turns);
    if let FsStep::Done(Ok(slots)) = turns.last().step {
        let f = turns[0].files;
        let dirs = turns[0].state.dirs;
        let parent = state::directory_path(turns[0].state, ino)->0;
        let made = dir::made_in(dirs, parent);
        let listed = choose|listed: Seq<Listed>| #[trigger]
            files::is_tree_listing(f, parent, listed) && dir::are_slots(
                slots@,
                dir::directory(parent, listed, made, files::leaves_of(f, listed, made)),
                offset,
            );
        let links = dir::directory(parent, listed, made, files::leaves_of(f, listed, made));
        assert(is_whole(f, dirs, parent, links)) by {
            entries_are_right(f, dirs, parent, listed, 0);
            files::entries_come_once(f, dirs, parent, listed);
            assert forall|i: int| 2 <= i < links.len() implies is_right(
                f,
                dirs,
                parent,
                #[trigger] links[i],
            ) by {
                entries_are_right(f, dirs, parent, listed, i);
            }
            assert forall|base: Seq<char>, p: Seq<char>| #[trigger]
                laws::is_part_of(base, p, parent) implies is_listed(
                f,
                dirs,
                links,
                base,
                p,
            ) by {
                everything_is_listed(f, dirs, parent, listed, base, p);
            }
        }
        assert forall|i: int| 0 <= i < slots@.len() implies (#[trigger] slots@[i]).entry.name@
            == links[offset + i].name && slots@[i].entry.path@ == links[offset + i].path
            && slots@[i].entry.kind == links[offset + i].kind && slots@[i].next == offset + i
            + 1 by {
            assert(slots@[i].entry@ == links[offset + i]);
        }
    }
}

/// The child is listed as what it is.
pub open spec fn is_listed(
    f: Files,
    dirs: Seq<Seq<char>>,
    links: Seq<Link>,
    base: Seq<char>,
    p: Seq<char>,
) -> bool {
    &&& files::has_file_below(f, p) ==> has_entry(links, base, p, FileKind::Directory)
    &&& files::is_leaf(f, p) && !files::has_file_below(f, p) ==> has_entry(
        links,
        base,
        p,
        FileKind::RegularFile,
    )
    &&& files::is_leaf(f, p) && files::has_file_below(f, p) ==> has_entry(
        links,
        seq!['_'] + base,
        p,
        FileKind::RegularFile,
    )
    &&& dirs.contains(p) ==> exists|i: int|
        0 <= i < links.len() && (#[trigger] links[i]).name == base
}

/// The entries are those of the directory: itself and the one above, then right
/// entries only, each once, and one for everything that lies in it.
pub open spec fn is_whole(
    f: Files,
    dirs: Seq<Seq<char>>,
    parent: Seq<char>,
    links: Seq<Link>,
) -> bool {
    &&& links.len() >= 2
    &&& links[0] == Link { name: seq!['.'], path: parent, kind: FileKind::Directory }
    &&& links[1] == Link { name: seq!['.', '.'], path: Seq::empty(), kind: FileKind::Directory }
    &&& forall|i: int| 2 <= i < links.len() ==> is_right(f, dirs, parent, #[trigger] links[i])
    &&& links.no_duplicates()
    &&& forall|base: Seq<char>, p: Seq<char>| #[trigger]
        laws::is_part_of(base, p, parent) ==> is_listed(f, dirs, links, base, p)
}

} // verus!
