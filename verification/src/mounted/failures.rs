//! What comes of requests of the mounted filesystem that fail.

use vstd::prelude::*;

use crate::error::Error;
use crate::mounted::dir;
use crate::mounted::dir::{DirSlot, ReadDir};
use crate::mounted::file;
use crate::mounted::file::{
    ChoosePath, Create, ReadFile, Release, Rename, SetAttr, Unlink,
};
use crate::mounted::find;
use crate::mounted::find::{GetAttr, Lookup, MakeDir, RemoveDir, ResolveChild};
use crate::mounted::state;
use crate::mounted::state::{Errno, FsStep, FsView, TreeReply, TreeRequest};
use crate::node;
use crate::node::{FileAttr, FileKind, FileTime};

verus! {

/// The step ends the operation with the error number.
pub open spec fn gives<T, R>(step: FsStep<T, R>, errno: Errno) -> bool {
    step matches FsStep::Done(Err(e)) && e == errno
}

/// Reading ends with an input or output error where the store fails, where the path
/// has no content, and where a directory is read; an inode that is not known is no
/// entry.
pub proof fn read_fails(
    s: FsView,
    ino: u64,
    offset: u64,
    size: u32,
    first: FsStep<ReadFile, Vec<u8>>,
    task: ReadFile,
    reply: TreeReply,
    next: FsStep<ReadFile, Vec<u8>>,
)
    requires
        file::read_starts(s, ino, offset, size, first),
        file::read_resumes(task, reply, next),
    ensures
        !s.inodes.contains_key(ino) ==> gives(first, Errno::NoEntry),
        s.inodes.contains_key(ino) && s.inodes[ino].kind == FileKind::Directory ==> gives(
            first,
            Errno::Io,
        ),
        reply matches TreeReply::Bytes(Err(_)) ==> gives(next, Errno::Io),
        reply matches TreeReply::Bytes(Ok(None)) ==> gives(next, Errno::Io),
        !(reply is Bytes) ==> gives(next, Errno::Io),
        next matches FsStep::Done(Ok(_)) ==> (reply matches TreeReply::Bytes(Ok(b)) && b is Some),
{
}

/// A file whose metadata cannot be had has no size and the time of the epoch.
pub proof fn attr_fails(task: GetAttr, reply: TreeReply, next: FsStep<GetAttr, FileAttr>)
    requires
        find::attr_resumes(task, reply, next),
    ensures
        !(reply is Stat) ==> gives(next, Errno::Io),
        reply matches TreeReply::Stat(r) ==> {
            &&& next matches FsStep::Done(Ok(attr))
            &&& attr.ino == task.ino
            &&& attr.kind == FileKind::RegularFile
            &&& match r {
                Ok(Some(st)) => attr.size == st.size && attr.mtime == node::time_of(st.created_at),
                _ => attr.size == 0 && attr.mtime == (FileTime {
                    before_epoch: false,
                    nanos: 0,
                }),
            }
        },
{
}

/// A handle is released even where what it holds cannot be committed.
pub proof fn release_fails(task: Release, reply: TreeReply, next: FsStep<Release, ()>)
    requires
        file::release_resumes(task, reply, next),
    ensures
        reply is Added ==> next == FsStep::<Release, ()>::Done(Ok(())),
        !(reply is Added) ==> gives(next, Errno::Io),
{
}

/// A file that cannot be removed stays known, and its removal ends with an input or
/// output error.
pub proof fn unlink_fails(
    task: Unlink,
    s: FsView,
    after: FsView,
    reply: TreeReply,
    next: FsStep<Unlink, ()>,
)
    requires
        file::unlink_resumes(task, s, after, reply, next),
        task is Removing,
    ensures
        reply matches TreeReply::Removed(Err(_)) ==> gives(next, Errno::Io) && after == s,
        !(reply is Removed) ==> gives(next, Errno::Io) && after == s,
        next matches FsStep::Done(Ok(_)) ==> (reply matches TreeReply::Removed(r) && r is Ok),
{
}

/// Nothing is renamed where the old path cannot be read: there is no entry. Where the
/// content cannot be added under the new path, this is an input or output error, and
/// the old path is kept.
pub proof fn rename_fails(
    task: Rename,
    s: FsView,
    after: FsView,
    reply: TreeReply,
    next: FsStep<Rename, ()>,
)
    requires
        file::rename_resumes(task, s, after, reply, next),
    ensures
        task is Opening ==> {
            &&& after == s
            &&& reply matches TreeReply::Opened(Err(_)) ==> gives(next, Errno::NoEntry)
            &&& reply matches TreeReply::Opened(Ok(there)) ==> (!there ==> gives(
                next,
                Errno::NoEntry,
            ))
            &&& !(next matches FsStep::Done(Ok(_)))
        },
        task is Adding ==> {
            &&& after == s
            &&& reply matches TreeReply::Added(Err(_)) ==> gives(next, Errno::Io)
            &&& next is Ask ==> (reply matches TreeReply::Added(r) && r is Ok)
            &&& !(next matches FsStep::Done(Ok(_)))
        },
        next matches FsStep::Ask(request, _) ==> (request is Remove ==> task is Adding),
        next matches FsStep::Done(Ok(_)) ==> task is Removing,
{
}

/// Where a file is to be cut off, it must be there to read. What comes of adding the
/// shorter content does not matter: its attributes are given.
pub proof fn setattr_fails(task: SetAttr, reply: TreeReply, next: FsStep<SetAttr, FileAttr>)
    requires
        file::setattr_resumes(task, reply, next),
    ensures
        task is Opening ==> {
            &&& reply matches TreeReply::Opened(Err(_)) ==> gives(next, Errno::Io)
            &&& reply matches TreeReply::Opened(Ok(there)) ==> (!there ==> gives(next, Errno::Io))
            &&& !(next matches FsStep::Done(Ok(_)))
        },
        task is Adding && reply is Added ==> !(next matches FsStep::Done(Err(_))),
        task is Adding && !(reply is Added) ==> gives(next, Errno::Io),
{
}

/// What the store cannot list counts as not there when a name is resolved.
pub proof fn resolving_fails(
    task: ResolveChild,
    dirs: Seq<Seq<char>>,
    e: Error,
    next: FsStep<ResolveChild, Option<(String, FileKind)>>,
)
    requires
        task is Leaf ==> find::resolving_resumes(task, dirs, TreeReply::Versions(Err(e)), next),
        task is Children ==> find::resolving_resumes(task, dirs, TreeReply::Folder(Err(e)), next),
    ensures
        task matches ResolveChild::Leaf { search } ==> {
            &&& next matches FsStep::Ask(
                TreeRequest::Folder { path },
                ResolveChild::Children { search: x, leaf },
            )
            &&& path@ == search.path@
            &&& x == search
            &&& !leaf
        },
        task matches ResolveChild::Children { search, leaf } ==> (!dirs.contains(search.path@)
            && !search.alias && leaf ==> next == FsStep::<
            ResolveChild,
            Option<(String, FileKind)>,
        >::Done(Ok(Some((search.path, FileKind::RegularFile))))),
        task matches ResolveChild::Children { search, leaf } ==> (!dirs.contains(search.path@)
            && !leaf && search.after is None ==> next == FsStep::<
            ResolveChild,
            Option<(String, FileKind)>,
        >::Done(Ok(None))),
{
}

/// A name stands for a directory where something lies below its path, else for a file
/// where its path has a version. An alias stands for the file that a directory hides.
pub proof fn resolved_law(leaf: bool, children: bool)
    ensures
        children ==> find::resolved(false, leaf, children) == Some(FileKind::Directory),
        !children && leaf ==> find::resolved(false, leaf, children) == Some(
            FileKind::RegularFile,
        ),
        !children && !leaf ==> find::resolved(false, leaf, children) is None,
        children && leaf ==> find::resolved(true, leaf, children) == Some(FileKind::RegularFile),
        !(children && leaf) ==> find::resolved(true, leaf, children) is None,
{
}

/// A directory that the store cannot list is not read.
pub proof fn readdir_fails(
    task: ReadDir,
    s: FsView,
    reply: TreeReply,
    next: FsStep<ReadDir, Vec<DirSlot>>,
)
    requires
        dir::readdir_resumes(task, s, reply, next),
        task is Listing,
    ensures
        !(reply is Folder) ==> gives(next, Errno::Io),
        reply matches TreeReply::Folder(Err(_)) ==> gives(next, Errno::Io),
{
}

/// An inode that is not known is no entry, whatever is asked of it.
pub proof fn unknown_is_no_entry(
    s: FsView,
    after: FsView,
    ino: u64,
    name: Seq<char>,
    attr: FsStep<GetAttr, FileAttr>,
    found: FsStep<Lookup, FileAttr>,
    made: FsStep<MakeDir, FileAttr>,
    gone: FsStep<RemoveDir, ()>,
    created: FsStep<Create, (FileAttr, u64)>,
    unlinked: FsStep<Unlink, ()>,
    size: Option<u64>,
    set: FsStep<SetAttr, FileAttr>,
    offset: u64,
    listed: FsStep<ReadDir, Vec<DirSlot>>,
)
    requires
        ino != 1,
        !s.inodes.contains_key(ino),
        find::attr_starts(s, ino, attr),
        find::lookup_starts(s, ino, name, found),
        find::mkdir_starts(s, ino, name, made),
        find::rmdir_starts(s, ino, name, gone),
        file::create_starts(s, after, ino, name, created),
        file::unlink_starts(s, ino, name, unlinked),
        file::setattr_starts(s, ino, size, set),
        dir::readdir_starts(s, ino, offset, listed),
    ensures
        gives(attr, Errno::NoEntry),
        gives(found, Errno::NoEntry),
        gives(made, Errno::NoEntry),
        gives(gone, Errno::NoEntry),
        gives(created, Errno::NoEntry),
        after == s,
        gives(unlinked, Errno::NoEntry),
        gives(set, Errno::NoEntry),
        gives(listed, Errno::NoEntry),
{
}

/// A file is renamed from and to directories that are known.
pub proof fn rename_needs_both(
    s: FsView,
    parent: u64,
    name: Seq<char>,
    new_parent: u64,
    new_name: Seq<char>,
    step: FsStep<Rename, ()>,
)
    requires
        file::rename_starts(s, parent, name, new_parent, new_name, step),
        (parent != 1 && !s.inodes.contains_key(parent)) || (new_parent != 1
            && !s.inodes.contains_key(new_parent)),
    ensures
        gives(step, Errno::NoEntry),
{
}

/// What the store cannot list counts as not there when a path is chosen.
pub proof fn choosing_fails(
    task: ChoosePath,
    dirs: Seq<Seq<char>>,
    e: Error,
    next: FsStep<ChoosePath, String>,
)
    requires
        task is Leaf ==> file::choosing_resumes(task, dirs, TreeReply::Versions(Err(e)), next),
        !(task is Leaf) ==> file::choosing_resumes(task, dirs, TreeReply::Folder(Err(e)), next),
    ensures
        task is Leaf ==> next is Ask,
        task matches ChoosePath::Children { choice } ==> (next is Ask <==> !dirs.contains(
            choice.literal@,
        )),
        task matches ChoosePath::Shadow { choice } ==> next == FsStep::<ChoosePath, String>::Done(
            Ok(
                if dirs.contains(choice.shadowed@) {
                    choice.shadowed
                } else {
                    choice.literal
                },
            ),
        ),
{
}

/// A directory that holds others that were made cannot be removed, and neither can one
/// in which the store holds something. One that was not made is no entry.
pub proof fn rmdir_is_refused(
    s: FsView,
    after: FsView,
    parent: u64,
    name: Seq<char>,
    first: FsStep<RemoveDir, ()>,
    task: RemoveDir,
    reply: TreeReply,
    next: FsStep<RemoveDir, ()>,
)
    requires
        find::rmdir_starts(s, parent, name, first),
        find::rmdir_resumes(task, s, after, reply, next),
    ensures
        ({
            let at = state::directory_path(s, parent);
            at is Some ==> {
                let path = state::joined(at->0, name);
                &&& !s.dirs.contains(path) ==> gives(first, Errno::NoEntry)
                &&& forall|d: Seq<char>|
                    #![trigger s.dirs.contains(d)]
                    s.dirs.contains(path) && s.dirs.contains(d) && path.len() < d.len() && d.take(
                        path.len() as int + 1,
                    ) == path.push('/') ==> gives(first, Errno::NotEmpty)
            }
        }),
        reply matches TreeReply::Folder(Ok(v)) ==> (v@.len() > 0 ==> gives(next, Errno::NotEmpty)
            && after == s),
        !(reply is Folder) ==> gives(next, Errno::Io) && after == s,
{
    let at = state::directory_path(s, parent);
    if at is Some {
        let path = state::joined(at->0, name);
        assert forall|d: Seq<char>|
            #![trigger s.dirs.contains(d)]
            s.dirs.contains(path) && s.dirs.contains(d) && path.len() < d.len() && d.take(
                path.len() as int + 1,
            ) == path.push('/') implies gives(first, Errno::NotEmpty) by {
            let i = choose|i: int| 0 <= i < s.dirs.len() && s.dirs[i] == d;
            assert(crate::text::has_prefix(s.dirs[i], path.push('/')));
        }
    }
}

} // verus!
