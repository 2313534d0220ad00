//! File handles: a fresh one is none in use.

use vstd::prelude::*;

use crate::mounted::file;
use crate::mounted::file::{Create, Release, Rename, Unlink};
use crate::mounted::find;
use crate::mounted::find::{Lookup, MakeDir, RemoveDir};
use crate::mounted::state;
use crate::mounted::state::{FsStep, FsView, TreeReply};
use crate::node::FileAttr;

verus! {

/// Every handle in use is below the next one, and only handles in use have a
/// buffer. A handle is in use from when it is given out until it is released.
pub open spec fn are_below(s: FsView, used: Set<u64>) -> bool {
    &&& forall|h: u64| #[trigger] used.contains(h) ==> h < s.next_fh
    &&& forall|h: u64| #[trigger] s.buffers.contains_key(h) ==> used.contains(h)
}

/// At first no handle is in use.
pub proof fn none_at_first()
    ensures
        are_below(state::at_first(), Set::empty()),
{
}

/// Opening gives out a handle that is not in use.
pub proof fn open_gives_a_fresh_one(s: FsView, used: Set<u64>)
    requires
        are_below(s, used),
        s.next_fh < u64::MAX,
    ensures
        !used.contains(s.next_fh),
        are_below(file::opened(s), used.insert(s.next_fh)),
{
}

/// The handles in use when making a file is at `step`.
pub open spec fn used_after(used: Set<u64>, step: FsStep<Create, (FileAttr, u64)>) -> Set<u64> {
    match step {
        FsStep::Done(Ok((_, fh))) => used.insert(fh),
        _ => used,
    }
}

/// The handle that making a file gives out, if it does, is not in use.
pub open spec fn gives_a_fresh_one(used: Set<u64>, step: FsStep<Create, (FileAttr, u64)>) -> bool {
    step matches FsStep::Done(Ok((_, fh))) ==> !used.contains(fh)
}

/// Starting to make a file gives out no handle in use.
pub proof fn create_starts_with_a_fresh_one(
    s: FsView,
    after: FsView,
    parent: u64,
    name: Seq<char>,
    step: FsStep<Create, (FileAttr, u64)>,
    used: Set<u64>,
)
    requires
        are_below(s, used),
        s.next_fh < u64::MAX,
        file::create_starts(s, after, parent, name, step),
    ensures
        gives_a_fresh_one(used, step),
        are_below(after, used_after(used, step)),
{
}

/// Going on to make a file gives out no handle in use.
pub proof fn create_gives_a_fresh_one(
    task: Create,
    s: FsView,
    after: FsView,
    reply: TreeReply,
    next: FsStep<Create, (FileAttr, u64)>,
    used: Set<u64>,
)
    requires
        are_below(s, used),
        s.next_fh < u64::MAX,
        file::create_resumes(task, s, after, reply, next),
    ensures
        gives_a_fresh_one(used, next),
        are_below(after, used_after(used, next)),
{
}

/// Writing through a handle in use keeps the handles.
pub proof fn write_keeps(
    s: FsView,
    ino: u64,
    fh: u64,
    offset: int,
    bytes: Seq<u8>,
    used: Set<u64>,
)
    requires
        are_below(s, used),
        used.contains(fh),
    ensures
        are_below(file::wrote(s, ino, fh, offset, bytes), used),
{
}

/// A released handle is in use no more, and has no buffer.
pub proof fn release_takes_one(
    s: FsView,
    after: FsView,
    ino: u64,
    fh: u64,
    step: FsStep<Release, ()>,
    used: Set<u64>,
)
    requires
        are_below(s, used),
        file::release_starts(s, after, ino, fh, step),
    ensures
        !after.buffers.contains_key(fh),
        are_below(after, used.remove(fh)),
{
}

/// The buffers and the next handle are as before.
pub open spec fn are_kept(s: FsView, after: FsView) -> bool {
    after.buffers == s.buffers && after.next_fh == s.next_fh
}

/// Looking up keeps the handles.
pub proof fn lookup_keeps(
    task: Lookup,
    s: FsView,
    after: FsView,
    reply: TreeReply,
    next: FsStep<Lookup, FileAttr>,
)
    requires
        find::lookup_resumes(task, s, after, reply, next),
    ensures
        are_kept(s, after),
{
}

/// Making a directory keeps the handles.
pub proof fn mkdir_keeps(
    task: MakeDir,
    s: FsView,
    after: FsView,
    reply: TreeReply,
    next: FsStep<MakeDir, FileAttr>,
)
    requires
        find::mkdir_resumes(task, s, after, reply, next),
    ensures
        are_kept(s, after),
{
}

/// Removing a directory keeps the handles.
pub proof fn rmdir_keeps(
    task: RemoveDir,
    s: FsView,
    after: FsView,
    reply: TreeReply,
    next: FsStep<RemoveDir, ()>,
)
    requires
        find::rmdir_resumes(task, s, after, reply, next),
    ensures
        are_kept(s, after),
{
}

/// Removing a file keeps the handles.
pub proof fn unlink_keeps(
    task: Unlink,
    s: FsView,
    after: FsView,
    reply: TreeReply,
    next: FsStep<Unlink, ()>,
)
    requires
        file::unlink_resumes(task, s, after, reply, next),
    ensures
        are_kept(s, after),
{
}

/// Renaming keeps the handles.
pub proof fn rename_keeps(
    task: Rename,
    s: FsView,
    after: FsView,
    reply: TreeReply,
    next: FsStep<Rename, ()>,
)
    requires
        file::rename_resumes(task, s, after, reply, next),
    ensures
        are_kept(s, after),
{
}

// ---------------------------------------------------------------------------
// Over a whole session
// ---------------------------------------------------------------------------

/// What one step of some operation does to the handles.
pub enum Change {
    /// A handle is given out, by opening or by making a file.
    Given(u64),
    /// A handle is written through.
    Written(u64),
    /// A handle is released.
    Released(u64),
    /// Nothing happens to the handles.
    Kept,
}

/// The states before and after such a step.
pub open spec fn changes(s: FsView, after: FsView, change: Change) -> bool {
    match change {
        Change::Given(fh) => {
            &&& fh == s.next_fh
            &&& s.next_fh < u64::MAX
            &&& after == file::opened(s) || exists|path: Seq<char>|
                after == #[trigger] file::created(s, path)
        },
        Change::Written(fh) => exists|ino: u64, offset: int, bytes: Seq<u8>|
            after == #[trigger] file::wrote(s, ino, fh, offset, bytes),
        Change::Released(fh) => after == FsView { buffers: s.buffers.remove(fh), ..s },
        Change::Kept => are_kept(s, after),
    }
}

/// The handles in use after the first `n` changes.
pub open spec fn used_at(all: Seq<Change>, n: nat) -> Set<u64>
    decreases n,
{
    if n == 0 {
        Set::empty()
    } else {
        let before = used_at(all, (n - 1) as nat);
        match all[n - 1] {
            Change::Given(fh) => before.insert(fh),
            Change::Released(fh) => before.remove(fh),
            _ => before,
        }
    }
}

/// A session: it begins with no handle, every change leads from one state to the
/// next, and only handles in use are written through.
pub open spec fn is_session(states: Seq<FsView>, all: Seq<Change>) -> bool {
    &&& states.len() == all.len() + 1
    &&& states[0] == state::at_first()
    &&& forall|i: int|
        0 <= i < all.len() ==> changes(states[i], states[i + 1], #[trigger] all[i])
    &&& forall|i: int|
        0 <= i < all.len() ==> ((#[trigger] all[i]) matches Change::Written(fh) ==> used_at(
            all,
            i as nat,
        ).contains(fh))
}

/// Throughout a session every handle in use is below the next one.
pub proof fn session_keeps(states: Seq<FsView>, all: Seq<Change>, n: nat)
    requires
        is_session(states, all),
        n <= all.len(),
    ensures
        are_below(states[n as int], used_at(all, n)),
    decreases n,
{
    if n > 0 {
        session_keeps(states, all, (n - 1) as nat);
        assert(changes(states[n - 1], states[n as int], all[n - 1]));
    }
}

/// A handle that is given out differs from every handle in use.
pub proof fn given_is_fresh(states: Seq<FsView>, all: Seq<Change>, n: nat, fh: u64)
    requires
        is_session(states, all),
        n < all.len(),
        all[n as int] == Change::Given(fh),
    ensures
        !used_at(all, n).contains(fh),
{
    session_keeps(states, all, n);
}

} // verus!
