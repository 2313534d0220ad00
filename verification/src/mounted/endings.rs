//! The operations of the filesystem end after a bounded number of turns.

use vstd::prelude::*;

use crate::index;
use crate::list;
use crate::mounted::dir;
use crate::mounted::dir::{DirSlot, ReadDir};
use crate::mounted::file;
use crate::mounted::file::{ChoosePath, Create, ReadFile, Release, Rename, SetAttr, Unlink};
use crate::mounted::find;
use crate::mounted::find::{GetAttr, Lookup, MakeDir, RemoveDir, ResolveChild};
use crate::mounted::laws;
use crate::mounted::laws::FsTurn;
use crate::mounted::state;
use crate::mounted::state::{FsStep, FsView, TreeReply};
use crate::node::{FileAttr, FileKind};

verus! {

/// What is left to do at turn `i` is more than at the next.
pub open spec fn falls_at<T, R>(
    left: spec_fn(FsStep<T, R>) -> nat,
    turns: Seq<FsTurn<T, R>>,
    i: int,
) -> bool {
    left(turns[i + 1].step) < left(turns[i].step)
}

/// What falls with every turn bounds the number of turns.
proof fn fall_ends<T, R>(left: spec_fn(FsStep<T, R>) -> nat, turns: Seq<FsTurn<T, R>>, k: int)
    requires
        0 <= k < turns.len(),
        forall|i: int| 0 <= i < turns.len() - 1 ==> #[trigger] falls_at(left, turns, i),
    ensures
        left(turns[k].step) + k <= left(turns[0].step),
    decreases k,
{
    if k > 0 {
        fall_ends(left, turns, k - 1);
        assert(falls_at(left, turns, k - 1));
    }
}

/// One for a step that asks, and nothing for the last.
pub open spec fn one_left<T, R>(step: FsStep<T, R>) -> nat {
    if step is Ask {
        1
    } else {
        0
    }
}

/// Reading from a file and finding out attributes end with the first reply.
pub proof fn reading_ends(read: Seq<FsTurn<ReadFile, Vec<u8>>>, attr: Seq<FsTurn<GetAttr, FileAttr>>)
    requires
        laws::is_run(|t, s: FsView, z: FsView, r, n| s == z && file::read_resumes(t, r, n), read),
        laws::is_run(|t, s: FsView, z: FsView, r, n| s == z && find::attr_resumes(t, r, n), attr),
    ensures
        read.len() <= 2,
        attr.len() <= 2,
{
    let reads = |t: ReadFile, s: FsView, z: FsView, r: TreeReply, n: FsStep<ReadFile, Vec<u8>>|
        s == z && file::read_resumes(t, r, n);
    let left = |step: FsStep<ReadFile, Vec<u8>>| one_left(step);
    assert forall|i: int| 0 <= i < read.len() - 1 implies #[trigger] falls_at(left, read, i) by {
        assert(laws::leads_on(reads, read, i));
    }
    fall_ends(left, read, read.len() - 1);
    let stats = |t: GetAttr, s: FsView, z: FsView, r: TreeReply, n: FsStep<GetAttr, FileAttr>|
        s == z && find::attr_resumes(t, r, n);
    let left = |step: FsStep<GetAttr, FileAttr>| one_left(step);
    assert forall|i: int| 0 <= i < attr.len() - 1 implies #[trigger] falls_at(left, attr, i) by {
        assert(laws::leads_on(stats, attr, i));
    }
    fall_ends(left, attr, attr.len() - 1);
}

/// Releasing a handle and removing a directory end with the first reply.
pub proof fn releasing_ends(release: Seq<FsTurn<Release, ()>>, rmdir: Seq<FsTurn<RemoveDir, ()>>)
    requires
        laws::is_run(
            |t, s: FsView, z: FsView, r, n| s == z && file::release_resumes(t, r, n),
            release,
        ),
        laws::is_run(|t, s, z, r, n| find::rmdir_resumes(t, s, z, r, n), rmdir),
    ensures
        release.len() <= 2,
        rmdir.len() <= 2,
{
    let releases = |t: Release, s: FsView, z: FsView, r: TreeReply, n: FsStep<Release, ()>|
        s == z && file::release_resumes(t, r, n);
    let left = |step: FsStep<Release, ()>| one_left(step);
    assert forall|i: int| 0 <= i < release.len() - 1 implies #[trigger] falls_at(
        left,
        release,
        i,
    ) by {
        assert(laws::leads_on(releases, release, i));
    }
    fall_ends(left, release, release.len() - 1);
    let removes = |t: RemoveDir, s: FsView, z: FsView, r: TreeReply, n: FsStep<RemoveDir, ()>|
        find::rmdir_resumes(t, s, z, r, n);
    let left = |step: FsStep<RemoveDir, ()>| one_left(step);
    assert forall|i: int| 0 <= i < rmdir.len() - 1 implies #[trigger] falls_at(left, rmdir, i) by {
        assert(laws::leads_on(removes, rmdir, i));
    }
    fall_ends(left, rmdir, rmdir.len() - 1);
}

/// How many replies choosing a path still waits for, at most.
pub open spec fn choosing_left(step: FsStep<ChoosePath, String>) -> nat {
    match step {
        FsStep::Ask(_, ChoosePath::Leaf { .. }) => 3,
        FsStep::Ask(_, ChoosePath::Children { .. }) => 2,
        FsStep::Ask(_, ChoosePath::Shadow { .. }) => 1,
        FsStep::Done(_) => 0,
    }
}

/// How many replies making a file still waits for, at most.
pub open spec fn create_left(step: FsStep<Create, (FileAttr, u64)>) -> nat {
    match step {
        FsStep::Ask(request, t) => choosing_left(
            FsStep::<ChoosePath, String>::Ask(request, t.choosing),
        ),
        FsStep::Done(_) => 0,
    }
}

/// Making a file ends.
pub proof fn create_ends(turns: Seq<FsTurn<Create, (FileAttr, u64)>>)
    requires
        laws::is_run(|t, s, z, r, n| file::create_resumes(t, s, z, r, n), turns),
    ensures
        turns.len() <= 4,
{
    let resumes = |
        t: Create,
        s: FsView,
        z: FsView,
        r: TreeReply,
        n: FsStep<Create, (FileAttr, u64)>,
    |
        file::create_resumes(t, s, z, r, n);
    let left = |step: FsStep<Create, (FileAttr, u64)>| create_left(step);
    assert forall|i: int| 0 <= i < turns.len() - 1 implies #[trigger] falls_at(left, turns, i) by {
        assert(laws::leads_on(resumes, turns, i));
    }
    fall_ends(left, turns, turns.len() - 1);
}

/// How many replies the removal of a file still waits for, at most.
pub open spec fn unlink_left(step: FsStep<Unlink, ()>) -> nat {
    match step {
        FsStep::Ask(request, Unlink::Choosing(t)) => choosing_left(
            FsStep::<ChoosePath, String>::Ask(request, t),
        ) + 1,
        FsStep::Ask(_, Unlink::Removing { .. }) => 1,
        FsStep::Done(_) => 0,
    }
}

/// Removing a file ends.
pub proof fn unlink_ends(turns: Seq<FsTurn<Unlink, ()>>)
    requires
        laws::is_run(|t, s, z, r, n| file::unlink_resumes(t, s, z, r, n), turns),
    ensures
        turns.len() <= 5,
{
    let resumes = |t: Unlink, s: FsView, z: FsView, r: TreeReply, n: FsStep<Unlink, ()>|
        file::unlink_resumes(t, s, z, r, n);
    let left = |step: FsStep<Unlink, ()>| unlink_left(step);
    assert forall|i: int| 0 <= i < turns.len() - 1 implies #[trigger] falls_at(left, turns, i) by {
        assert(laws::leads_on(resumes, turns, i));
    }
    fall_ends(left, turns, turns.len() - 1);
}

/// How many replies the renaming of a file still waits for, at most.
pub open spec fn rename_left(step: FsStep<Rename, ()>) -> nat {
    match step {
        FsStep::Ask(request, Rename::ChoosingOld { choosing, .. }) => choosing_left(
            FsStep::<ChoosePath, String>::Ask(request, choosing),
        ) + 6,
        FsStep::Ask(request, Rename::ChoosingNew { choosing, .. }) => choosing_left(
            FsStep::<ChoosePath, String>::Ask(request, choosing),
        ) + 3,
        FsStep::Ask(_, Rename::Opening { .. }) => 3,
        FsStep::Ask(_, Rename::Adding { .. }) => 2,
        FsStep::Ask(_, Rename::Removing { .. }) => 1,
        FsStep::Done(_) => 0,
    }
}

/// Renaming a file ends.
pub proof fn rename_ends(turns: Seq<FsTurn<Rename, ()>>)
    requires
        laws::is_run(|t, s, z, r, n| file::rename_resumes(t, s, z, r, n), turns),
    ensures
        turns.len() <= 10,
{
    let resumes = |t: Rename, s: FsView, z: FsView, r: TreeReply, n: FsStep<Rename, ()>|
        file::rename_resumes(t, s, z, r, n);
    let left = |step: FsStep<Rename, ()>| rename_left(step);
    assert forall|i: int| 0 <= i < turns.len() - 1 implies #[trigger] falls_at(left, turns, i) by {
        assert(laws::leads_on(resumes, turns, i));
    }
    fall_ends(left, turns, turns.len() - 1);
}

/// How many replies setting attributes still waits for, at most.
pub open spec fn setattr_left(step: FsStep<SetAttr, FileAttr>) -> nat {
    match step {
        FsStep::Ask(_, SetAttr::Opening { .. }) => 3,
        FsStep::Ask(_, SetAttr::Adding { .. }) => 2,
        FsStep::Ask(_, SetAttr::Attr(_)) => 1,
        FsStep::Done(_) => 0,
    }
}

/// Setting attributes ends.
pub proof fn setattr_ends(turns: Seq<FsTurn<SetAttr, FileAttr>>)
    requires
        laws::is_run(|t, s: FsView, z: FsView, r, n| s == z && file::setattr_resumes(t, r, n), turns),
    ensures
        turns.len() <= 4,
{
    let resumes = |t: SetAttr, s: FsView, z: FsView, r: TreeReply, n: FsStep<SetAttr, FileAttr>|
        s == z && file::setattr_resumes(t, r, n);
    let left = |step: FsStep<SetAttr, FileAttr>| setattr_left(step);
    assert forall|i: int| 0 <= i < turns.len() - 1 implies #[trigger] falls_at(left, turns, i) by {
        assert(laws::leads_on(resumes, turns, i));
    }
    fall_ends(left, turns, turns.len() - 1);
}

/// How many replies the resolving of a name still waits for, at most: four where
/// the name may be an alias.
pub open spec fn resolving_left(
    step: FsStep<ResolveChild, Option<(String, FileKind)>>,
) -> nat {
    match step {
        FsStep::Ask(_, ResolveChild::Leaf { search }) => if search.after is Some {
            4
        } else {
            2
        },
        FsStep::Ask(_, ResolveChild::Children { search, .. }) => if search.after is Some {
            3
        } else {
            1
        },
        FsStep::Done(_) => 0,
    }
}

/// How many replies looking up a name still waits for, at most.
pub open spec fn lookup_left(step: FsStep<Lookup, FileAttr>) -> nat {
    match step {
        FsStep::Ask(request, Lookup::Resolving(t)) => resolving_left(
            FsStep::<ResolveChild, Option<(String, FileKind)>>::Ask(request, t),
        ) + 1,
        FsStep::Ask(_, Lookup::Attr(_)) => 1,
        FsStep::Done(_) => 0,
    }
}

/// Looking up a name ends.
pub proof fn lookup_ends(turns: Seq<FsTurn<Lookup, FileAttr>>)
    requires
        laws::is_run(|t, s, z, r, n| find::lookup_resumes(t, s, z, r, n), turns),
    ensures
        turns.len() <= 6,
{
    let resumes = |t: Lookup, s: FsView, z: FsView, r: TreeReply, n: FsStep<Lookup, FileAttr>|
        find::lookup_resumes(t, s, z, r, n);
    let left = |step: FsStep<Lookup, FileAttr>| lookup_left(step);
    assert forall|i: int| 0 <= i < turns.len() - 1 implies #[trigger] falls_at(left, turns, i) by {
        assert(laws::leads_on(resumes, turns, i));
    }
    fall_ends(left, turns, turns.len() - 1);
}

/// How many replies making a directory still waits for, at most.
pub open spec fn mkdir_left(step: FsStep<MakeDir, FileAttr>) -> nat {
    match step {
        FsStep::Ask(request, t) => resolving_left(
            FsStep::<ResolveChild, Option<(String, FileKind)>>::Ask(request, t.resolving),
        ),
        FsStep::Done(_) => 0,
    }
}

/// Making a directory ends.
pub proof fn mkdir_ends(turns: Seq<FsTurn<MakeDir, FileAttr>>)
    requires
        laws::is_run(|t, s, z, r, n| find::mkdir_resumes(t, s, z, r, n), turns),
    ensures
        turns.len() <= 5,
{
    let resumes = |t: MakeDir, s: FsView, z: FsView, r: TreeReply, n: FsStep<MakeDir, FileAttr>|
        find::mkdir_resumes(t, s, z, r, n);
    let left = |step: FsStep<MakeDir, FileAttr>| mkdir_left(step);
    assert forall|i: int| 0 <= i < turns.len() - 1 implies #[trigger] falls_at(left, turns, i) by {
        assert(laws::leads_on(resumes, turns, i));
    }
    fall_ends(left, turns, turns.len() - 1);
}

/// How many replies reading a directory still waits for, at most, where `n`
/// entries are to be asked about.
pub open spec fn readdir_left(n: nat, step: FsStep<ReadDir, Vec<DirSlot>>) -> nat {
    match step {
        FsStep::Ask(_, ReadDir::Listing { .. }) => n + 1,
        FsStep::Ask(_, ReadDir::Asking { entries, made, leaves, .. }) => if leaves@.len()
            < entries@.len() + made@.len() {
            (entries@.len() + made@.len() - leaves@.len()) as nat
        } else {
            1
        },
        FsStep::Done(_) => 0,
    }
}

/// Answers that need no question are only added.
proof fn answered_grows(entries: Seq<list::Listed>, leaves: Seq<bool>)
    ensures
        dir::answered(entries, leaves).len() >= leaves.len(),
    decreases entries.len() - leaves.len(),
{
    if leaves.len() < entries.len() && entries[leaves.len() as int] is Path {
        answered_grows(entries, leaves.push(false));
    }
}

/// Reading that asks on has fewer questions left than entries without an answer.
proof fn asks_left(
    n: nat,
    step: FsStep<ReadDir, Vec<DirSlot>>,
    parent: Seq<char>,
    offset: u64,
    entries: Seq<list::Listed>,
    made: Seq<Seq<char>>,
    leaves: Seq<bool>,
)
    requires
        leaves.len() <= entries.len() + made.len(),
        dir::asks_on(step, parent, offset, entries, made, leaves),
    ensures
        readdir_left(n, step) <= entries.len() + made.len() - leaves.len(),
{
    answered_grows(entries, leaves);
    if let FsStep::Ask(_, ReadDir::Asking { entries: e, made: m, .. }) = step {
        assert(list::listed_views(e@).len() == e@.len());
        assert(index::texts(m@).len() == m@.len());
    }
}

/// Reading a directory ends: after a turn for each path that is listed, and each
/// directory that `mkdir` made in it, and two more.
pub proof fn readdir_ends(ino: u64, offset: u64, turns: Seq<FsTurn<ReadDir, Vec<DirSlot>>>)
    requires
        laws::is_run(
            |t, s: FsView, z: FsView, r, n| s == z && dir::readdir_resumes(t, s, r, n),
            turns,
        ),
        dir::readdir_starts(turns[0].state, ino, offset, turns[0].step),
    ensures
        turns.len() <= 2 || (turns[0].reply matches TreeReply::Folder(Ok(entries))
            && state::directory_path(turns[0].state, ino) matches Some(path) && turns.len()
            <= entries@.len() + dir::made_in(turns[0].state.dirs, path).len() + 2),
{
    let resumes = |
        t: ReadDir,
        s: FsView,
        z: FsView,
        r: TreeReply,
        n: FsStep<ReadDir, Vec<DirSlot>>,
    |
        s == z && dir::readdir_resumes(t, s, r, n);
    if turns.len() > 2 {
        assert(laws::leads_on(resumes, turns, 0));
        assert(laws::leads_on(resumes, turns, 1));
        let entries = turns[0].reply->Folder_0->Ok_0;
        let path = state::directory_path(turns[0].state, ino)->0;
        let made = dir::made_in(turns[0].state.dirs, path);
        let n = entries@.len() + made.len();
        let left = |step: FsStep<ReadDir, Vec<DirSlot>>| readdir_left(n, step);
        assert(list::listed_views(entries@).len() == entries@.len());
        asks_left(
            n,
            turns[1].step,
            path,
            offset,
            list::listed_views(entries@),
            made,
            Seq::empty(),
        );
        assert forall|i: int| 0 <= i < turns.len() - 1 implies #[trigger] falls_at(
            left,
            turns,
            i,
        ) by {
            assert(laws::leads_on(resumes, turns, i));
            if i > 0 {
                asking_after_first(ino, offset, turns, i);
                match (turns[i].step, turns[i].reply) {
                    (
                        FsStep::Ask(_, ReadDir::Asking { parent: p, offset: o, entries: e, made: m, leaves }),
                        TreeReply::Versions(r),
                    ) => {
                        assert(list::listed_views(e@).len() == e@.len());
                        assert(index::texts(m@).len() == m@.len());
                        if leaves@.len() < e@.len() + m@.len() {
                            asks_left(
                                n,
                                turns[i + 1].step,
                                p@,
                                o,
                                list::listed_views(e@),
                                index::texts(m@),
                                leaves@.push(state::leaf_in(r)),
                            );
                        }
                    },
                    _ => {},
                }
            }
        }
        fall_ends(left, turns, turns.len() - 1);
    }
}

/// After the first reply a directory is no longer listed.
proof fn asking_after_first(
    ino: u64,
    offset: u64,
    turns: Seq<FsTurn<ReadDir, Vec<DirSlot>>>,
    k: int,
)
    requires
        laws::is_run(
            |t, s: FsView, z: FsView, r, n| s == z && dir::readdir_resumes(t, s, r, n),
            turns,
        ),
        dir::readdir_starts(turns[0].state, ino, offset, turns[0].step),
        0 < k < turns.len(),
    ensures
        turns[k].step matches FsStep::Ask(_, t) ==> t is Asking,
{
    let resumes = |
        t: ReadDir,
        s: FsView,
        z: FsView,
        r: TreeReply,
        n: FsStep<ReadDir, Vec<DirSlot>>,
    |
        s == z && dir::readdir_resumes(t, s, r, n);
    assert(laws::leads_on(resumes, turns, k - 1));
}

} // verus!
