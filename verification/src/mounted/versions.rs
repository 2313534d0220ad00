//! What the filesystem's operations do to the versions in the store.

use vstd::prelude::*;

use crate::hash;
use crate::index::{Row, Version};
use crate::laws;
use crate::mounted::backing;
use crate::mounted::backing::Backing;
use crate::mounted::file;
use crate::mounted::file::{Release, Rename, SetAttr, Unlink};
use crate::mounted::find;
use crate::mounted::find::GetAttr;
use crate::mounted::laws as files;
use crate::mounted::laws::FsTurn;
use crate::mounted::state;
use crate::mounted::state::{Errno, FsStep, FsView, TreeReply, TreeRequest};
use crate::node::{FileAttr, FileKind};
use crate::path;
use crate::world;

verus! {

// ---------------------------------------------------------------------------
// Runs over the store
// ---------------------------------------------------------------------------

/// One moment of an operation: the store, the state, where the operation stands,
/// and the reply that it is about to get.
pub struct StoreTurn<T, R> {
    pub back: Backing,
    pub state: FsView,
    pub step: FsStep<T, R>,
    pub reply: TreeReply,
}

/// Turn `i` leads to the next: the store answers the request, and the operation
/// resumes as it promises. The identifiers of new versions are newer than those
/// before, and the rows can be counted.
pub open spec fn leads_on<T, R>(
    resumes: spec_fn(T, FsView, FsView, TreeReply, FsStep<T, R>) -> bool,
    turns: Seq<StoreTurn<T, R>>,
    i: int,
) -> bool {
    match turns[i].step {
        FsStep::Done(_) => false,
        FsStep::Ask(request, task) => {
            &&& turns[i].back.world.rows.len() <= u32::MAX
            &&& backing::is_timely(turns[i].back, turns[i].reply)
            &&& backing::answers(turns[i].back, request, turns[i].reply, turns[i + 1].back)
            &&& resumes(
                task,
                turns[i].state,
                turns[i + 1].state,
                turns[i].reply,
                turns[i + 1].step,
            )
        },
    }
}

/// A run of an operation over the store.
pub open spec fn is_run<T, R>(
    resumes: spec_fn(T, FsView, FsView, TreeReply, FsStep<T, R>) -> bool,
    turns: Seq<StoreTurn<T, R>>,
) -> bool {
    &&& turns.len() > 0
    &&& forall|i: int| 0 <= i < turns.len() - 1 ==> #[trigger] leads_on(resumes, turns, i)
}

/// `inv` survives every turn.
pub open spec fn is_kept<T, R>(
    resumes: spec_fn(T, FsView, FsView, TreeReply, FsStep<T, R>) -> bool,
    inv: spec_fn(Backing, FsView, FsStep<T, R>) -> bool,
) -> bool {
    forall|
        b: Backing,
        request: TreeRequest,
        task: T,
        s: FsView,
        c: Backing,
        after: FsView,
        reply: TreeReply,
        next: FsStep<T, R>,
    |
        #![trigger inv(b, s, FsStep::Ask(request, task)), backing::answers(b, request, reply, c), resumes(task, s, after, reply, next)]
        {
            &&& inv(b, s, FsStep::Ask(request, task))
            &&& b.world.rows.len() <= u32::MAX
            &&& backing::is_timely(b, reply)
            &&& backing::answers(b, request, reply, c)
            &&& resumes(task, s, after, reply, next)
        } ==> inv(c, after, next)
}

/// What holds at the start and survives every turn holds throughout.
pub proof fn run_keeps<T, R>(
    resumes: spec_fn(T, FsView, FsView, TreeReply, FsStep<T, R>) -> bool,
    inv: spec_fn(Backing, FsView, FsStep<T, R>) -> bool,
    turns: Seq<StoreTurn<T, R>>,
    k: int,
)
    requires
        is_run(resumes, turns),
        is_kept(resumes, inv),
        inv(turns[0].back, turns[0].state, turns[0].step),
        0 <= k < turns.len(),
    ensures
        inv(turns[k].back, turns[k].state, turns[k].step),
    decreases k,
{
    if k > 0 {
        run_keeps(resumes, inv, turns, k - 1);
        assert(leads_on(resumes, turns, k - 1));
        match turns[k - 1].step {
            FsStep::Done(_) => {},
            FsStep::Ask(request, task) => {
                let a = turns[k - 1];
                let b = turns[k];
                assert(inv(a.back, a.state, FsStep::Ask(request, task)));
                assert(backing::answers(a.back, request, a.reply, b.back));
                assert(resumes(task, a.state, b.state, a.reply, b.step));
            },
        }
    }
}

/// A run over the store as one over its files.
pub open spec fn as_files<T, R>(turns: Seq<StoreTurn<T, R>>) -> Seq<FsTurn<T, R>> {
    turns.map_values(
        |t: StoreTurn<T, R>|
            FsTurn {
                files: backing::files_of(t.back),
                state: t.state,
                step: t.step,
                reply: t.reply,
            },
    )
}

/// No content that the turn adds has the hash of another.
pub open spec fn is_apart<T, R>(turn: StoreTurn<T, R>) -> bool {
    turn.step matches FsStep::Ask(request, _) ==> backing::is_apart(turn.back, request)
}

/// The store stays sound throughout a run.
proof fn run_stays_sound<T, R>(
    resumes: spec_fn(T, FsView, FsView, TreeReply, FsStep<T, R>) -> bool,
    turns: Seq<StoreTurn<T, R>>,
    k: int,
)
    requires
        is_run(resumes, turns),
        backing::is_sound(turns[0].back.world),
        forall|i: int| 0 <= i < turns.len() - 1 ==> is_apart(#[trigger] turns[i]),
        0 <= k < turns.len(),
    ensures
        backing::is_sound(turns[k].back.world),
    decreases k,
{
    if k > 0 {
        run_stays_sound(resumes, turns, k - 1);
        assert(leads_on(resumes, turns, k - 1));
        assert(is_apart(turns[k - 1]));
        if let FsStep::Ask(request, _) = turns[k - 1].step {
            backing::answer_law(turns[k - 1].back, request, turns[k - 1].reply, turns[k].back);
        }
    }
}

/// What is a run over a sound store is one over its files: whatever holds of the
/// files in every run holds of the latest contents of the store.
pub proof fn run_is_over_files<T, R>(
    resumes: spec_fn(T, FsView, FsView, TreeReply, FsStep<T, R>) -> bool,
    turns: Seq<StoreTurn<T, R>>,
)
    requires
        is_run(resumes, turns),
        backing::is_sound(turns[0].back.world),
        forall|i: int| 0 <= i < turns.len() - 1 ==> is_apart(#[trigger] turns[i]),
    ensures
        files::is_run(resumes, as_files(turns)),
        forall|k: int|
            0 <= k < turns.len() ==> backing::is_sound((#[trigger] turns[k]).back.world),
{
    let all = as_files(turns);
    assert forall|i: int| 0 <= i < all.len() - 1 implies #[trigger] files::leads_on(
        resumes,
        all,
        i,
    ) by {
        run_stays_sound(resumes, turns, i);
        assert(leads_on(resumes, turns, i));
        assert(is_apart(turns[i]));
        if let FsStep::Ask(request, _) = turns[i].step {
            backing::answer_law(turns[i].back, request, turns[i].reply, turns[i + 1].back);
        }
    }
    assert forall|k: int| 0 <= k < turns.len() implies backing::is_sound(
        (#[trigger] turns[k]).back.world,
    ) by {
        run_stays_sound(resumes, turns, k);
    }
}

/// Rows and blobs are as they were.
pub open spec fn is_same(first: Backing, b: Backing) -> bool {
    b.world.rows == first.world.rows && b.world.blobs == first.world.blobs
}

// ---------------------------------------------------------------------------
// Committing and removing
// ---------------------------------------------------------------------------

/// Releasing a handle with a buffer puts one new version on top of those of the
/// file's path: what the buffer holds. Every other path keeps its versions. Without
/// a buffer no version changes. This holds where the content has the hash of no
/// other.
pub proof fn release_law(ino: u64, fh: u64, before: FsView, turns: Seq<StoreTurn<Release, ()>>)
    requires
        is_run(|t, s: FsView, z: FsView, r, n| s == z && file::release_resumes(t, r, n), turns),
        file::release_starts(before, turns[0].state, ino, fh, turns[0].step),
        backing::is_sound(turns[0].back.world),
        before.buffers.contains_key(fh) ==> laws::is_intact(
            turns[0].back.world.blobs,
            before.buffers[fh].data,
        ),
    ensures
        backing::is_sound(turns.last().back.world),
        turns.last().step matches FsStep::Done(r) ==> {
            let path = before.inodes[ino].path;
            &&& r == Ok::<(), Errno>(())
            &&& if before.buffers.contains_key(fh) && before.inodes.contains_key(ino)
                && path::is_valid(path) {
                let data = before.buffers[fh].data;
                &&& exists|v: Version|
                    v.hash == hash::blake3_digest(data) && #[trigger] backing::tops(
                        turns[0].back.world.rows,
                        turns.last().back.world.rows,
                        path,
                        v,
                    )
                &&& backing::content_at(turns.last().back.world, path) == data
            } else {
                is_same(turns[0].back, turns.last().back)
            }
        },
{
    let resumes = |t: Release, s: FsView, z: FsView, r: TreeReply, n: FsStep<Release, ()>|
        s == z && file::release_resumes(t, r, n);
    if turns.len() > 1 {
        assert(leads_on(resumes, turns, 0));
        if turns.len() > 2 {
            assert(leads_on(resumes, turns, 1));
        }
        let b = turns[0].back;
        let c = turns[1].back;
        if let FsStep::Ask(request, _) = turns[0].step {
            let reply = turns[0].reply;
            let path = before.inodes[ino].path;
            let data = before.buffers[fh].data;
            backing::answer_law(b, request, reply, c);
            if let TreeReply::Added(Ok(result)) = reply {
                let v = Version { hash: result.hash@, uuid: result.uuid@ };
                assert(backing::tops(b.world.rows, c.world.rows, path, v));
                assert(world::versions_of(c.world.rows, path) == backing::topped(
                    b.world.rows,
                    path,
                    v,
                    path,
                ));
                assert(world::versions_of(c.world.rows, path)[0] == v);
                assert(backing::files_of(c).contents.contains_key(path));
                assert(backing::files_of(c).contents[path] == data);
                backing::latest_has_its_blob(c.world, path);
            }
        }
    }
}

/// Where the removal of a file stands, with the versions.
pub open spec fn unlink_stands(
    first: Backing,
    before: FsView,
    at: Seq<char>,
    name: Seq<char>,
    b: Backing,
    s: FsView,
    step: FsStep<Unlink, ()>,
) -> bool {
    let f = backing::files_of(first);
    &&& backing::is_sound(b.world)
    &&& files::unlink_state(f, before, at, name, backing::files_of(b), s, step)
    &&& match step {
        FsStep::Done(Ok(_)) => backing::clears(
            first.world.rows,
            b.world.rows,
            files::target(f, before.dirs, at, name),
        ),
        _ => is_same(first, b),
    }
}

/// Removing a file takes all versions of the path that its name stands for. Every
/// other path keeps its versions.
pub proof fn unlink_law(parent: u64, name: Seq<char>, turns: Seq<StoreTurn<Unlink, ()>>)
    requires
        is_run(|t, s, z, r, n| file::unlink_resumes(t, s, z, r, n), turns),
        file::unlink_starts(turns[0].state, parent, name, turns[0].step),
        state::directory_path(turns[0].state, parent) is Some,
        backing::is_sound(turns[0].back.world),
    ensures
        backing::is_sound(turns.last().back.world),
        turns.last().step matches FsStep::Done(r) ==> {
            let at = state::directory_path(turns[0].state, parent)->0;
            let path = files::target(
                backing::files_of(turns[0].back),
                turns[0].state.dirs,
                at,
                name,
            );
            if path::is_valid(path) {
                &&& r == Ok::<(), Errno>(())
                &&& backing::clears(
                    turns[0].back.world.rows,
                    turns.last().back.world.rows,
                    path,
                )
            } else {
                &&& r == Err::<(), Errno>(Errno::Io)
                &&& is_same(turns[0].back, turns.last().back)
            }
        },
{
    let resumes = |t: Unlink, s: FsView, z: FsView, r: TreeReply, n: FsStep<Unlink, ()>|
        file::unlink_resumes(t, s, z, r, n);
    let first = turns[0].back;
    let f = backing::files_of(first);
    let before = turns[0].state;
    let at = state::directory_path(before, parent)->0;
    let inv = |b: Backing, s: FsView, step: FsStep<Unlink, ()>|
        unlink_stands(first, before, at, name, b, s, step);
    files::unlink_begins(f, before, parent, name, turns[0].step);
    assert forall|
        b: Backing,
        request: TreeRequest,
        task: Unlink,
        s: FsView,
        c: Backing,
        after: FsView,
        reply: TreeReply,
        next: FsStep<Unlink, ()>,
    |
        #![trigger inv(b, s, FsStep::Ask(request, task)), backing::answers(b, request, reply, c), resumes(task, s, after, reply, next)]
        {
            &&& inv(b, s, FsStep::Ask(request, task))
            &&& b.world.rows.len() <= u32::MAX
            &&& backing::is_timely(b, reply)
            &&& backing::answers(b, request, reply, c)
            &&& resumes(task, s, after, reply, next)
        } implies inv(c, after, next) by {
        backing::answer_law(b, request, reply, c);
        files::unlink_step(
            f,
            before,
            at,
            name,
            backing::files_of(b),
            s,
            request,
            task,
            after,
            reply,
            next,
        );
    }
    run_keeps(resumes, inv, turns, turns.len() - 1);
}

// ---------------------------------------------------------------------------
// Renaming
// ---------------------------------------------------------------------------

/// The latest version of the old path was put on top of those of the new one,
/// under a new identifier, and the old path has no versions left. All other
/// paths keep theirs.
pub open spec fn is_moved(
    before: Seq<Row>,
    after: Seq<Row>,
    old_path: Seq<char>,
    new_path: Seq<char>,
    version: Version,
) -> bool {
    &&& version.hash == world::versions_of(before, old_path)[0].hash
    &&& old_path != new_path ==> world::versions_of(after, new_path) == seq![version]
        + world::versions_of(before, new_path)
    &&& world::versions_of(after, old_path).len() == 0
    &&& forall|p: Seq<char>|
        p != old_path && p != new_path ==> #[trigger] world::versions_of(after, p)
            == world::versions_of(before, p)
}

/// Where a renaming stands, with the versions.
pub open spec fn rename_stands(
    first: Backing,
    before: FsView,
    at: Seq<char>,
    name: Seq<char>,
    to: Seq<char>,
    new_name: Seq<char>,
    b: Backing,
    s: FsView,
    step: FsStep<Rename, ()>,
) -> bool {
    let f = backing::files_of(first);
    let old_path = files::target(f, before.dirs, at, name);
    let new_path = files::target(f, before.dirs, to, new_name);
    &&& backing::is_sound(b.world)
    &&& files::rename_state(
        f,
        before,
        at,
        name,
        to,
        new_name,
        backing::files_of(b),
        s,
        step,
    )
    &&& match step {
        FsStep::Ask(_, Rename::Removing { .. }) => exists|v: Version|
            v.hash == world::versions_of(first.world.rows, old_path)[0].hash
                && #[trigger] backing::tops(first.world.rows, b.world.rows, new_path, v),
        FsStep::Done(Ok(_)) => exists|v: Version| #[trigger]
            is_moved(first.world.rows, b.world.rows, old_path, new_path, v),
        _ => is_same(first, b),
    }
}

/// An answer of the store takes a renaming on.
proof fn rename_goes_on(
    first: Backing,
    before: FsView,
    at: Seq<char>,
    name: Seq<char>,
    to: Seq<char>,
    new_name: Seq<char>,
    b: Backing,
    s: FsView,
    request: TreeRequest,
    task: Rename,
    c: Backing,
    after: FsView,
    reply: TreeReply,
    next: FsStep<Rename, ()>,
)
    requires
        backing::is_sound(first.world),
        rename_stands(first, before, at, name, to, new_name, b, s, FsStep::Ask(request, task)),
        b.world.rows.len() <= u32::MAX,
        backing::is_timely(b, reply),
        backing::answers(b, request, reply, c),
        file::rename_resumes(task, s, after, reply, next),
    ensures
        rename_stands(first, before, at, name, to, new_name, c, after, next),
        backing::is_apart(b, request),
{
    let f = backing::files_of(first);
    let old_path = files::target(f, before.dirs, at, name);
    let new_path = files::target(f, before.dirs, to, new_name);
    if task is Adding {
        assert(backing::is_there(first.world, old_path));
        backing::latest_has_its_blob(first.world, old_path);
        assert(b.held == Some(backing::content_at(first.world, old_path)));
    }
    backing::answer_law(b, request, reply, c);
    files::rename_step(
        f,
        before,
        at,
        name,
        to,
        new_name,
        backing::files_of(b),
        s,
        request,
        task,
        after,
        reply,
        next,
    );
    match task {
        Rename::Adding { .. } => {
            if let TreeReply::Added(Ok(result)) = reply {
                let v = Version { hash: result.hash@, uuid: result.uuid@ };
                assert(backing::tops(first.world.rows, c.world.rows, new_path, v));
                assert(world::versions_of(c.world.rows, new_path) == backing::topped(
                    first.world.rows,
                    new_path,
                    v,
                    new_path,
                ));
                assert(world::versions_of(c.world.rows, new_path)[0] == v);
                assert(backing::files_of(c).contents.contains_key(new_path));
                backing::latest_has_its_blob(c.world, new_path);
                assert(backing::content_at(c.world, new_path) == backing::files_of(
                    c,
                ).contents[new_path]);
            }
        },
        Rename::Removing { .. } => {
            let v = choose|v: Version|
                v.hash == world::versions_of(first.world.rows, old_path)[0].hash
                    && #[trigger] backing::tops(first.world.rows, b.world.rows, new_path, v);
            assert(reply matches TreeReply::Removed(Ok(_)));
            assert(is_moved(first.world.rows, c.world.rows, old_path, new_path, v)) by {
                assert forall|p: Seq<char>| p != old_path implies #[trigger] world::versions_of(
                    c.world.rows,
                    p,
                ) == backing::topped(first.world.rows, new_path, v, p) by {
                    assert(world::versions_of(c.world.rows, p) == backing::cleared(
                        b.world.rows,
                        old_path,
                        p,
                    ));
                    assert(world::versions_of(b.world.rows, p) == backing::topped(
                        first.world.rows,
                        new_path,
                        v,
                        p,
                    ));
                }
                assert(world::versions_of(c.world.rows, old_path) == backing::cleared(
                    b.world.rows,
                    old_path,
                    old_path,
                ));
            }
        },
        _ => {},
    }
}

/// Renaming puts the content of the old path as one new version on top of those of
/// the new path, and removes the old path; every other path keeps its versions.
/// Where the old path has no version, or the new path is none, nothing changes.
pub proof fn rename_law(
    parent: u64,
    name: Seq<char>,
    new_parent: u64,
    new_name: Seq<char>,
    turns: Seq<StoreTurn<Rename, ()>>,
)
    requires
        is_run(|t, s, z, r, n| file::rename_resumes(t, s, z, r, n), turns),
        file::rename_starts(turns[0].state, parent, name, new_parent, new_name, turns[0].step),
        state::directory_path(turns[0].state, parent) is Some,
        state::directory_path(turns[0].state, new_parent) is Some,
        backing::is_sound(turns[0].back.world),
    ensures
        backing::is_sound(turns.last().back.world),
        turns.last().step matches FsStep::Done(r) ==> {
            let f = backing::files_of(turns[0].back);
            let dirs = turns[0].state.dirs;
            let at = state::directory_path(turns[0].state, parent)->0;
            let to = state::directory_path(turns[0].state, new_parent)->0;
            let old_path = files::target(f, dirs, at, name);
            let new_path = files::target(f, dirs, to, new_name);
            let before = turns[0].back.world;
            let after = turns.last().back.world;
            if !backing::is_there(before, old_path) {
                &&& r == Err::<(), Errno>(Errno::NoEntry)
                &&& is_same(turns[0].back, turns.last().back)
            } else if !path::is_valid(new_path) {
                &&& r == Err::<(), Errno>(Errno::Io)
                &&& is_same(turns[0].back, turns.last().back)
            } else {
                &&& r == Ok::<(), Errno>(())
                &&& exists|v: Version| #[trigger]
                    is_moved(before.rows, after.rows, old_path, new_path, v)
                &&& old_path != new_path ==> backing::content_at(after, new_path)
                    == backing::content_at(before, old_path)
            }
        },
{
    let resumes = |t: Rename, s: FsView, z: FsView, r: TreeReply, n: FsStep<Rename, ()>|
        file::rename_resumes(t, s, z, r, n);
    let first = turns[0].back;
    let before = turns[0].state;
    let at = state::directory_path(before, parent)->0;
    let to = state::directory_path(before, new_parent)->0;
    let inv = |b: Backing, s: FsView, step: FsStep<Rename, ()>|
        rename_stands(first, before, at, name, to, new_name, b, s, step);
    files::rename_begins(
        backing::files_of(first),
        before,
        parent,
        name,
        new_parent,
        new_name,
        turns[0].step,
    );
    assert(inv(first, before, turns[0].step)) by {
        assert(!(turns[0].step is Done));
        assert(!(turns[0].step matches FsStep::Ask(_, Rename::Removing { .. })));
    }
    assert forall|
        b: Backing,
        request: TreeRequest,
        task: Rename,
        s: FsView,
        c: Backing,
        after: FsView,
        reply: TreeReply,
        next: FsStep<Rename, ()>,
    |
        #![trigger inv(b, s, FsStep::Ask(request, task)), backing::answers(b, request, reply, c), resumes(task, s, after, reply, next)]
        {
            &&& inv(b, s, FsStep::Ask(request, task))
            &&& b.world.rows.len() <= u32::MAX
            &&& backing::is_timely(b, reply)
            &&& backing::answers(b, request, reply, c)
            &&& resumes(task, s, after, reply, next)
        } implies inv(c, after, next) by {
        rename_goes_on(
            first,
            before,
            at,
            name,
            to,
            new_name,
            b,
            s,
            request,
            task,
            c,
            after,
            reply,
            next,
        );
    }
    run_keeps(resumes, inv, turns, turns.len() - 1);
    let f = backing::files_of(first);
    let old_path = files::target(f, before.dirs, at, name);
    let new_path = files::target(f, before.dirs, to, new_name);
    if backing::is_there(first.world, old_path) {
        backing::latest_has_its_blob(first.world, old_path);
        let g = backing::files_of(turns.last().back);
        if turns.last().step matches FsStep::Done(Ok(_)) && old_path != new_path {
            assert(g.contents.contains_key(new_path));
            assert(g.contents[new_path] == f.contents[old_path]);
        }
    }
}

// ---------------------------------------------------------------------------
// Truncating
// ---------------------------------------------------------------------------

/// Where a truncation stands, with the versions.
pub open spec fn truncate_stands(
    first: Backing,
    ino: u64,
    path: Seq<char>,
    size: u64,
    b: Backing,
    step: FsStep<SetAttr, FileAttr>,
) -> bool {
    let cut = files::limited(backing::content_at(first.world, path), Some(size));
    &&& backing::is_sound(b.world)
    &&& files::truncate_state(
        backing::files_of(first),
        ino,
        path,
        size,
        backing::files_of(b),
        step,
    )
    &&& match step {
        FsStep::Ask(_, SetAttr::Attr(_)) | FsStep::Done(Ok(_)) => exists|v: Version|
            v.hash == hash::blake3_digest(cut) && #[trigger] backing::tops(
                first.world.rows,
                b.world.rows,
                path,
                v,
            ),
        _ => is_same(first, b),
    }
}

/// An answer of the store takes a truncation on.
proof fn truncate_goes_on(
    first: Backing,
    ino: u64,
    path: Seq<char>,
    size: u64,
    b: Backing,
    request: TreeRequest,
    task: SetAttr,
    c: Backing,
    reply: TreeReply,
    next: FsStep<SetAttr, FileAttr>,
)
    requires
        backing::is_there(first.world, path) ==> laws::is_intact(
            first.world.blobs,
            files::limited(backing::content_at(first.world, path), Some(size)),
        ),
        path::is_valid(path),
        truncate_stands(first, ino, path, size, b, FsStep::Ask(request, task)),
        b.world.rows.len() <= u32::MAX,
        backing::is_timely(b, reply),
        backing::answers(b, request, reply, c),
        file::setattr_resumes(task, reply, next),
    ensures
        truncate_stands(first, ino, path, size, c, next),
        backing::is_apart(b, request),
{
    let f = backing::files_of(first);
    let cut = files::limited(backing::content_at(first.world, path), Some(size));
    if task is Adding {
        assert(backing::is_there(first.world, path));
        assert(b.held == Some(backing::content_at(first.world, path)));
    }
    backing::answer_law(b, request, reply, c);
    files::truncate_step(f, ino, path, size, backing::files_of(b), request, task, reply, next);
    if task is Adding {
        if let TreeReply::Added(Ok(result)) = reply {
            let v = Version { hash: result.hash@, uuid: result.uuid@ };
            assert(backing::tops(first.world.rows, c.world.rows, path, v));
            assert(world::versions_of(c.world.rows, path) == backing::topped(
                first.world.rows,
                path,
                v,
                path,
            ));
            assert(world::versions_of(c.world.rows, path)[0] == v);
            assert(backing::files_of(c).contents.contains_key(path));
            backing::latest_has_its_blob(c.world, path);
            assert(backing::content_at(c.world, path) == backing::files_of(c).contents[path]);
        }
    }
}

/// Truncating a file puts one new version on top of those of its path: the first
/// bytes of the content, as many as asked for, and never more than there were.
/// Every other path keeps its versions. The attributes are those of the cut file.
/// This holds where the cut content has the hash of no other.
pub proof fn truncate_law(ino: u64, size: u64, turns: Seq<StoreTurn<SetAttr, FileAttr>>)
    requires
        is_run(|t, s: FsView, z: FsView, r, n| s == z && file::setattr_resumes(t, r, n), turns),
        file::setattr_starts(turns[0].state, ino, Some(size), turns[0].step),
        turns[0].state.inodes.contains_key(ino),
        turns[0].state.inodes[ino].kind == FileKind::RegularFile,
        path::is_valid(turns[0].state.inodes[ino].path),
        backing::is_sound(turns[0].back.world),
        backing::is_there(turns[0].back.world, turns[0].state.inodes[ino].path) ==> laws::is_intact(
            turns[0].back.world.blobs,
            files::limited(
                backing::content_at(turns[0].back.world, turns[0].state.inodes[ino].path),
                Some(size),
            ),
        ),
    ensures
        backing::is_sound(turns.last().back.world),
        turns.last().state == turns[0].state,
        turns.last().step matches FsStep::Done(r) ==> {
            let path = turns[0].state.inodes[ino].path;
            let before = turns[0].back.world;
            let after = turns.last().back.world;
            let cut = files::limited(backing::content_at(before, path), Some(size));
            if backing::is_there(before, path) {
                &&& exists|v: Version|
                    v.hash == hash::blake3_digest(cut) && #[trigger] backing::tops(
                        before.rows,
                        after.rows,
                        path,
                        v,
                    )
                &&& backing::content_at(after, path) == cut
                &&& r matches Ok(attr)
                &&& files::has_stat_attr(as_files(turns), attr, ino, path, cut.len())
            } else {
                &&& r == Err::<FileAttr, Errno>(Errno::Io)
                &&& is_same(turns[0].back, turns.last().back)
            }
        },
{
    let resumes = |
        t: SetAttr,
        s: FsView,
        z: FsView,
        r: TreeReply,
        n: FsStep<SetAttr, FileAttr>,
    |
        s == z && file::setattr_resumes(t, r, n);
    let first = turns[0].back;
    let before = turns[0].state;
    let path = before.inodes[ino].path;
    let inv = |b: Backing, s: FsView, step: FsStep<SetAttr, FileAttr>|
        s == before && truncate_stands(first, ino, path, size, b, step);
    assert forall|
        b: Backing,
        request: TreeRequest,
        task: SetAttr,
        s: FsView,
        c: Backing,
        after: FsView,
        reply: TreeReply,
        next: FsStep<SetAttr, FileAttr>,
    |
        #![trigger inv(b, s, FsStep::Ask(request, task)), backing::answers(b, request, reply, c), resumes(task, s, after, reply, next)]
        {
            &&& inv(b, s, FsStep::Ask(request, task))
            &&& b.world.rows.len() <= u32::MAX
            &&& backing::is_timely(b, reply)
            &&& backing::answers(b, request, reply, c)
            &&& resumes(task, s, after, reply, next)
        } implies inv(c, after, next) by {
        truncate_goes_on(first, ino, path, size, b, request, task, c, reply, next);
    }
    assert forall|i: int| 0 <= i < turns.len() - 1 implies is_apart(#[trigger] turns[i]) by {
        run_keeps(resumes, inv, turns, i);
        assert(leads_on(resumes, turns, i));
        if let FsStep::Ask(request, task) = turns[i].step {
            truncate_goes_on(
                first,
                ino,
                path,
                size,
                turns[i].back,
                request,
                task,
                turns[i + 1].back,
                turns[i].reply,
                turns[i + 1].step,
            );
        }
    }
    run_keeps(resumes, inv, turns, turns.len() - 1);
    run_is_over_files(resumes, turns);
    files::truncate_law(ino, size, as_files(turns));
    if turns.last().step is Done {
        let f = backing::files_of(first);
        let g = backing::files_of(turns.last().back);
        assert(as_files(turns).last().files == g);
        if f.contents.contains_key(path) {
            assert(g.contents.contains_key(path));
            assert(g.contents[path] == backing::content_at(turns.last().back.world, path));
        }
    }
}

/// Setting attributes without a size leaves every version as it is.
pub proof fn setattr_keeps_versions(ino: u64, turns: Seq<StoreTurn<SetAttr, FileAttr>>)
    requires
        is_run(|t, s: FsView, z: FsView, r, n| s == z && file::setattr_resumes(t, r, n), turns),
        file::setattr_starts(turns[0].state, ino, None, turns[0].step),
        backing::is_sound(turns[0].back.world),
    ensures
        is_same(turns[0].back, turns.last().back),
        turns.last().state == turns[0].state,
{
    let resumes = |
        t: SetAttr,
        s: FsView,
        z: FsView,
        r: TreeReply,
        n: FsStep<SetAttr, FileAttr>,
    |
        s == z && file::setattr_resumes(t, r, n);
    let first = turns[0].back;
    let before = turns[0].state;
    let inv = |b: Backing, s: FsView, step: FsStep<SetAttr, FileAttr>|
        {
            &&& s == before
            &&& is_same(first, b)
            &&& backing::is_sound(b.world)
            &&& step matches FsStep::Ask(request, t) ==> request is Stat && t is Attr
        };
    assert forall|
        b: Backing,
        request: TreeRequest,
        task: SetAttr,
        s: FsView,
        c: Backing,
        after: FsView,
        reply: TreeReply,
        next: FsStep<SetAttr, FileAttr>,
    |
        #![trigger inv(b, s, FsStep::Ask(request, task)), backing::answers(b, request, reply, c), resumes(task, s, after, reply, next)]
        {
            &&& inv(b, s, FsStep::Ask(request, task))
            &&& b.world.rows.len() <= u32::MAX
            &&& backing::is_timely(b, reply)
            &&& backing::answers(b, request, reply, c)
            &&& resumes(task, s, after, reply, next)
        } implies inv(c, after, next) by {
        backing::answer_law(b, request, reply, c);
    }
    run_keeps(resumes, inv, turns, turns.len() - 1);
}

/// Setting attributes without a size begins as finding them out does.
pub proof fn setattr_begins_as_getattr(s: FsView, ino: u64, step: FsStep<SetAttr, FileAttr>)
    requires
        file::setattr_starts(s, ino, None, step),
    ensures
        exists|a: FsStep<GetAttr, FileAttr>| #[trigger]
            find::attr_starts(s, ino, a) && step == file::after_setting(a),
{
    if s.inodes.contains_key(ino) {
        let a = choose|a: FsStep<GetAttr, FileAttr>| #[trigger]
            find::gives_attr(a, ino, s.inodes[ino].path, s.inodes[ino].kind) && step
                == file::after_setting(a);
        assert(find::attr_starts(s, ino, a));
    } else {
        let a = FsStep::<GetAttr, FileAttr>::Done(Err(Errno::NoEntry));
        assert(find::attr_starts(s, ino, a));
    }
}

/// Setting attributes without a size goes on as finding them out does: the
/// attributes are the same.
pub proof fn setattr_goes_on_as_getattr(
    task: GetAttr,
    reply: TreeReply,
    next: FsStep<SetAttr, FileAttr>,
)
    requires
        file::setattr_resumes(SetAttr::Attr(task), reply, next),
    ensures
        exists|a: FsStep<GetAttr, FileAttr>| #[trigger]
            find::attr_resumes(task, reply, a) && next == file::after_setting(a),
{
}

} // verus!
