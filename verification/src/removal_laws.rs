//! What removals do to the store as a whole.

use vstd::prelude::*;

use crate::hash;
use crate::index;
use crate::index::{Query, Row, Value};
use crate::path;
use crate::remove;
use crate::remove::{RemoveFolder, RemovePath, Sweep, TrimPath};
use crate::rows;
use crate::talk::{Reply, Request, Step};
use crate::text;
use crate::world;
use crate::world::{Turn, World};

verus! {

/// A hash that a row named before and that no row names after.
pub open spec fn is_lost(before: Seq<Row>, after: Seq<Row>, h: Seq<u8>) -> bool {
    rows::names(before, h) && !rows::names(after, h)
}

/// The world after rows were removed: `after` are the rows left, and the blobs
/// that lost their last row are gone.
pub open spec fn reduced(w: World, after: Seq<Row>) -> World {
    World { rows: after, blobs: w.blobs.filter_keys(|h: Seq<u8>| !is_lost(w.rows, after, h)), ..w }
}

/// `hashes` holds every hash that was lost, and only hashes that a row named.
pub open spec fn covers(before: Seq<Row>, after: Seq<Row>, hashes: Seq<hash::Hash>) -> bool {
    &&& forall|h: Seq<u8>| #[trigger]
        is_lost(before, after, h) ==> index::hash_views(hashes).contains(h)
    &&& forall|i: int| 0 <= i < hashes.len() ==> rows::names(before, (#[trigger] hashes[i])@)
}

/// One of the first `n` hashes, named no more.
pub open spec fn is_swept(after: Seq<Row>, hashes: Seq<hash::Hash>, n: int, h: Seq<u8>) -> bool {
    !rows::names(after, h) && exists|i: int| 0 <= i < n && (#[trigger] hashes[i])@ == h
}

/// The world when a sweep has dealt with the first `n` hashes.
pub open spec fn swept(w: World, after: Seq<Row>, hashes: Seq<hash::Hash>, n: int) -> World {
    World { rows: after, blobs: w.blobs.filter_keys(|h: Seq<u8>| !is_swept(after, hashes, n, h)), ..w }
}

/// Where a sweep stands that began when `w` had been left with the rows `after`.
pub open spec fn sweep_state(w: World, after: Seq<Row>, now: World, step: Step<Sweep, ()>) -> bool {
    match step {
        Step::Ask(request, Sweep::Counting { hashes, next }) => {
            &&& covers(w.rows, after, hashes@)
            &&& next < hashes@.len()
            &&& request == Request::Index(Query::RefCount { hash: hashes@[next as int] })
            &&& now == swept(w, after, hashes@, next as int)
        },
        Step::Ask(request, Sweep::Removing { hashes, next }) => {
            &&& covers(w.rows, after, hashes@)
            &&& 0 < next <= hashes@.len()
            &&& request == Request::RemoveBlob { hash: hashes@[next - 1] }
            &&& !rows::names(after, hashes@[next - 1]@)
            &&& now == swept(w, after, hashes@, next - 1)
        },
        Step::Done(r) => r is Ok && now == reduced(w, after),
    }
}

/// When all hashes are dealt with, the blobs that were lost are gone.
proof fn swept_to_the_end(w: World, after: Seq<Row>, hashes: Seq<hash::Hash>)
    requires
        covers(w.rows, after, hashes),
    ensures
        swept(w, after, hashes, hashes.len() as int) == reduced(w, after),
{
    let n = hashes.len() as int;
    assert forall|h: Seq<u8>| is_swept(after, hashes, n, h) == is_lost(w.rows, after, h) by {
        if is_lost(w.rows, after, h) {
            let i = choose|i: int|
                0 <= i < index::hash_views(hashes).len() && index::hash_views(hashes)[i] == h;
            assert(hashes[i]@ == h);
        }
        if is_swept(after, hashes, n, h) {
            let i = choose|i: int| 0 <= i < n && (#[trigger] hashes[i])@ == h;
            assert(rows::names(w.rows, hashes[i]@));
        }
    }
    assert(swept(w, after, hashes, n).blobs =~= reduced(w, after).blobs);
}

/// A sweep that goes on from hash `n` is where it should be.
proof fn sweep_goes_on(
    w: World,
    after: Seq<Row>,
    now: World,
    hashes: Seq<hash::Hash>,
    n: int,
    step: Step<Sweep, ()>,
)
    requires
        remove::sweeps(step, hashes, n),
        0 <= n <= hashes.len(),
        covers(w.rows, after, hashes),
        now == swept(w, after, hashes, n),
    ensures
        sweep_state(w, after, now, step),
{
    if n == hashes.len() {
        swept_to_the_end(w, after, hashes);
    }
}

/// Nothing has been swept at the start.
proof fn swept_at_first(w: World, after: Seq<Row>, hashes: Seq<hash::Hash>)
    ensures
        swept(w, after, hashes, 0) == (World { rows: after, ..w }),
{
    assert(swept(w, after, hashes, 0).blobs =~= w.blobs);
}

/// An honest reply takes a sweep on.
proof fn sweep_step(
    w: World,
    after: Seq<Row>,
    now: World,
    request: Request,
    task: Sweep,
    reply: Reply,
    next: Step<Sweep, ()>,
)
    requires
        sweep_state(w, after, now, Step::Ask(request, task)),
        after.len() <= u32::MAX,
        world::honest(now, request, reply),
        remove::sweep_resumes(task, reply, next),
    ensures
        sweep_state(w, after, world::effect(now, request, reply), next),
{
    let then = world::effect(now, request, reply);
    match task {
        Sweep::Counting { hashes, next: n } => {
            let h = hashes@[n as int];
            rows::count_of_named(after, h@);
            assert(world::db_honest(now.rows, Query::RefCount { hash: h }, reply));
            if rows::names(after, h@) {
                assert forall|k: Seq<u8>|
                    is_swept(after, hashes@, n as int, k) == is_swept(after, hashes@, n + 1, k) by {
                    if is_swept(after, hashes@, n + 1, k) {
                        let i = choose|i: int| 0 <= i < n + 1 && (#[trigger] hashes@[i])@ == k;
                        assert(i < n);
                    }
                    if is_swept(after, hashes@, n as int, k) {
                        let i = choose|i: int| 0 <= i < n && (#[trigger] hashes@[i])@ == k;
                        assert(i < n + 1);
                    }
                }
                assert(swept(w, after, hashes@, n as int).blobs =~= swept(
                    w,
                    after,
                    hashes@,
                    n + 1,
                ).blobs);
                sweep_goes_on(w, after, then, hashes@, n + 1, next);
            }
        },
        Sweep::Removing { hashes, next: n } => {
            let h = hashes@[n - 1];
            assert forall|k: Seq<u8>|
                is_swept(after, hashes@, n as int, k) == (is_swept(after, hashes@, n - 1, k) || k
                    == h@) by {
                if is_swept(after, hashes@, n as int, k) {
                    let i = choose|i: int| 0 <= i < n && (#[trigger] hashes@[i])@ == k;
                    if i < n - 1 {
                        assert(is_swept(after, hashes@, n - 1, k));
                    }
                }
                if is_swept(after, hashes@, n - 1, k) {
                    let i = choose|i: int| 0 <= i < n - 1 && (#[trigger] hashes@[i])@ == k;
                    assert(i < n);
                }
            }
            assert(then.blobs =~= swept(w, after, hashes@, n as int).blobs);
            sweep_goes_on(w, after, then, hashes@, n as int, next);
        },
    }
}

// ---------------------------------------------------------------------------
// Consistency
// ---------------------------------------------------------------------------

/// A blob is there exactly if some row names it.
pub open spec fn is_consistent(w: World) -> bool {
    forall|h: Seq<u8>| #[trigger] w.blobs.contains_key(h) <==> rows::names(w.rows, h)
}

/// Every removal leaves a consistent store consistent: no row loses its blob,
/// and no blob is left without a row.
pub proof fn removals_keep_consistency(w: World, after: Seq<Row>)
    requires
        is_consistent(w),
        rows::is_part(after, w.rows),
    ensures
        is_consistent(reduced(w, after)),
{
    let v = reduced(w, after);
    assert forall|h: Seq<u8>| #[trigger] v.blobs.contains_key(h) <==> rows::names(v.rows, h) by {
        assert(w.blobs.contains_key(h) <==> rows::names(w.rows, h));
        if rows::names(after, h) {
            rows::part_names(after, w.rows, h);
        }
    }
}

// ---------------------------------------------------------------------------
// Removing a path
// ---------------------------------------------------------------------------

/// The rows that are left when a path, or the oldest row of one version of it,
/// is removed.
pub open spec fn rows_left(before: Seq<Row>, path: Seq<char>, hash: Option<hash::Hash>) -> Seq<Row> {
    match hash {
        Some(h) => world::without_oldest(before, path, h@),
        None => world::rows_off(before, path),
    }
}

/// Where a removal stands that began in the world `w`.
pub open spec fn removal_state(
    w: World,
    path: Seq<char>,
    hash: Option<hash::Hash>,
    now: World,
    step: Step<RemovePath, ()>,
) -> bool {
    match step {
        Step::Ask(request, RemovePath::DeletingVersion { hash: h }) => {
            &&& hash == Some(h)
            &&& request matches Request::Index(Query::DeleteVersion { path: p, hash: k })
            &&& p@ == path
            &&& k == h
            &&& now == w
        },
        Step::Ask(request, RemovePath::ListingHashes { path: q }) => {
            &&& hash is None
            &&& request matches Request::Index(Query::Hashes { path: p })
            &&& p@ == path
            &&& q@ == path
            &&& now == w
        },
        Step::Ask(request, RemovePath::DeletingPath { hashes }) => {
            &&& hash is None
            &&& request matches Request::Index(Query::DeletePath { path: p })
            &&& p@ == path
            &&& covers(w.rows, world::rows_off(w.rows, path), hashes@)
            &&& now == w
        },
        Step::Ask(request, RemovePath::Sweeping(t)) => sweep_state(
            w,
            rows_left(w.rows, path, hash),
            now,
            Step::Ask(request, t),
        ),
        Step::Done(r) => r is Ok && now == reduced(w, rows_left(w.rows, path, hash)),
    }
}

/// The rows that are left are no more than there were.
pub proof fn rows_left_are_part(before: Seq<Row>, path: Seq<char>, hash: Option<hash::Hash>)
    ensures
        rows::is_part(rows_left(before, path, hash), before),
        rows_left(before, path, hash).len() <= before.len(),
{
    match hash {
        Some(h) => rows::without_oldest_is_part(before, path, h@),
        None => {
            let pred = |r: Row| r.path != path;
            rows::filter_is_part(before, pred);
            before.lemma_filter_len(pred);
        },
    }
}

/// A removal whose sweep is where it should be is where it should be.
proof fn removal_sweeps(
    w: World,
    path: Seq<char>,
    hash: Option<hash::Hash>,
    now: World,
    s: Step<Sweep, ()>,
)
    requires
        sweep_state(w, rows_left(w.rows, path, hash), now, s),
    ensures
        removal_state(w, path, hash, now, remove::removal_sweeping(s)),
{
}

/// The hashes listed for a path cover what is lost with it.
proof fn listed_hashes_cover(before: Seq<Row>, path: Seq<char>, v: Seq<Value>, hashes: Seq<hash::Hash>)
    requires
        index::all_read(index::hashes_in(v), index::hash_views(hashes)),
        exists|list: Seq<Seq<u8>>|
            {
                &&& #[trigger] index::all_read(index::hashes_in(v), list)
                &&& list.no_duplicates()
                &&& forall|h: Seq<u8>|
                    #[trigger] list.contains(h) <==> world::has_version(before, path, h)
            },
    ensures
        covers(before, world::rows_off(before, path), hashes),
{
    let after = world::rows_off(before, path);
    let views = index::hash_views(hashes);
    let list = choose|list: Seq<Seq<u8>>|
        {
            &&& #[trigger] index::all_read(index::hashes_in(v), list)
            &&& list.no_duplicates()
            &&& forall|h: Seq<u8>|
                #[trigger] list.contains(h) <==> world::has_version(before, path, h)
        };
    index::readings_agree(index::hashes_in(v), list, views);
    assert forall|h: Seq<u8>| #[trigger] is_lost(before, after, h) implies views.contains(h) by {
        rows::lost_off_path(before, path, h);
        assert(list.contains(h));
    }
    assert forall|i: int| 0 <= i < hashes.len() implies rows::names(before, (#[trigger] hashes[i])@) by {
        assert(views[i] == hashes[i]@);
        assert(list.contains(views[i]));
        rows::version_names(before, path, hashes[i]@);
    }
}

/// An honest reply takes a removal on.
pub proof fn removal_step(
    w: World,
    path: Seq<char>,
    hash: Option<hash::Hash>,
    now: World,
    request: Request,
    task: RemovePath,
    reply: Reply,
    next: Step<RemovePath, ()>,
)
    requires
        removal_state(w, path, hash, now, Step::Ask(request, task)),
        w.rows.len() <= u32::MAX,
        world::honest(now, request, reply),
        remove::removal_resumes(task, reply, next),
    ensures
        removal_state(w, path, hash, world::effect(now, request, reply), next),
{
    let after = rows_left(w.rows, path, hash);
    let then = world::effect(now, request, reply);
    rows_left_are_part(w.rows, path, hash);
    match task {
        RemovePath::Sweeping(t) => {
            let s = choose|s: Step<Sweep, ()>| #[trigger]
                remove::sweep_resumes(t, reply, s) && next == remove::removal_sweeping(s);
            sweep_step(w, after, now, request, t, reply, s);
            removal_sweeps(w, path, hash, then, s);
        },
        RemovePath::DeletingVersion { hash: h } => {
            let n = reply->Changed_0;
            let hashes = remove::hashes_deleted(n, h);
            let s = choose|s: Step<Sweep, ()>| #[trigger]
                remove::sweeps(s, hashes, 0) && next == remove::removal_sweeping(s);
            assert forall|k: Seq<u8>| #[trigger] is_lost(w.rows, after, k) implies index::hash_views(
                hashes,
            ).contains(k) by {
                rows::lost_without_oldest(w.rows, path, h@, k);
                assert(index::hash_views(hashes)[0] == h@);
            }
            if n > 0 {
                rows::version_names(w.rows, path, h@);
            }
            swept_at_first(w, after, hashes);
            sweep_goes_on(w, after, then, hashes, 0, s);
            removal_sweeps(w, path, hash, then, s);
        },
        RemovePath::ListingHashes { path: q } => {
            let v = reply->Hashes_0@;
            match next {
                Step::Ask(_, t) => {
                    listed_hashes_cover(w.rows, path, v, t->DeletingPath_hashes@);
                },
                Step::Done(r) => {
                    let list = choose|list: Seq<Seq<u8>>|
                        {
                            &&& #[trigger] index::all_read(index::hashes_in(v), list)
                            &&& list.no_duplicates()
                            &&& forall|h: Seq<u8>|
                                #[trigger] list.contains(h) <==> world::has_version(w.rows, path, h)
                        };
                    let m = choose|m: Seq<char>| index::first_failure(index::hashes_in(v), m);
                    index::no_failure(index::hashes_in(v), list, m);
                },
            }
        },
        RemovePath::DeletingPath { hashes } => {
            let s = choose|s: Step<Sweep, ()>| #[trigger]
                remove::sweeps(s, hashes@, 0) && next == remove::removal_sweeping(s);
            swept_at_first(w, after, hashes@);
            sweep_goes_on(w, after, then, hashes@, 0, s);
            removal_sweeps(w, path, hash, then, s);
        },
    }
}

/// A removal is at every turn where it should be.
pub proof fn removal_turn(
    path: Seq<char>,
    hash: Option<hash::Hash>,
    turns: Seq<Turn<RemovePath, ()>>,
    k: int,
)
    requires
        world::is_run(|t, r, s| remove::removal_resumes(t, r, s), turns),
        path::is_valid(path),
        remove::removal_starts(path, hash, turns[0].step),
        turns[0].world.rows.len() <= u32::MAX,
        0 <= k < turns.len(),
    ensures
        removal_state(turns[0].world, path, hash, turns[k].world, turns[k].step),
{
    let resumes = |t: RemovePath, r: Reply, s: Step<RemovePath, ()>| remove::removal_resumes(t, r, s);
    let w = turns[0].world;
    let inv = |now: World, step: Step<RemovePath, ()>| removal_state(w, path, hash, now, step);
    assert forall|now: World, request: Request, task: RemovePath, reply: Reply, next: Step<
        RemovePath,
        (),
    >|
        #![trigger inv(now, Step::Ask(request, task)), resumes(task, reply, next)]
        inv(now, Step::Ask(request, task)) && world::honest(now, request, reply) && resumes(
            task,
            reply,
            next,
        ) implies inv(world::effect(now, request, reply), next) by {
        removal_step(w, path, hash, now, request, task, reply, next);
    }
    world::run_keeps(resumes, inv, turns, k);
}

/// Removing a path deletes all its rows and leaves all others; removing one
/// version of it deletes the oldest row with that hash. In either case exactly
/// the blobs go whose last row went.
pub proof fn remove_path_law(path: Seq<char>, hash: Option<hash::Hash>, turns: Seq<Turn<RemovePath, ()>>)
    requires
        world::is_run(|t, r, s| remove::removal_resumes(t, r, s), turns),
        path::is_valid(path),
        remove::removal_starts(path, hash, turns[0].step),
        turns[0].world.rows.len() <= u32::MAX,
    ensures
        turns.last().step matches Step::Done(r) ==> r is Ok && turns.last().world == reduced(
            turns[0].world,
            rows_left(turns[0].world.rows, path, hash),
        ),
        turns.last().step is Done && is_consistent(turns[0].world) ==> is_consistent(
            turns.last().world,
        ),
{
    let w = turns[0].world;
    removal_turn(path, hash, turns, turns.len() - 1);
    rows_left_are_part(w.rows, path, hash);
    if is_consistent(w) {
        removals_keep_consistency(w, rows_left(w.rows, path, hash));
    }
}


// ---------------------------------------------------------------------------
// Trimming a path
// ---------------------------------------------------------------------------

/// Where a trim stands that began in the world `w`.
pub open spec fn trim_state(
    w: World,
    path: Seq<char>,
    keep: u8,
    now: World,
    step: Step<TrimPath, ()>,
) -> bool {
    let after = rows::trimmed(w.rows, path, keep as int);
    match step {
        Step::Ask(request, TrimPath::Removing(t)) => {
            &&& keep == 0
            &&& removal_state(w, path, None, now, Step::Ask(request, t))
        },
        Step::Ask(request, TrimPath::Listing { path: q, keep: k }) => {
            &&& request matches Request::Index(Query::Versions { path: p })
            &&& p@ == path
            &&& q@ == path
            &&& k == keep
            &&& now == w
        },
        Step::Ask(request, TrimPath::Deleting { path: q, excess, next, deleted }) => {
            &&& request matches Request::Index(Query::DeleteVersion { path: p, hash: h })
            &&& p@ == path
            &&& q@ == path
            &&& next < excess@.len()
            &&& h == excess@[next as int]
            &&& trim_goes_on(w, path, keep, now, excess@, next as int, deleted@)
        },
        Step::Ask(request, TrimPath::Sweeping(t)) => sweep_state(w, after, now, Step::Ask(request, t)),
        Step::Done(r) => r is Ok && now == reduced(w, after),
    }
}

/// The versions from `excess[next]` on are still to be deleted, and those before
/// are: `deleted` holds their hashes.
pub open spec fn trim_goes_on(
    w: World,
    path: Seq<char>,
    keep: u8,
    now: World,
    excess: Seq<hash::Hash>,
    next: int,
    deleted: Seq<hash::Hash>,
) -> bool {
    &&& now == (World { rows: now.rows, ..w })
    &&& rows::without_each(now.rows, path, index::hash_views(excess).skip(next)) == rows::trimmed(
        w.rows,
        path,
        keep as int,
    )
    &&& covers(w.rows, now.rows, deleted)
    &&& rows::is_part(now.rows, w.rows)
}

/// A trim that goes on is where it should be.
proof fn trim_is_placed(
    w: World,
    path: Seq<char>,
    keep: u8,
    now: World,
    excess: Seq<hash::Hash>,
    next: int,
    deleted: Seq<hash::Hash>,
    step: Step<TrimPath, ()>,
)
    requires
        0 <= next <= excess.len(),
        trim_goes_on(w, path, keep, now, excess, next, deleted),
        remove::trims(step, path, excess, next, deleted),
    ensures
        trim_state(w, path, keep, now, step),
{
    if next == excess.len() {
        assert(index::hash_views(excess).skip(next) =~= Seq::<Seq<u8>>::empty());
        let after = rows::trimmed(w.rows, path, keep as int);
        assert(now.rows == after);
        let s = choose|s: Step<Sweep, ()>| #[trigger]
            remove::sweeps(s, deleted, 0) && step == remove::trim_sweeping(s);
        swept_at_first(w, after, deleted);
        sweep_goes_on(w, after, now, deleted, 0, s);
    }
}

/// An honest reply takes a trim on.
proof fn trim_step(
    w: World,
    path: Seq<char>,
    keep: u8,
    now: World,
    request: Request,
    task: TrimPath,
    reply: Reply,
    next: Step<TrimPath, ()>,
)
    requires
        trim_state(w, path, keep, now, Step::Ask(request, task)),
        world::in_order(w.rows),
        w.rows.len() <= u32::MAX,
        world::honest(now, request, reply),
        remove::trim_resumes(task, reply, next),
    ensures
        trim_state(w, path, keep, world::effect(now, request, reply), next),
{
    let after = rows::trimmed(w.rows, path, keep as int);
    let then = world::effect(now, request, reply);
    match task {
        TrimPath::Removing(t) => {
            let s = choose|s: Step<RemovePath, ()>| #[trigger]
                remove::removal_resumes(t, reply, s) && next == remove::trim_removing(s);
            removal_step(w, path, None, now, request, t, reply, s);
            rows::trimmed_to_none(w.rows, path);
        },
        TrimPath::Sweeping(t) => {
            let s = choose|s: Step<Sweep, ()>| #[trigger]
                remove::sweep_resumes(t, reply, s) && next == remove::trim_sweeping(s);
            w.rows.lemma_filter_len(
                |r: Row| r.path != path || rows::newest(w.rows, path, keep as int).contains(r),
            );
            sweep_step(w, after, now, request, t, reply, s);
        },
        TrimPath::Listing { .. } => {
            let v = reply->Versions_0@;
            let all = world::versions_of(w.rows, path);
            assert forall|m: Seq<char>| !index::first_failure(index::versions_in(v), m) by {
                index::no_failure(index::versions_in(v), all, m);
            }
            let list = choose|list: Seq<index::VersionInfo>|
                {
                    &&& #[trigger] index::all_read(
                        index::versions_in(v),
                        index::version_views(list),
                    )
                    &&& remove::trims(
                        next,
                        path,
                        remove::hashes_beyond(list, keep as int),
                        0,
                        Seq::empty(),
                    )
                };
            index::readings_agree(index::versions_in(v), all, index::version_views(list));
            let excess = remove::hashes_beyond(list, keep as int);
            assert(index::version_views(list).len() == list.len());
            assert(index::hash_views(excess).skip(0) =~= rows::excess(w.rows, path, keep as int)) by {
                if list.len() > keep {
                    assert forall|i: int| 0 <= i < excess.len() implies excess[i]@ == rows::excess(
                        w.rows,
                        path,
                        keep as int,
                    )[i] by {
                        assert(index::version_views(list)[keep + i] == list[keep + i]@);
                    }
                }
            }
            rows::deleting_excess_trims(w.rows, path, keep as int);
            trim_is_placed(w, path, keep, then, excess, 0, Seq::empty(), next);
        },
        TrimPath::Deleting { path: q, excess, next: n, deleted } => {
            let l = excess@[n as int];
            let c = reply->Changed_0;
            let d = remove::also_deleted(deleted@, c, l);
            let views = index::hash_views(excess@);
            assert(views.skip(n as int)[0] == l@);
            assert(views.skip(n as int).skip(1) =~= views.skip(n + 1));
            rows::without_oldest_is_part(now.rows, path, l@);
            assert forall|i: int| 0 <= i < then.rows.len() implies w.rows.contains(
                #[trigger] then.rows[i],
            ) by {
                assert(now.rows.contains(then.rows[i]));
                let j = choose|j: int| 0 <= j < now.rows.len() && now.rows[j] == then.rows[i];
                assert(w.rows.contains(now.rows[j]));
            }
            assert forall|h: Seq<u8>| #[trigger] is_lost(w.rows, then.rows, h) implies index::hash_views(
                d,
            ).contains(h) by {
                if is_lost(w.rows, now.rows, h) {
                    assert(index::hash_views(deleted@).contains(h));
                    let i = choose|i: int|
                        0 <= i < index::hash_views(deleted@).len() && index::hash_views(deleted@)[i]
                            == h;
                    assert(index::hash_views(d)[i] == h);
                } else {
                    rows::lost_without_oldest(now.rows, path, l@, h);
                    assert(index::hash_views(d)[deleted@.len() as int] == h);
                }
            }
            assert forall|i: int| 0 <= i < d.len() implies rows::names(w.rows, (#[trigger] d[i])@) by {
                if i < deleted@.len() {
                    assert(d[i] == deleted@[i]);
                } else {
                    rows::version_names(now.rows, path, l@);
                    rows::part_names(now.rows, w.rows, l@);
                }
            }
            trim_is_placed(w, path, keep, then, excess@, n + 1, d, next);
        },
    }
}

/// A trim is at every turn where it should be.
pub proof fn trim_turn(
    path: Seq<char>,
    keep: u8,
    turns: Seq<Turn<TrimPath, ()>>,
    k: int,
)
    requires
        world::is_run(|t, r, s| remove::trim_resumes(t, r, s), turns),
        path::is_valid(path),
        remove::trim_starts(path, keep, turns[0].step),
        world::in_order(turns[0].world.rows),
        turns[0].world.rows.len() <= u32::MAX,
        0 <= k < turns.len(),
    ensures
        trim_state(turns[0].world, path, keep, turns[k].world, turns[k].step),
{
    let resumes = |t: TrimPath, r: Reply, s: Step<TrimPath, ()>| remove::trim_resumes(t, r, s);
    let w = turns[0].world;
    let inv = |now: World, step: Step<TrimPath, ()>| trim_state(w, path, keep, now, step);
    assert forall|now: World, request: Request, task: TrimPath, reply: Reply, next: Step<
        TrimPath,
        (),
    >|
        #![trigger inv(now, Step::Ask(request, task)), resumes(task, reply, next)]
        inv(now, Step::Ask(request, task)) && world::honest(now, request, reply) && resumes(
            task,
            reply,
            next,
        ) implies inv(world::effect(now, request, reply), next) by {
        trim_step(w, path, keep, now, request, task, reply, next);
    }
    world::run_keeps(resumes, inv, turns, k);
}

/// Trimming a path keeps its newest versions, as many as asked for, and every
/// row of every other path. Exactly the blobs go whose last row went. To keep
/// none is to remove the path; a path without versions stays without.
pub proof fn trim_path_law(path: Seq<char>, keep: u8, turns: Seq<Turn<TrimPath, ()>>)
    requires
        world::is_run(|t, r, s| remove::trim_resumes(t, r, s), turns),
        path::is_valid(path),
        remove::trim_starts(path, keep, turns[0].step),
        world::in_order(turns[0].world.rows),
        turns[0].world.rows.len() <= u32::MAX,
    ensures
        turns.last().step matches Step::Done(r) ==> r is Ok && turns.last().world == reduced(
            turns[0].world,
            rows::trimmed(turns[0].world.rows, path, keep as int),
        ),
        turns.last().step is Done && is_consistent(turns[0].world) ==> is_consistent(
            turns.last().world,
        ),
{
    let w = turns[0].world;
    trim_turn(path, keep, turns, turns.len() - 1);
    rows::filter_is_part(
        w.rows,
        |r: Row| r.path != path || rows::newest(w.rows, path, keep as int).contains(r),
    );
    if is_consistent(w) {
        removals_keep_consistency(w, rows::trimmed(w.rows, path, keep as int));
    }
}


// ---------------------------------------------------------------------------
// Removing a folder
// ---------------------------------------------------------------------------

/// The rows that are not below the folder.
pub open spec fn rows_outside(before: Seq<Row>, folder: Seq<char>) -> Seq<Row> {
    before.filter(|r: Row| !text::has_prefix(r.path, folder.push('/')))
}

/// The paths of the rows below the folder, in order.
pub open spec fn paths_below(before: Seq<Row>, folder: Seq<char>) -> Seq<Seq<char>> {
    remove::paths_of(before.filter(|r: Row| text::has_prefix(r.path, folder.push('/'))))
}

/// The rows of no path in the list.
pub open spec fn rows_off_all(before: Seq<Row>, paths: Seq<Seq<char>>) -> Seq<Row> {
    before.filter(|r: Row| !paths.contains(r.path))
}

/// Every row has a valid path.
pub open spec fn paths_are_valid(all: Seq<Row>) -> bool {
    forall|i: int| 0 <= i < all.len() ==> path::is_valid((#[trigger] all[i]).path)
}

/// Where the removal of a folder stands that began in the world `w`.
pub open spec fn folder_state(
    w: World,
    folder: Seq<char>,
    now: World,
    step: Step<RemoveFolder, ()>,
) -> bool {
    let list = paths_below(w.rows, folder);
    match step {
        Step::Ask(request, RemoveFolder::Listing) => {
            &&& request matches Request::Index(Query::Prefix { start, end })
            &&& start@ == vstd::utf8::encode_utf8(folder.push('/'))
            &&& end@ == index::range_end(start@)
            &&& now == w
        },
        Step::Ask(request, RemoveFolder::Removing { paths, next, current }) => {
            &&& index::texts(paths@) == list
            &&& 0 < next <= list.len()
            &&& removal_state(
                reduced(w, rows_off_all(w.rows, list.take(next - 1))),
                list[next - 1],
                None,
                now,
                Step::Ask(request, current),
            )
        },
        Step::Done(r) => r is Ok && now == reduced(w, rows_outside(w.rows, folder)),
    }
}

/// Removing rows in two steps is removing them in one.
pub proof fn reduced_twice(w: World, first: Seq<Row>, second: Seq<Row>)
    requires
        rows::is_part(first, w.rows),
        rows::is_part(second, first),
    ensures
        reduced(reduced(w, first), second) == reduced(w, second),
{
    let a = reduced(reduced(w, first), second).blobs;
    let b = reduced(w, second).blobs;
    assert forall|h: Seq<u8>| is_lost(w.rows, second, h) == (is_lost(w.rows, first, h) || is_lost(
        first,
        second,
        h,
    )) by {
        if rows::names(second, h) {
            rows::part_names(second, first, h);
        }
        if rows::names(first, h) {
            rows::part_names(first, w.rows, h);
        }
    }
    assert(a =~= b);
}

/// Leaving out one more path.
proof fn off_one_more(before: Seq<Row>, paths: Seq<Seq<char>>, n: int)
    requires
        0 <= n < paths.len(),
    ensures
        world::rows_off(rows_off_all(before, paths.take(n)), paths[n]) == rows_off_all(
            before,
            paths.take(n + 1),
        ),
{
    let p = |r: Row| !paths.take(n).contains(r.path);
    let q = |r: Row| r.path != paths[n];
    rows::filter_twice(before, p, q);
    let both = |r: Row| p(r) && q(r);
    let all = |r: Row| !paths.take(n + 1).contains(r.path);
    assert forall|i: int| 0 <= i < before.len() implies both(#[trigger] before[i]) == all(
        before[i],
    ) by {
        let x = before[i].path;
        let more = paths.take(n + 1);
        if more.contains(x) {
            let j = choose|j: int| 0 <= j < more.len() && more[j] == x;
            if j < n {
                assert(paths.take(n)[j] == x);
            }
        }
        if paths.take(n).contains(x) {
            let j = choose|j: int| 0 <= j < n && paths.take(n)[j] == x;
            assert(more[j] == x);
        }
        assert(paths.take(n + 1)[n] == paths[n]);
    }
    rows::filter_agrees(before, both, all);
}

/// Leaving out the paths below a folder leaves the rows outside it.
proof fn off_all_is_outside(before: Seq<Row>, folder: Seq<char>)
    ensures
        rows_off_all(before, paths_below(before, folder)) == rows_outside(before, folder),
{
    let below = |r: Row| text::has_prefix(r.path, folder.push('/'));
    let list = paths_below(before, folder);
    let p = |r: Row| !list.contains(r.path);
    let q = |r: Row| !text::has_prefix(r.path, folder.push('/'));
    assert forall|i: int| 0 <= i < before.len() implies p(#[trigger] before[i]) == q(before[i]) by {
        let r = before[i];
        rows::filter_contains(before, below, r);
        if below(r) {
            let j = choose|j: int| 0 <= j < before.filter(below).len() && before.filter(below)[j] == r;
            assert(list[j] == r.path);
        }
        if list.contains(r.path) {
            let j = choose|j: int| 0 <= j < list.len() && list[j] == r.path;
            let other = before.filter(below)[j];
            assert(before.filter(below).contains(other));
            rows::filter_contains(before, below, other);
        }
    }
    rows::filter_agrees(before, p, q);
}

/// The paths below a folder are paths of rows.
proof fn below_is_valid(before: Seq<Row>, folder: Seq<char>, n: int)
    requires
        paths_are_valid(before),
        0 <= n < paths_below(before, folder).len(),
    ensures
        path::is_valid(paths_below(before, folder)[n]),
{
    let below = |r: Row| text::has_prefix(r.path, folder.push('/'));
    let r = before.filter(below)[n];
    assert(before.filter(below).contains(r));
    rows::filter_contains(before, below, r);
}

/// The removal of a folder that goes on is where it should be.
proof fn folder_goes_on(
    w: World,
    folder: Seq<char>,
    now: World,
    n: int,
    step: Step<RemoveFolder, ()>,
)
    requires
        paths_are_valid(w.rows),
        0 <= n <= paths_below(w.rows, folder).len(),
        now == reduced(w, rows_off_all(w.rows, paths_below(w.rows, folder).take(n))),
        remove::removes(step, paths_below(w.rows, folder), n),
    ensures
        folder_state(w, folder, now, step),
{
    let list = paths_below(w.rows, folder);
    if n == list.len() {
        assert(list.take(n) =~= list);
        off_all_is_outside(w.rows, folder);
    } else {
        below_is_valid(w.rows, folder, n);
    }
}

/// An honest reply takes the removal of a folder on.
proof fn folder_step(
    w: World,
    folder: Seq<char>,
    now: World,
    request: Request,
    task: RemoveFolder,
    reply: Reply,
    next: Step<RemoveFolder, ()>,
)
    requires
        folder_state(w, folder, now, Step::Ask(request, task)),
        paths_are_valid(w.rows),
        w.rows.len() <= u32::MAX,
        world::honest(now, request, reply),
        remove::folder_removal_resumes(task, reply, next),
    ensures
        folder_state(w, folder, world::effect(now, request, reply), next),
{
    let list = paths_below(w.rows, folder);
    let then = world::effect(now, request, reply);
    match task {
        RemoveFolder::Listing => {
            let v = reply->Entries_0@;
            let start = request->Index_0->Prefix_start@;
            let end = request->Index_0->Prefix_end@;
            let p = |r: Row| index::in_range(vstd::utf8::encode_utf8(r.path), start, end);
            let q = |r: Row| text::has_prefix(r.path, folder.push('/'));
            assert forall|i: int| 0 <= i < w.rows.len() implies p(#[trigger] w.rows[i]) == q(
                w.rows[i],
            ) by {
                index::prefix_range_is_exact(folder.push('/'), w.rows[i].path);
            }
            rows::filter_agrees(w.rows, p, q);
            let found = w.rows.filter(q);
            assert(index::all_read(index::entries_in(v), found));
            assert forall|m: Seq<char>| !index::first_failure(index::entries_in(v), m) by {
                index::no_failure(index::entries_in(v), found, m);
            }
            let read = choose|read: Seq<Row>|
                {
                    &&& #[trigger] index::all_read(index::entries_in(v), read)
                    &&& remove::removes(next, remove::paths_of(read), 0)
                };
            index::readings_agree(index::entries_in(v), found, read);
            assert(rows_off_all(w.rows, list.take(0)) == w.rows) by {
                rows::filter_keeps_all(w.rows, |r: Row| !list.take(0).contains(r.path));
            }
            assert(reduced(w, w.rows).blobs =~= w.blobs);
            folder_goes_on(w, folder, then, 0, next);
        },
        RemoveFolder::Removing { paths, next: n, current } => {
            let before = rows_off_all(w.rows, list.take(n - 1));
            let u = reduced(w, before);
            let keep = |r: Row| !list.take(n - 1).contains(r.path);
            w.rows.lemma_filter_len(keep);
            rows::filter_is_part(w.rows, keep);
            let s = choose|s: Step<RemovePath, ()>|
                {
                    &&& #[trigger] remove::removal_resumes(current, reply, s)
                    &&& match s {
                        Step::Ask(request, task) => next == Step::<RemoveFolder, ()>::Ask(
                            request,
                            RemoveFolder::Removing { paths, next: n, current: task },
                        ),
                        Step::Done(Err(e)) => next == Step::<RemoveFolder, ()>::Done(Err(e)),
                        Step::Done(Ok(_)) => remove::removes(next, index::texts(paths@), n as int),
                    }
                };
            removal_step(u, list[n - 1], None, now, request, current, reply, s);
            if s is Done {
                rows::filter_is_part(before, |r: Row| r.path != list[n - 1]);
                off_one_more(w.rows, list, n - 1);
                reduced_twice(w, before, rows_off_all(w.rows, list.take(n as int)));
                folder_goes_on(w, folder, then, n as int, next);
            }
        },
    }
}

/// The removal of a folder is at every turn where it should be.
pub proof fn folder_turn(
    folder: Seq<char>,
    turns: Seq<Turn<RemoveFolder, ()>>,
    k: int,
)
    requires
        world::is_run(|t, r, s| remove::folder_removal_resumes(t, r, s), turns),
        path::is_valid(folder),
        remove::folder_removal_starts(folder, turns[0].step),
        paths_are_valid(turns[0].world.rows),
        turns[0].world.rows.len() <= u32::MAX,
        0 <= k < turns.len(),
    ensures
        folder_state(turns[0].world, folder, turns[k].world, turns[k].step),
{
    let resumes = |t: RemoveFolder, r: Reply, s: Step<RemoveFolder, ()>|
        remove::folder_removal_resumes(t, r, s);
    let w = turns[0].world;
    let inv = |now: World, step: Step<RemoveFolder, ()>| folder_state(w, folder, now, step);
    assert forall|now: World, request: Request, task: RemoveFolder, reply: Reply, next: Step<
        RemoveFolder,
        (),
    >|
        #![trigger inv(now, Step::Ask(request, task)), resumes(task, reply, next)]
        inv(now, Step::Ask(request, task)) && world::honest(now, request, reply) && resumes(
            task,
            reply,
            next,
        ) implies inv(world::effect(now, request, reply), next) by {
        folder_step(w, folder, now, request, task, reply, next);
    }
    world::run_keeps(resumes, inv, turns, k);
}

/// Removing a folder deletes every row whose path begins with the folder's name
/// and a slash, and no other. Exactly the blobs go whose last row went.
pub proof fn remove_folder_law(folder: Seq<char>, turns: Seq<Turn<RemoveFolder, ()>>)
    requires
        world::is_run(|t, r, s| remove::folder_removal_resumes(t, r, s), turns),
        path::is_valid(folder),
        remove::folder_removal_starts(folder, turns[0].step),
        paths_are_valid(turns[0].world.rows),
        turns[0].world.rows.len() <= u32::MAX,
    ensures
        turns.last().step matches Step::Done(r) ==> r is Ok && turns.last().world == reduced(
            turns[0].world,
            rows_outside(turns[0].world.rows, folder),
        ),
        turns.last().step is Done && is_consistent(turns[0].world) ==> is_consistent(
            turns.last().world,
        ),
{
    let w = turns[0].world;
    folder_turn(folder, turns, turns.len() - 1);
    rows::filter_is_part(w.rows, |r: Row| !text::has_prefix(r.path, folder.push('/')));
    if is_consistent(w) {
        removals_keep_consistency(w, rows_outside(w.rows, folder));
    }
}

} // verus!
