//! Operations end: where nothing goes wrong outside, each is done after a number
//! of turns that the store and the content bound.

use vstd::prelude::*;

use crate::add;
use crate::add::{Add, AddResult};
use crate::get;
use crate::get::{GetBytes, GetReader, PathStat, StatPath};
use crate::hash;
use crate::index;
use crate::index::{Row, VersionInfo};
use crate::list;
use crate::list::{CommonPrefixEntry, ListFolder, ListPaths, ListVersions, PathEntry};
use crate::path;
use crate::reader::BloxtreeReader;
use crate::removal_laws;
use crate::remove;
use crate::remove::{RemoveFolder, RemovePath, Sweep, TrimPath};
use crate::store;
use crate::store::{Source, StoreBlob, Stored};
use crate::store_laws;
use crate::talk::{Reply, Request, Step};
use crate::tree;
use crate::tree::{Bloxtree, Open, OpenStage, Shutdown};
use crate::world;
use crate::world::{Turn, World};

verus! {

/// What is left to do at turn `i` is more than at the next.
pub open spec fn falls_at<T, R>(
    left: spec_fn(World, Step<T, R>) -> nat,
    turns: Seq<Turn<T, R>>,
    i: int,
) -> bool {
    left(turns[i + 1].world, turns[i + 1].step) < left(turns[i].world, turns[i].step)
}

/// What falls with every turn bounds the number of turns.
proof fn fall_ends<T, R>(left: spec_fn(World, Step<T, R>) -> nat, turns: Seq<Turn<T, R>>, k: int)
    requires
        0 <= k < turns.len(),
        forall|i: int| 0 <= i < turns.len() - 1 ==> #[trigger] falls_at(left, turns, i),
    ensures
        left(turns[k].world, turns[k].step) + k <= left(turns[0].world, turns[0].step),
    decreases k,
{
    if k > 0 {
        fall_ends(left, turns, k - 1);
        assert(falls_at(left, turns, k - 1));
    }
}

// ---------------------------------------------------------------------------
// Opening, listing and shutting down
// ---------------------------------------------------------------------------

/// How many replies opening still waits for.
pub open spec fn opening_left(step: Step<Open, Bloxtree>) -> nat {
    match step {
        Step::Ask(_, t) => match t.stage {
            OpenStage::FindingRoot => 7,
            OpenStage::TestingRoot => 6,
            OpenStage::MakingObjects => 5,
            OpenStage::TestingIndexPath => 4,
            OpenStage::OpeningIndex => 3,
            OpenStage::ApplyingSchema => 2,
            OpenStage::MakingTemporary => 1,
        },
        Step::Done(_) => 0,
    }
}

/// Opening a store ends.
pub proof fn open_ends(root: Seq<char>, turns: Seq<Turn<Open, Bloxtree>>)
    requires
        world::is_run(|t, r, s| tree::open_resumes(t, r, s), turns),
        tree::opening_at(root, OpenStage::FindingRoot, turns[0].step),
    ensures
        turns.len() <= 8,
{
    let resumes = |t: Open, r: Reply, s: Step<Open, Bloxtree>| tree::open_resumes(t, r, s);
    let left = |now: World, step: Step<Open, Bloxtree>| opening_left(step);
    assert forall|i: int| 0 <= i < turns.len() - 1 implies #[trigger] falls_at(left, turns, i) by {
        assert(world::leads_on(resumes, turns, i));
        store_laws::opening_turn(root, turns, i);
    }
    fall_ends(left, turns, turns.len() - 1);
}

/// Listing a folder ends with the first reply.
pub proof fn list_folder_ends(
    folder: Seq<char>,
    turns: Seq<Turn<ListFolder, Vec<CommonPrefixEntry>>>,
)
    requires
        world::is_run(|t, r, s| list::folder_listing_resumes(t, r, s), turns),
        list::folder_listing_starts(folder, turns[0].step),
    ensures
        turns.len() <= 2,
{
    let resumes = |t: ListFolder, r: Reply, s: Step<ListFolder, Vec<CommonPrefixEntry>>|
        list::folder_listing_resumes(t, r, s);
    if turns.len() > 2 {
        assert(world::leads_on(resumes, turns, 0));
        assert(world::leads_on(resumes, turns, 1));
    }
}

/// Listing all paths ends with the first reply.
pub proof fn list_paths_ends(turns: Seq<Turn<ListPaths, Vec<PathEntry>>>)
    requires
        world::is_run(|t, r, s| list::path_listing_resumes(t, r, s), turns),
        list::path_listing_starts(turns[0].step),
    ensures
        turns.len() <= 2,
{
    let resumes = |t: ListPaths, r: Reply, s: Step<ListPaths, Vec<PathEntry>>|
        list::path_listing_resumes(t, r, s);
    if turns.len() > 2 {
        assert(world::leads_on(resumes, turns, 0));
        assert(world::leads_on(resumes, turns, 1));
    }
}

/// Listing the versions of a path ends with the first reply.
pub proof fn versions_ends(path: Seq<char>, turns: Seq<Turn<ListVersions, Vec<VersionInfo>>>)
    requires
        world::is_run(|t, r, s| list::version_listing_resumes(t, r, s), turns),
        list::version_listing_starts(path, turns[0].step),
    ensures
        turns.len() <= 2,
{
    let resumes = |t: ListVersions, r: Reply, s: Step<ListVersions, Vec<VersionInfo>>|
        list::version_listing_resumes(t, r, s);
    if turns.len() > 2 {
        assert(world::leads_on(resumes, turns, 0));
        assert(world::leads_on(resumes, turns, 1));
    }
}

/// Shutting a store down ends with the first reply, and well.
pub proof fn shutdown_ends(turns: Seq<Turn<Shutdown, ()>>)
    requires
        world::is_run(|t, r, s| tree::shutdown_resumes(t, r, s), turns),
        turns[0].step == Step::<Shutdown, ()>::Ask(Request::FlushIndex, Shutdown),
    ensures
        turns.len() <= 2,
        turns.last().step matches Step::Done(r) ==> r is Ok,
        turns.last().world == turns[0].world,
{
    let resumes = |t: Shutdown, r: Reply, s: Step<Shutdown, ()>| tree::shutdown_resumes(t, r, s);
    if turns.len() > 1 {
        assert(world::leads_on(resumes, turns, 0));
    }
    if turns.len() > 2 {
        assert(world::leads_on(resumes, turns, 1));
    }
}

// ---------------------------------------------------------------------------
// Adding
// ---------------------------------------------------------------------------

/// How many replies storing still waits for, at most: two for each byte that is
/// to come, and a few.
pub open spec fn storing_left(now: World, step: Step<StoreBlob, Stored>) -> nat {
    match step {
        Step::Ask(_, StoreBlob::Making { source }) => 2 * store_laws::content_of(
            source,
            now.input,
        ).len() + 7,
        Step::Ask(_, StoreBlob::Reading { source, .. }) => 2 * store_laws::content_of(
            source,
            now.input,
        ).len() + 5,
        Step::Ask(_, StoreBlob::Writing { source, .. }) => 2 * store_laws::content_of(
            source,
            now.input,
        ).len() + 6,
        Step::Ask(_, StoreBlob::Looking { .. }) => 4,
        Step::Ask(_, StoreBlob::MakingDirectory { .. }) => 3,
        Step::Ask(_, StoreBlob::Syncing { .. }) => 2,
        Step::Ask(_, StoreBlob::Persisting { .. }) => 1,
        Step::Ask(_, StoreBlob::Discarding { .. }) => 1,
        Step::Done(_) => 0,
    }
}

/// Storing that goes on has little more to do than its content.
proof fn going_on_left(
    now: World,
    source: Source,
    before: Seq<u8>,
    step: Step<StoreBlob, Stored>,
)
    requires
        store::goes_on(step, source, before),
    ensures
        storing_left(now, step) <= 2 * store_laws::content_of(source, now.input).len() + 5,
{
    match source {
        Source::Reader => {},
        Source::Bytes { data, at } => {
            let chunk = store::next_bytes(data@, at as int);
            let k = choose|k: usize|
                k == at + chunk.len() && #[trigger] store::takes(
                    step,
                    Source::Bytes { data, at: k },
                    before,
                    chunk,
                );
        },
    }
}

/// With every reply less is left to store.
proof fn storing_falls(
    w: World,
    content: Seq<u8>,
    now: World,
    request: Request,
    task: StoreBlob,
    reply: Reply,
    next: Step<StoreBlob, Stored>,
)
    requires
        store_laws::storing_state(w, content, now, Step::Ask(request, task)),
        world::honest(now, request, reply),
        store::storing_resumes(task, reply, next),
    ensures
        storing_left(world::effect(now, request, reply), next) < storing_left(
            now,
            Step::Ask(request, task),
        ),
{
    let then = world::effect(now, request, reply);
    match task {
        StoreBlob::Making { source } => {
            going_on_left(then, source, Seq::empty(), next);
        },
        StoreBlob::Writing { source, digest } => {
            going_on_left(then, source, digest@, next);
        },
        _ => {},
    }
}

/// How many replies an addition still waits for, at most.
pub open spec fn add_left(now: World, step: Step<Add, AddResult>) -> nat {
    match step {
        Step::Ask(request, Add::Storing { blob, .. }) => storing_left(
            now,
            Step::Ask(request, blob),
        ) + 1,
        Step::Ask(_, Add::Recording { .. }) => 1,
        Step::Done(_) => 0,
    }
}

/// Adding content ends: after two turns for each byte and a few more.
pub proof fn add_ends(paths: Seq<Seq<char>>, source: Source, turns: Seq<Turn<Add, AddResult>>)
    requires
        world::is_run(|t, r, s| add::add_resumes(t, r, s), turns),
        paths.len() > 0,
        add::first_problem(paths) is None,
        add::add_starts(paths, source, turns[0].step),
    ensures
        turns.len() <= 2 * store_laws::content_of(source, turns[0].world.input).len() + 9,
{
    let resumes = |t: Add, r: Reply, s: Step<Add, AddResult>| add::add_resumes(t, r, s);
    let w = turns[0].world;
    let content = store_laws::content_of(source, w.input);
    let left = |now: World, step: Step<Add, AddResult>| add_left(now, step);
    assert forall|i: int| 0 <= i < turns.len() - 1 implies #[trigger] falls_at(left, turns, i) by {
        assert(world::leads_on(resumes, turns, i));
        store_laws::add_turn(paths, source, turns, i);
        let now = turns[i].world;
        let reply = turns[i].reply;
        let next = turns[i + 1].step;
        match turns[i].step {
            Step::Ask(request, Add::Storing { paths: p, blob }) => {
                let s = choose|s: Step<StoreBlob, Stored>| #[trigger]
                    store::storing_resumes(blob, reply, s) && add::add_goes_on(s, p, next);
                storing_falls(w, content, now, request, blob, reply, s);
            },
            _ => {},
        }
    }
    fall_ends(left, turns, turns.len() - 1);
}

// ---------------------------------------------------------------------------
// Getting
// ---------------------------------------------------------------------------

/// The size of the blob of the latest version of a path, or nothing.
pub open spec fn latest_size(w: World, path: Seq<char>) -> nat {
    let all = world::versions_of(w.rows, path);
    if all.len() > 0 && w.blobs.contains_key(all[0].hash) {
        w.blobs[all[0].hash].len()
    } else {
        0
    }
}

/// How many replies getting bytes still waits for, at most.
pub open spec fn get_left(
    w: World,
    path: Seq<char>,
    now: World,
    step: Step<GetBytes, Option<Vec<u8>>>,
) -> nat {
    match step {
        Step::Ask(_, GetBytes::Finding(GetReader::Looking)) => latest_size(w, path) + 3,
        Step::Ask(_, GetBytes::Finding(GetReader::Opening { .. })) => latest_size(w, path) + 2,
        Step::Ask(_, GetBytes::Reading { .. }) => now.open.len() + 1,
        Step::Done(_) => 0,
    }
}

/// Getting the bytes of a path ends: after one turn for each byte and a few more.
pub proof fn get_bytes_ends(path: Seq<char>, turns: Seq<Turn<GetBytes, Option<Vec<u8>>>>)
    requires
        world::is_run(|t, r, s| get::bytes_resume(t, r, s), turns),
        path::is_valid(path),
        get::bytes_start(path, turns[0].step),
    ensures
        turns.len() <= latest_size(turns[0].world, path) + 4,
{
    let resumes = |t: GetBytes, r: Reply, s: Step<GetBytes, Option<Vec<u8>>>|
        get::bytes_resume(t, r, s);
    let w = turns[0].world;
    let left = |now: World, step: Step<GetBytes, Option<Vec<u8>>>| get_left(w, path, now, step);
    assert forall|i: int| 0 <= i < turns.len() - 1 implies #[trigger] falls_at(left, turns, i) by {
        assert(world::leads_on(resumes, turns, i));
        store_laws::get_turn(path, turns, i);
        store_laws::get_turn(path, turns, i + 1);
        let reply = turns[i].reply;
        let next = turns[i + 1].step;
        match turns[i].step {
            Step::Ask(_, GetBytes::Finding(t)) => {
                let s = choose|s: Step<GetReader, Option<BloxtreeReader>>| #[trigger]
                    get::get_resumes(t, reply, s) && get::finds(s, next);
                assert(get::finds(s, next));
            },
            _ => {},
        }
    }
    fall_ends(left, turns, turns.len() - 1);
}

/// How many replies finding out metadata still waits for.
pub open spec fn stat_left(step: Step<StatPath, Option<PathStat>>) -> nat {
    match step {
        Step::Ask(_, StatPath::Looking) => 3,
        Step::Ask(_, StatPath::Stating { .. }) => 2,
        Step::Ask(_, StatPath::Counting { .. }) => 1,
        Step::Done(_) => 0,
    }
}

/// Finding out the metadata of a path ends.
pub proof fn stat_path_ends(path: Seq<char>, turns: Seq<Turn<StatPath, Option<PathStat>>>)
    requires
        world::is_run(|t, r, s| get::stat_resumes(t, r, s), turns),
        path::is_valid(path),
        get::stat_starts(path, turns[0].step),
    ensures
        turns.len() <= 4,
{
    let resumes = |t: StatPath, r: Reply, s: Step<StatPath, Option<PathStat>>|
        get::stat_resumes(t, r, s);
    let left = |now: World, step: Step<StatPath, Option<PathStat>>| stat_left(step);
    assert forall|i: int| 0 <= i < turns.len() - 1 implies #[trigger] falls_at(left, turns, i) by {
        assert(world::leads_on(resumes, turns, i));
    }
    fall_ends(left, turns, turns.len() - 1);
}

// ---------------------------------------------------------------------------
// Removing
// ---------------------------------------------------------------------------

/// The rows that pass a test are no more than the rows.
proof fn filter_is_no_longer(all: Seq<Row>, p: spec_fn(Row) -> bool)
    ensures
        all.filter(p).len() <= all.len(),
    decreases all.len(),
{
    reveal(Seq::filter);
    if all.len() > 0 {
        filter_is_no_longer(all.drop_last(), p);
    }
}

/// The hashes of a path, each once, are no more than the rows.
proof fn hashes_are_no_more(all: Seq<Row>, path: Seq<char>, list: Seq<Seq<u8>>)
    requires
        list.no_duplicates(),
        forall|h: Seq<u8>| #[trigger] list.contains(h) <==> world::has_version(all, path, h),
    ensures
        list.len() <= all.len(),
{
    let named = all.map_values(|r: Row| r.hash);
    assert(list.to_set().subset_of(named.to_set())) by {
        assert forall|h: Seq<u8>| #[trigger] list.to_set().contains(h) implies named.to_set().contains(
            h,
        ) by {
            assert(list.contains(h));
            let i = choose|i: int| world::is_first(all, path, h, i);
            assert(named[i] == h);
        }
    }
    list.unique_seq_to_set();
    vstd::seq_lib::seq_to_set_is_finite(list);
    vstd::seq_lib::seq_to_set_is_finite(named);
    named.lemma_cardinality_of_set();
    vstd::set_lib::lemma_len_subset(list.to_set(), named.to_set());
}

/// How many replies a sweep still waits for, at most.
pub open spec fn sweep_left(step: Step<Sweep, ()>) -> nat {
    match step {
        Step::Ask(_, Sweep::Counting { hashes, next }) => if next < hashes@.len() {
            (2 * (hashes@.len() - next)) as nat
        } else {
            1
        },
        Step::Ask(_, Sweep::Removing { hashes, next }) => if next < hashes@.len() {
            (2 * (hashes@.len() - next) + 1) as nat
        } else {
            1
        },
        Step::Done(_) => 0,
    }
}

/// With every reply less is left to sweep.
proof fn sweep_falls(request: Request, task: Sweep, reply: Reply, next: Step<Sweep, ()>)
    requires
        remove::sweep_resumes(task, reply, next),
    ensures
        sweep_left(next) < sweep_left(Step::<Sweep, ()>::Ask(request, task)),
{
}

/// How many replies a removal still waits for, at most.
pub open spec fn removal_left(now: World, step: Step<RemovePath, ()>) -> nat {
    match step {
        Step::Ask(_, RemovePath::DeletingVersion { .. }) => 3,
        Step::Ask(_, RemovePath::ListingHashes { .. }) => 2 * now.rows.len() + 2,
        Step::Ask(_, RemovePath::DeletingPath { hashes }) => 2 * hashes@.len() + 1,
        Step::Ask(request, RemovePath::Sweeping(t)) => sweep_left(
            Step::<Sweep, ()>::Ask(request, t),
        ),
        Step::Done(_) => 0,
    }
}

/// With every reply less is left to remove.
proof fn removal_falls(
    w: World,
    path: Seq<char>,
    hash: Option<hash::Hash>,
    now: World,
    request: Request,
    task: RemovePath,
    reply: Reply,
    next: Step<RemovePath, ()>,
)
    requires
        removal_laws::removal_state(w, path, hash, now, Step::Ask(request, task)),
        world::honest(now, request, reply),
        remove::removal_resumes(task, reply, next),
    ensures
        removal_left(world::effect(now, request, reply), next) < removal_left(
            now,
            Step::Ask(request, task),
        ),
{
    match task {
        RemovePath::Sweeping(t) => {
            let s = choose|s: Step<Sweep, ()>| #[trigger]
                remove::sweep_resumes(t, reply, s) && next == remove::removal_sweeping(s);
            sweep_falls(request, t, reply, s);
        },
        RemovePath::DeletingVersion { hash: h } => {
            let n = reply->Changed_0;
            let s = choose|s: Step<Sweep, ()>| #[trigger]
                remove::sweeps(s, remove::hashes_deleted(n, h), 0) && next
                    == remove::removal_sweeping(s);
            assert(remove::sweeps(s, remove::hashes_deleted(n, h), 0));
        },
        RemovePath::ListingHashes { path: q } => {
            let v = reply->Hashes_0@;
            let list = choose|list: Seq<Seq<u8>>|
                {
                    &&& #[trigger] index::all_read(index::hashes_in(v), list)
                    &&& list.no_duplicates()
                    &&& forall|h: Seq<u8>|
                        #[trigger] list.contains(h) <==> world::has_version(now.rows, path, h)
                };
            hashes_are_no_more(now.rows, path, list);
            match next {
                Step::Ask(_, RemovePath::DeletingPath { hashes }) => {
                    index::readings_agree(
                        index::hashes_in(v),
                        list,
                        index::hash_views(hashes@),
                    );
                    assert(hashes@.len() == index::hash_views(hashes@).len());
                },
                _ => {},
            }
        },
        RemovePath::DeletingPath { hashes } => {
            let s = choose|s: Step<Sweep, ()>| #[trigger]
                remove::sweeps(s, hashes@, 0) && next == remove::removal_sweeping(s);
            assert(remove::sweeps(s, hashes@, 0));
        },
    }
}

/// Removing a path ends: after two turns for each row and a few more.
pub proof fn remove_path_ends(
    path: Seq<char>,
    hash: Option<hash::Hash>,
    turns: Seq<Turn<RemovePath, ()>>,
)
    requires
        world::is_run(|t, r, s| remove::removal_resumes(t, r, s), turns),
        path::is_valid(path),
        remove::removal_starts(path, hash, turns[0].step),
        turns[0].world.rows.len() <= u32::MAX,
    ensures
        turns.len() <= 2 * turns[0].world.rows.len() + 4,
{
    let resumes = |t: RemovePath, r: Reply, s: Step<RemovePath, ()>| remove::removal_resumes(t, r, s);
    let left = |now: World, step: Step<RemovePath, ()>| removal_left(now, step);
    assert forall|i: int| 0 <= i < turns.len() - 1 implies #[trigger] falls_at(left, turns, i) by {
        assert(world::leads_on(resumes, turns, i));
        removal_laws::removal_turn(path, hash, turns, i);
        match turns[i].step {
            Step::Ask(request, t) => {
                removal_falls(
                    turns[0].world,
                    path,
                    hash,
                    turns[i].world,
                    request,
                    t,
                    turns[i].reply,
                    turns[i + 1].step,
                );
            },
            Step::Done(_) => {},
        }
    }
    fall_ends(left, turns, turns.len() - 1);
}

/// How many replies a trim still waits for, at most.
pub open spec fn trim_left(now: World, step: Step<TrimPath, ()>) -> nat {
    match step {
        Step::Ask(request, TrimPath::Removing(t)) => removal_left(now, Step::Ask(request, t)),
        Step::Ask(_, TrimPath::Listing { .. }) => 3 * now.rows.len() + 1,
        Step::Ask(_, TrimPath::Deleting { excess, next, deleted, .. }) => if next < excess@.len() {
            (3 * (excess@.len() - next) + 2 * deleted@.len()) as nat
        } else {
            1
        },
        Step::Ask(request, TrimPath::Sweeping(t)) => sweep_left(Step::<Sweep, ()>::Ask(request, t)),
        Step::Done(_) => 0,
    }
}

/// A trim that goes on has three turns for each version that is left, at most.
proof fn trims_left(
    now: World,
    step: Step<TrimPath, ()>,
    path: Seq<char>,
    excess: Seq<hash::Hash>,
    next: int,
    deleted: Seq<hash::Hash>,
)
    requires
        0 <= next <= excess.len(),
        remove::trims(step, path, excess, next, deleted),
    ensures
        trim_left(now, step) <= 3 * (excess.len() - next) + 2 * deleted.len(),
{
    if next == excess.len() {
        let s = choose|s: Step<Sweep, ()>| #[trigger]
            remove::sweeps(s, deleted, 0) && step == remove::trim_sweeping(s);
        assert(remove::sweeps(s, deleted, 0));
    }
}

/// With every reply less is left to trim.
proof fn trim_falls(
    w: World,
    path: Seq<char>,
    keep: u8,
    now: World,
    request: Request,
    task: TrimPath,
    reply: Reply,
    next: Step<TrimPath, ()>,
)
    requires
        removal_laws::trim_state(w, path, keep, now, Step::Ask(request, task)),
        world::honest(now, request, reply),
        remove::trim_resumes(task, reply, next),
    ensures
        trim_left(world::effect(now, request, reply), next) < trim_left(
            now,
            Step::Ask(request, task),
        ),
{
    let then = world::effect(now, request, reply);
    match task {
        TrimPath::Removing(t) => {
            let s = choose|s: Step<RemovePath, ()>| #[trigger]
                remove::removal_resumes(t, reply, s) && next == remove::trim_removing(s);
            removal_falls(w, path, None, now, request, t, reply, s);
        },
        TrimPath::Sweeping(t) => {
            let s = choose|s: Step<Sweep, ()>| #[trigger]
                remove::sweep_resumes(t, reply, s) && next == remove::trim_sweeping(s);
            sweep_falls(request, t, reply, s);
        },
        TrimPath::Listing { path: q, keep: n } => {
            let v = reply->Versions_0@;
            filter_is_no_longer(now.rows, |r: Row| r.path == path);
            assert(index::versions_in(v).len() == world::rows_at(now.rows, path).len());
            if next is Ask {
                let list = choose|list: Seq<VersionInfo>|
                    {
                        &&& #[trigger] index::all_read(
                            index::versions_in(v),
                            index::version_views(list),
                        )
                        &&& remove::trims(
                            next,
                            q@,
                            remove::hashes_beyond(list, n as int),
                            0,
                            Seq::empty(),
                        )
                    };
                assert(index::version_views(list).len() == list.len());
                let excess = remove::hashes_beyond(list, n as int);
                trims_left(then, next, q@, excess, 0, Seq::empty());
            }
        },
        TrimPath::Deleting { path: q, excess, next: n, deleted } => {
            let d = remove::also_deleted(deleted@, reply->Changed_0, excess@[n as int]);
            trims_left(then, next, q@, excess@, n + 1, d);
        },
    }
}

/// Trimming a path ends: after three turns for each row and a few more.
pub proof fn trim_path_ends(path: Seq<char>, keep: u8, turns: Seq<Turn<TrimPath, ()>>)
    requires
        world::is_run(|t, r, s| remove::trim_resumes(t, r, s), turns),
        path::is_valid(path),
        remove::trim_starts(path, keep, turns[0].step),
        world::in_order(turns[0].world.rows),
        turns[0].world.rows.len() <= u32::MAX,
    ensures
        turns.len() <= 3 * turns[0].world.rows.len() + 3,
{
    let resumes = |t: TrimPath, r: Reply, s: Step<TrimPath, ()>| remove::trim_resumes(t, r, s);
    let left = |now: World, step: Step<TrimPath, ()>| trim_left(now, step);
    assert forall|i: int| 0 <= i < turns.len() - 1 implies #[trigger] falls_at(left, turns, i) by {
        assert(world::leads_on(resumes, turns, i));
        removal_laws::trim_turn(path, keep, turns, i);
        match turns[i].step {
            Step::Ask(request, t) => {
                trim_falls(
                    turns[0].world,
                    path,
                    keep,
                    turns[i].world,
                    request,
                    t,
                    turns[i].reply,
                    turns[i + 1].step,
                );
            },
            Step::Done(_) => {},
        }
    }
    fall_ends(left, turns, turns.len() - 1);
    if keep == 0 {
        let s = choose|s: Step<RemovePath, ()>| #[trigger]
            remove::removal_starts(path, None, s) && turns[0].step == remove::trim_removing(s);
        assert(remove::removal_starts(path, None, s));
    }
}

/// How many replies the removal of one path waits for, at most, in a store that
/// had `n` rows.
pub open spec fn path_cost(n: nat) -> nat {
    2 * n + 3
}

/// How many replies the removal of a folder still waits for, at most, in a store
/// that had `n` rows.
pub open spec fn folder_left(n: nat, now: World, step: Step<RemoveFolder, ()>) -> nat {
    match step {
        Step::Ask(_, RemoveFolder::Listing) => n * path_cost(n) + 1,
        Step::Ask(request, RemoveFolder::Removing { paths, next, current }) => {
            let rest = if next <= paths@.len() {
                (paths@.len() - next) as nat
            } else {
                0
            };
            rest * path_cost(n) + removal_left(now, Step::Ask(request, current))
        },
        Step::Done(_) => 0,
    }
}

/// The removal of a folder that goes on has no more to do than for the paths
/// that are left.
proof fn removes_left(
    n: nat,
    now: World,
    step: Step<RemoveFolder, ()>,
    paths: Seq<Seq<char>>,
    next: int,
)
    requires
        now.rows.len() <= n,
        0 <= next <= paths.len(),
        remove::removes(step, paths, next),
    ensures
        folder_left(n, now, step) <= (paths.len() - next) * path_cost(n),
{
    let cost = path_cost(n) as int;
    let rest = paths.len() - next;
    if rest > 0 {
        let s = choose|s: Step<RemovePath, ()>|
            {
                &&& #[trigger] remove::removal_starts(paths[next], None, s)
                &&& match s {
                    Step::Ask(request, task) => {
                        &&& step matches Step::Ask(
                            q,
                            RemoveFolder::Removing { paths: p, next: k, current },
                        )
                        &&& q == request
                        &&& index::texts(p@) == paths
                        &&& k == next + 1
                        &&& current == task
                    },
                    Step::Done(r) => step == Step::<RemoveFolder, ()>::Done(r),
                }
            };
        assert(remove::removal_starts(paths[next], None, s));
        if let Step::Ask(_, RemoveFolder::Removing { paths: p, .. }) = step {
            assert(p@.len() == index::texts(p@).len());
        }
        assert(rest * cost == (rest - 1) * cost + cost) by (nonlinear_arith);
        assert((rest - 1) * cost >= 0) by (nonlinear_arith)
            requires
                rest > 0,
                cost >= 0,
        ;
    }
}

/// With every reply less of a folder is left to remove.
proof fn folder_falls(
    w: World,
    folder: Seq<char>,
    now: World,
    request: Request,
    task: RemoveFolder,
    reply: Reply,
    next: Step<RemoveFolder, ()>,
)
    requires
        removal_laws::folder_state(w, folder, now, Step::Ask(request, task)),
        removal_laws::folder_state(w, folder, world::effect(now, request, reply), next),
        world::honest(now, request, reply),
        remove::folder_removal_resumes(task, reply, next),
    ensures
        folder_left(w.rows.len(), world::effect(now, request, reply), next) < folder_left(
            w.rows.len(),
            now,
            Step::Ask(request, task),
        ),
{
    let n = w.rows.len();
    let then = world::effect(now, request, reply);
    let all = removal_laws::paths_below(w.rows, folder);
    match task {
        RemoveFolder::Listing => {
            let v = reply->Entries_0@;
            let start = request->Index_0->Prefix_start@;
            let end = request->Index_0->Prefix_end@;
            let found = now.rows.filter(
                |r: Row| index::in_range(vstd::utf8::encode_utf8(r.path), start, end),
            );
            filter_is_no_longer(
                now.rows,
                |r: Row| index::in_range(vstd::utf8::encode_utf8(r.path), start, end),
            );
            assert(index::all_read(index::entries_in(v), found));
            if next is Ask {
                let read = choose|read: Seq<Row>|
                    {
                        &&& #[trigger] index::all_read(index::entries_in(v), read)
                        &&& remove::removes(next, remove::paths_of(read), 0)
                    };
                index::readings_agree(index::entries_in(v), found, read);
                removes_left(n, then, next, remove::paths_of(read), 0);
                let k = remove::paths_of(read).len() as int;
                assert(k * path_cost(n) <= n * path_cost(n)) by (nonlinear_arith)
                    requires
                        0 <= k <= n,
                        path_cost(n) >= 0,
                ;
            }
        },
        RemoveFolder::Removing { paths, next: k, current } => {
            let gone = all.take(k - 1);
            let mid = removal_laws::reduced(w, removal_laws::rows_off_all(w.rows, gone));
            let s = choose|s: Step<RemovePath, ()>|
                {
                    &&& #[trigger] remove::removal_resumes(current, reply, s)
                    &&& match s {
                        Step::Ask(q, t) => next == Step::<RemoveFolder, ()>::Ask(
                            q,
                            RemoveFolder::Removing { paths, next: k, current: t },
                        ),
                        Step::Done(Err(e)) => next == Step::<RemoveFolder, ()>::Done(Err(e)),
                        Step::Done(Ok(_)) => remove::removes(next, index::texts(paths@), k as int),
                    }
                };
            removal_falls(mid, all[k - 1], None, now, request, current, reply, s);
            assert(paths@.len() == index::texts(paths@).len());
            let rest = (paths@.len() - k) as int;
            assert(rest * path_cost(n) >= 0) by (nonlinear_arith)
                requires
                    rest >= 0,
                    path_cost(n) >= 0,
            ;
            if s is Done && next is Ask {
                match next {
                    Step::Ask(q, RemoveFolder::Removing { next: j, current: c, .. }) => {
                        filter_is_no_longer(w.rows, |r: Row| !all.take(j - 1).contains(r.path));
                        assert(then.rows.len() <= n);
                    },
                    _ => {},
                }
                removes_left(n, then, next, index::texts(paths@), k as int);
            }
        },
    }
}

/// Removing a folder ends.
pub proof fn remove_folder_ends(folder: Seq<char>, turns: Seq<Turn<RemoveFolder, ()>>)
    requires
        world::is_run(|t, r, s| remove::folder_removal_resumes(t, r, s), turns),
        path::is_valid(folder),
        remove::folder_removal_starts(folder, turns[0].step),
        removal_laws::paths_are_valid(turns[0].world.rows),
        turns[0].world.rows.len() <= u32::MAX,
    ensures
        turns.len() <= turns[0].world.rows.len() * path_cost(turns[0].world.rows.len()) + 2,
{
    let resumes = |t: RemoveFolder, r: Reply, s: Step<RemoveFolder, ()>|
        remove::folder_removal_resumes(t, r, s);
    let w = turns[0].world;
    let left = |now: World, step: Step<RemoveFolder, ()>| folder_left(w.rows.len(), now, step);
    assert forall|i: int| 0 <= i < turns.len() - 1 implies #[trigger] falls_at(left, turns, i) by {
        assert(world::leads_on(resumes, turns, i));
        removal_laws::folder_turn(folder, turns, i);
        removal_laws::folder_turn(folder, turns, i + 1);
        match turns[i].step {
            Step::Ask(request, t) => {
                folder_falls(
                    w,
                    folder,
                    turns[i].world,
                    request,
                    t,
                    turns[i].reply,
                    turns[i + 1].step,
                );
            },
            Step::Done(_) => {},
        }
    }
    fall_ends(left, turns, turns.len() - 1);
}

} // verus!
