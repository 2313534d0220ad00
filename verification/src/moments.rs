//! What holds at every moment of an operation, also of one that is cut short.

use vstd::prelude::*;

use crate::add;
use crate::add::{Add, AddResult};
use crate::hash;
use crate::index::Row;
use crate::insertion;
use crate::path;
use crate::removal_laws;
use crate::remove;
use crate::remove::{RemoveFolder, RemovePath, Sweep, TrimPath};
use crate::rows;
use crate::store;
use crate::store::{Source, StoreBlob, Stored};
use crate::store_laws;
use crate::talk::{Reply, Request, Step};
use crate::world;
use crate::world::{Turn, World};

verus! {

/// Every row has its blob.
pub open spec fn has_blobs(w: World) -> bool {
    forall|h: Seq<u8>| #[trigger] rows::names(w.rows, h) ==> w.blobs.contains_key(h)
}

/// At no moment of an addition is there a row without its blob: the blob is
/// stored before the versions are recorded, and they are recorded all at once.
/// An addition that is cut short leaves the rows as they were.
pub proof fn add_is_safe(
    paths: Seq<Seq<char>>,
    source: Source,
    turns: Seq<Turn<Add, AddResult>>,
    k: int,
)
    requires
        world::is_run(|t, r, s| add::add_resumes(t, r, s), turns),
        paths.len() > 0,
        add::first_problem(paths) is None,
        add::add_starts(paths, source, turns[0].step),
        has_blobs(turns[0].world),
        0 <= k < turns.len(),
    ensures
        has_blobs(turns[k].world),
        turns[k].step is Ask ==> turns[k].world.rows == turns[0].world.rows,
{
    let w = turns[0].world;
    let now = turns[k].world;
    store_laws::add_turn(paths, source, turns, k);
    match turns[k].step {
        Step::Ask(..) => {},
        Step::Done(r) => {
            let result = r->Ok_0;
            assert forall|h: Seq<u8>| #[trigger] rows::names(now.rows, h) implies now.blobs.contains_key(
                h,
            ) by {
                let i = choose|i: int|
                    0 <= i < now.rows.len() && (#[trigger] now.rows[i]).hash == h;
                let x = now.rows[i];
                assert(now.rows.contains(x));
                insertion::with_version_holds(w.rows, paths, result.uuid@, result.hash@, x);
                if w.rows.contains(x) {
                    let j = choose|j: int| 0 <= j < w.rows.len() && w.rows[j] == x;
                    assert(w.rows[j].hash == h);
                    assert(rows::names(w.rows, h));
                }
            }
        },
    }
}

/// Whether there is a temporary file after a request, by whether there was one
/// before. What fails leaves things as they were.
pub open spec fn temp_after(there: bool, request: Request, reply: Reply) -> bool {
    match request {
        Request::CreateTemp => there || reply is Done,
        Request::PersistTemp { .. } => there && reply !is Done,
        Request::DiscardTemp => there && reply !is Done,
        _ => there,
    }
}

/// Turn `i` of an addition leads to the next, whatever the reply; only the removal
/// of the temporary file does not fail.
pub open spec fn leads_anyhow(turns: Seq<Turn<Add, AddResult>>, there: Seq<bool>, i: int) -> bool {
    match turns[i].step {
        Step::Done(_) => false,
        Step::Ask(request, task) => {
            &&& add::add_resumes(task, turns[i].reply, turns[i + 1].step)
            &&& there[i + 1] == temp_after(there[i], request, turns[i].reply)
            &&& request is DiscardTemp ==> turns[i].reply is Done
        },
    }
}

/// Whether there may be a temporary file where an addition stands.
pub open spec fn temp_state(there: bool, step: Step<Add, AddResult>) -> bool {
    match step {
        Step::Ask(request, Add::Storing { blob, .. }) => match blob {
            StoreBlob::Making { .. } => request is CreateTemp && !there,
            StoreBlob::Persisting { .. } => request is PersistTemp,
            StoreBlob::Discarding { .. } => request is DiscardTemp,
            _ => true,
        },
        Step::Ask(request, Add::Recording { .. }) => request is Index && !there,
        Step::Done(_) => !there,
    }
}

/// An addition that ends leaves no temporary file, also where it fails: whatever
/// the replies are, the file was renamed or removed.
pub proof fn nothing_temporary_is_left(
    paths: Seq<Seq<char>>,
    source: Source,
    turns: Seq<Turn<Add, AddResult>>,
    there: Seq<bool>,
    k: int,
)
    requires
        add::add_starts(paths, source, turns[0].step),
        there.len() == turns.len(),
        !there[0],
        forall|i: int| 0 <= i < turns.len() - 1 ==> #[trigger] leads_anyhow(turns, there, i),
        0 <= k < turns.len(),
    ensures
        temp_state(there[k], turns[k].step),
        turns[k].step is Done ==> !there[k],
    decreases k,
{
    if k > 0 {
        nothing_temporary_is_left(paths, source, turns, there, k - 1);
        assert(leads_anyhow(turns, there, k - 1));
        let reply = turns[k - 1].reply;
        let next = turns[k].step;
        match turns[k - 1].step {
            Step::Ask(_, Add::Storing { paths: p, blob }) => {
                let s = choose|s: Step<StoreBlob, Stored>| #[trigger]
                    store::storing_resumes(blob, reply, s) && add::add_goes_on(s, p, next);
                match blob {
                    StoreBlob::Making { source: from } => {
                        storing_goes_on(s, from);
                    },
                    StoreBlob::Writing { source: from, .. } => {
                        storing_goes_on(s, from);
                    },
                    _ => {},
                }
            },
            _ => {},
        }
    }
}

/// Storing that goes on reads, writes or looks for the blob.
proof fn storing_goes_on(step: Step<StoreBlob, Stored>, source: Source)
    ensures
        forall|before: Seq<u8>| #[trigger]
            store::goes_on(step, source, before) ==> (step matches Step::Ask(_, t) && (t is Reading
                || t is Writing || t is Looking)),
{
}

/// A world in which blobs went that no row names.
proof fn blobs_stay(w: World, now: World)
    requires
        has_blobs(w),
        rows::is_part(now.rows, w.rows),
        forall|h: Seq<u8>|
            w.blobs.contains_key(h) && rows::names(now.rows, h) ==> #[trigger] now.blobs.contains_key(
                h,
            ),
    ensures
        has_blobs(now),
{
    assert forall|h: Seq<u8>| #[trigger] rows::names(now.rows, h) implies now.blobs.contains_key(
        h,
    ) by {
        rows::part_names(now.rows, w.rows, h);
    }
}

/// A sweep takes no blob that a row names.
proof fn sweep_is_safe(w: World, after: Seq<Row>, now: World, step: Step<Sweep, ()>)
    requires
        has_blobs(w),
        rows::is_part(after, w.rows),
        removal_laws::sweep_state(w, after, now, step),
    ensures
        has_blobs(now),
        now.rows == after,
{
    blobs_stay(w, now);
}

/// A removal that stands where it should has taken no blob that a row names.
proof fn removal_state_is_safe(
    w: World,
    path: Seq<char>,
    hash: Option<hash::Hash>,
    now: World,
    step: Step<RemovePath, ()>,
)
    requires
        has_blobs(w),
        removal_laws::removal_state(w, path, hash, now, step),
    ensures
        has_blobs(now),
        rows::is_part(now.rows, w.rows),
{
    let after = removal_laws::rows_left(w.rows, path, hash);
    removal_laws::rows_left_are_part(w.rows, path, hash);
    match step {
        Step::Ask(request, RemovePath::Sweeping(t)) => {
            sweep_is_safe(w, after, now, Step::Ask(request, t));
        },
        Step::Ask(..) => {},
        Step::Done(_) => {
            blobs_stay(w, now);
        },
    }
}

/// At no moment of a removal is there a row without its blob: rows are deleted
/// first, and only blobs go that no row names any more. No row is made.
pub proof fn remove_path_is_safe(
    path: Seq<char>,
    hash: Option<hash::Hash>,
    turns: Seq<Turn<RemovePath, ()>>,
    k: int,
)
    requires
        world::is_run(|t, r, s| remove::removal_resumes(t, r, s), turns),
        path::is_valid(path),
        remove::removal_starts(path, hash, turns[0].step),
        turns[0].world.rows.len() <= u32::MAX,
        has_blobs(turns[0].world),
        0 <= k < turns.len(),
    ensures
        has_blobs(turns[k].world),
        rows::is_part(turns[k].world.rows, turns[0].world.rows),
{
    removal_laws::removal_turn(path, hash, turns, k);
    removal_state_is_safe(turns[0].world, path, hash, turns[k].world, turns[k].step);
}

/// At no moment of a trim is there a row without its blob. No row is made.
pub proof fn trim_path_is_safe(
    path: Seq<char>,
    keep: u8,
    turns: Seq<Turn<TrimPath, ()>>,
    k: int,
)
    requires
        world::is_run(|t, r, s| remove::trim_resumes(t, r, s), turns),
        path::is_valid(path),
        remove::trim_starts(path, keep, turns[0].step),
        world::in_order(turns[0].world.rows),
        turns[0].world.rows.len() <= u32::MAX,
        has_blobs(turns[0].world),
        0 <= k < turns.len(),
    ensures
        has_blobs(turns[k].world),
        rows::is_part(turns[k].world.rows, turns[0].world.rows),
{
    let w = turns[0].world;
    let now = turns[k].world;
    let after = rows::trimmed(w.rows, path, keep as int);
    removal_laws::trim_turn(path, keep, turns, k);
    rows::filter_is_part(
        w.rows,
        |r: Row| r.path != path || rows::newest(w.rows, path, keep as int).contains(r),
    );
    match turns[k].step {
        Step::Ask(request, TrimPath::Removing(t)) => {
            removal_state_is_safe(w, path, None, now, Step::Ask(request, t));
        },
        Step::Ask(request, TrimPath::Listing { .. }) => {},
        Step::Ask(request, TrimPath::Deleting { .. }) => {
            blobs_stay(w, now);
        },
        Step::Ask(request, TrimPath::Sweeping(t)) => {
            sweep_is_safe(w, after, now, Step::Ask(request, t));
        },
        Step::Done(_) => {
            blobs_stay(w, now);
        },
    }
}

/// At no moment of the removal of a folder is there a row without its blob. No
/// row is made.
pub proof fn remove_folder_is_safe(
    folder: Seq<char>,
    turns: Seq<Turn<RemoveFolder, ()>>,
    k: int,
)
    requires
        world::is_run(|t, r, s| remove::folder_removal_resumes(t, r, s), turns),
        path::is_valid(folder),
        remove::folder_removal_starts(folder, turns[0].step),
        removal_laws::paths_are_valid(turns[0].world.rows),
        turns[0].world.rows.len() <= u32::MAX,
        has_blobs(turns[0].world),
        0 <= k < turns.len(),
    ensures
        has_blobs(turns[k].world),
        rows::is_part(turns[k].world.rows, turns[0].world.rows),
{
    let w = turns[0].world;
    let now = turns[k].world;
    let list = removal_laws::paths_below(w.rows, folder);
    removal_laws::folder_turn(folder, turns, k);
    match turns[k].step {
        Step::Ask(request, RemoveFolder::Listing) => {},
        Step::Ask(request, RemoveFolder::Removing { paths, next, current }) => {
            let gone = list.take(next - 1);
            let mid = removal_laws::reduced(w, removal_laws::rows_off_all(w.rows, gone));
            rows::filter_is_part(w.rows, |r: Row| !gone.contains(r.path));
            blobs_stay(w, mid);
            removal_state_is_safe(mid, list[next - 1], None, now, Step::Ask(request, current));
            assert forall|i: int| 0 <= i < now.rows.len() implies w.rows.contains(
                #[trigger] now.rows[i],
            ) by {
                assert(mid.rows.contains(now.rows[i]));
                let j = choose|j: int| 0 <= j < mid.rows.len() && mid.rows[j] == now.rows[i];
                assert(w.rows.contains(mid.rows[j]));
            }
        },
        Step::Done(_) => {
            rows::filter_is_part(
                w.rows,
                |r: Row| !crate::text::has_prefix(r.path, folder.push('/')),
            );
            blobs_stay(w, now);
        },
    }
}

} // verus!
