//! How the operations of the store fit together.

use vstd::prelude::*;

use crate::add;
use crate::add::{Add, AddResult};
use crate::get;
use crate::get::GetBytes;
use crate::hash;
use crate::index::{Row, Version};
use crate::insertion;
use crate::list;
use crate::list::{CommonPrefixEntry, Item, ListFolder, Listed};
use crate::path;
use crate::pathset;
use crate::removal_laws;
use crate::remove;
use crate::remove::{RemoveFolder, RemovePath};
use crate::rows;
use crate::store::Source;
use crate::store_laws;
use crate::talk::Step;
use crate::text;
use crate::uuid;
use crate::world;
use crate::world::Turn;

verus! {

// ---------------------------------------------------------------------------
// Adding and getting
// ---------------------------------------------------------------------------

/// The content is not stored yet, or is what its blob holds.
pub open spec fn is_intact(blobs: Map<Seq<u8>, Seq<u8>>, content: Seq<u8>) -> bool {
    let h = hash::blake3_digest(content);
    blobs.contains_key(h) ==> blobs[h] == content
}

/// What was added under a path is what a get of the path gives, until the next
/// version: the bytes come back as they were.
pub proof fn get_after_add(
    paths: Seq<Seq<char>>,
    source: Source,
    adding: Seq<Turn<Add, AddResult>>,
    path: Seq<char>,
    getting: Seq<Turn<GetBytes, Option<Vec<u8>>>>,
)
    requires
        world::is_run(|t, r, s| add::add_resumes(t, r, s), adding),
        add::first_problem(paths) is None,
        add::add_starts(paths, source, adding[0].step),
        adding.last().step is Done,
        world::in_order(adding[0].world.rows),
        adding.last().step matches Step::Done(Ok(result)) ==> insertion::is_new(
            adding[0].world.rows,
            result.uuid@,
        ),
        is_intact(
            adding[0].world.blobs,
            store_laws::content_of(source, adding[0].world.input),
        ),
        paths.contains(path),
        world::is_run(|t, r, s| get::bytes_resume(t, r, s), getting),
        get::bytes_start(path, getting[0].step),
        getting[0].world == adding.last().world,
    ensures
        getting.last().step matches Step::Done(r) ==> r matches Ok(Some(b)) && b@
            == store_laws::content_of(source, adding[0].world.input),
{
    let w = adding[0].world;
    let content = store_laws::content_of(source, w.input);
    store_laws::add_law(paths, source, adding);
    let result = adding.last().step->Done_0->Ok_0;
    insertion::new_version_is_first(w.rows, paths, result.uuid@, result.hash@, path);
    let i = choose|i: int| 0 <= i < paths.len() && paths[i] == path;
    valid_where_no_problem(paths, i);
    store_laws::get_bytes_law(path, getting);
    let v = getting[0].world;
    let all = world::versions_of(v.rows, path);
    assert(all[0] == Version { hash: result.hash@, uuid: result.uuid@ });
    assert(v.blobs[all[0].hash] == content);
}

/// Where no path of a list has a problem, each is valid.
pub proof fn valid_where_no_problem(paths: Seq<Seq<char>>, i: int)
    requires
        add::first_problem(paths) is None,
        0 <= i < paths.len(),
    ensures
        path::is_valid(paths[i]),
    decreases paths.len(),
{
    if i > 0 {
        valid_where_no_problem(paths.skip(1), i - 1);
        assert(paths.skip(1)[i - 1] == paths[i]);
    }
}

/// Where each path of a list is valid, none has a problem.
pub proof fn no_problem_where_valid(paths: Seq<Seq<char>>)
    requires
        forall|i: int| 0 <= i < paths.len() ==> path::is_valid(#[trigger] paths[i]),
    ensures
        add::first_problem(paths) is None,
    decreases paths.len(),
{
    if paths.len() > 0 {
        let rest = paths.skip(1);
        assert forall|i: int| 0 <= i < rest.len() implies path::is_valid(#[trigger] rest[i]) by {
            assert(rest[i] == paths[i + 1]);
        }
        no_problem_where_valid(rest);
        assert(path::is_valid(paths[0]));
    }
}

/// An addition puts one version in front of those of its paths and leaves those
/// of every other path. The rows stay in order, their paths stay valid, and a
/// store that holds a blob for each row, and only such blobs, goes on to do so.
pub proof fn add_keeps_the_rest(
    paths: Seq<Seq<char>>,
    source: Source,
    adding: Seq<Turn<Add, AddResult>>,
)
    requires
        world::is_run(|t, r, s| add::add_resumes(t, r, s), adding),
        paths.len() > 0,
        add::first_problem(paths) is None,
        add::add_starts(paths, source, adding[0].step),
        adding.last().step is Done,
        world::in_order(adding[0].world.rows),
        adding.last().step matches Step::Done(Ok(result)) ==> insertion::is_new(
            adding[0].world.rows,
            result.uuid@,
        ),
    ensures
        adding.last().step matches Step::Done(Ok(result)) && {
            let before = adding[0].world;
            let after = adding.last().world;
            &&& forall|path: Seq<char>| #[trigger]
                world::versions_of(after.rows, path) == (if paths.contains(path) {
                    seq![Version { hash: result.hash@, uuid: result.uuid@ }] + world::versions_of(
                        before.rows,
                        path,
                    )
                } else {
                    world::versions_of(before.rows, path)
                })
            &&& world::in_order(after.rows)
            &&& removal_laws::paths_are_valid(before.rows) ==> removal_laws::paths_are_valid(
                after.rows,
            )
            &&& removal_laws::is_consistent(before) ==> removal_laws::is_consistent(after)
        },
{
    let before = adding[0].world;
    let after = adding.last().world;
    store_laws::add_law(paths, source, adding);
    let result = adding.last().step->Done_0->Ok_0;
    let u = result.uuid@;
    let h = result.hash@;
    insertion::with_version_adds(before.rows, paths, u, h);
    assert forall|path: Seq<char>| #[trigger]
        world::versions_of(after.rows, path) == (if paths.contains(path) {
            seq![Version { hash: h, uuid: u }] + world::versions_of(before.rows, path)
        } else {
            world::versions_of(before.rows, path)
        }) by {
        insertion::new_version_is_first(before.rows, paths, u, h, path);
    }
    if removal_laws::paths_are_valid(before.rows) {
        assert forall|i: int| 0 <= i < after.rows.len() implies path::is_valid(
            (#[trigger] after.rows[i]).path,
        ) by {
            let x = after.rows[i];
            assert(after.rows.contains(x));
            insertion::with_version_holds(before.rows, paths, u, h, x);
            if before.rows.contains(x) {
                let j = choose|j: int| 0 <= j < before.rows.len() && before.rows[j] == x;
                assert(path::is_valid(before.rows[j].path));
            } else {
                let j = choose|j: int| 0 <= j < paths.len() && paths[j] == x.path;
                valid_where_no_problem(paths, j);
            }
        }
    }
    if removal_laws::is_consistent(before) {
        assert forall|k: Seq<u8>| #[trigger]
            after.blobs.contains_key(k) <==> rows::names(after.rows, k) by {
            assert(before.blobs.contains_key(k) <==> rows::names(before.rows, k));
            if rows::names(before.rows, k) {
                let i = choose|i: int|
                    0 <= i < before.rows.len() && (#[trigger] before.rows[i]).hash == k;
                assert(before.rows.contains(before.rows[i]));
                insertion::with_version_keeps(before.rows, paths, u, h, before.rows[i]);
                let j = choose|j: int|
                    0 <= j < after.rows.len() && after.rows[j] == before.rows[i];
                assert(after.rows[j].hash == k);
            }
            if rows::names(after.rows, k) {
                let i = choose|i: int|
                    0 <= i < after.rows.len() && (#[trigger] after.rows[i]).hash == k;
                let x = after.rows[i];
                assert(after.rows.contains(x));
                insertion::with_version_holds(before.rows, paths, u, h, x);
                if before.rows.contains(x) {
                    let j = choose|j: int| 0 <= j < before.rows.len() && before.rows[j] == x;
                    assert(before.rows[j].hash == k);
                }
            }
            if k == h {
                let list = world::rows_at(after.rows, paths[0]);
                assert(paths.contains(paths[0]));
                assert(list == insertion::rows_at_after(before.rows, paths, u, h, paths[0]));
                let x = list[list.len() - 1];
                let at = |r: Row| r.path == paths[0];
                assert(after.rows.filter(at).contains(x));
                rows::filter_contains(after.rows, at, x);
                let j = choose|j: int| 0 <= j < after.rows.len() && after.rows[j] == x;
                assert(after.rows[j].hash == k);
            }
        }
    }
}

/// The same content is stored once: adding it again gives the same hash, finds
/// the blob and leaves the blobs as they are.
pub proof fn add_again(
    paths: Seq<Seq<char>>,
    source: Source,
    first: Seq<Turn<Add, AddResult>>,
    more_paths: Seq<Seq<char>>,
    more: Source,
    second: Seq<Turn<Add, AddResult>>,
)
    requires
        world::is_run(|t, r, s| add::add_resumes(t, r, s), first),
        paths.len() > 0,
        add::first_problem(paths) is None,
        add::add_starts(paths, source, first[0].step),
        first.last().step is Done,
        world::is_run(|t, r, s| add::add_resumes(t, r, s), second),
        more_paths.len() > 0,
        add::first_problem(more_paths) is None,
        add::add_starts(more_paths, more, second[0].step),
        second.last().step is Done,
        second[0].world.blobs == first.last().world.blobs,
        store_laws::content_of(more, second[0].world.input) == store_laws::content_of(
            source,
            first[0].world.input,
        ),
    ensures
        first.last().step matches Step::Done(Ok(a)) && second.last().step matches Step::Done(Ok(b))
            && {
            &&& a.hash@ == b.hash@
            &&& b.blob_already_existed
            &&& second.last().world.blobs == first.last().world.blobs
        },
{
    store_laws::add_law(paths, source, first);
    store_laws::add_law(more_paths, more, second);
}

// ---------------------------------------------------------------------------
// Removing
// ---------------------------------------------------------------------------

/// A path that was removed has no versions.
proof fn off_has_none(all: Seq<Row>, path: Seq<char>)
    ensures
        world::versions_of(world::rows_off(all, path), path).len() == 0,
{
    let off = |r: Row| r.path != path;
    let at = |r: Row| r.path == path;
    let left = all.filter(off).filter(at);
    if left.len() > 0 {
        let x = left[0];
        assert(left.contains(x));
        rows::filter_contains(all.filter(off), at, x);
        rows::filter_contains(all, off, x);
    }
}

/// Removing a path takes all its versions and leaves those of every other path.
pub proof fn versions_after_removal(all: Seq<Row>, path: Seq<char>, other: Seq<char>)
    ensures
        world::versions_of(world::rows_off(all, path), other) == (if other == path {
            Seq::<Version>::empty()
        } else {
            world::versions_of(all, other)
        }),
{
    if other == path {
        off_has_none(all, path);
    } else {
        let off = |r: Row| r.path != path;
        let at = |r: Row| r.path == other;
        rows::filter_twice(all, off, at);
        rows::filter_agrees(all, |r: Row| off(r) && at(r), at);
    }
}

/// One version with the hash is gone, the oldest; where no version has the hash,
/// none is.
pub open spec fn is_without(before: Seq<Version>, hash: Seq<u8>, after: Seq<Version>) -> bool {
    if exists|i: int| 0 <= i < before.len() && (#[trigger] before[i]).hash == hash {
        exists|j: int|
            {
                &&& 0 <= j < before.len()
                &&& (#[trigger] before[j]).hash == hash
                &&& forall|i: int| j < i < before.len() ==> (#[trigger] before[i]).hash != hash
                &&& after == before.remove(j)
            }
    } else {
        after == before
    }
}

/// Removing one version of a path takes the oldest version with that hash, and
/// leaves the versions of every other path.
pub proof fn versions_after_one_removal(
    all: Seq<Row>,
    path: Seq<char>,
    hash: Seq<u8>,
    other: Seq<char>,
)
    ensures
        is_without(
            world::versions_of(all, path),
            hash,
            world::versions_of(world::without_oldest(all, path, hash), path),
        ),
        other != path ==> world::versions_of(world::without_oldest(all, path, hash), other)
            == world::versions_of(all, other),
{
    let at = |r: Row| r.path == path;
    let off = |r: Row| r.path == other;
    let before = world::versions_of(all, path);
    let found = all.filter(at);
    if world::has_version(all, path, hash) {
        let k = choose|k: int| world::is_first(all, path, hash, k);
        let a = all.take(k);
        let x = seq![all[k]];
        let c = all.skip(k + 1);
        assert(all =~= a + x + c);
        assert(all.remove(k) =~= a + c);
        Seq::filter_distributes_over_add(a + x, c, at);
        Seq::filter_distributes_over_add(a, x, at);
        Seq::filter_distributes_over_add(a, c, at);
        Seq::filter_distributes_over_add(a + x, c, off);
        Seq::filter_distributes_over_add(a, x, off);
        Seq::filter_distributes_over_add(a, c, off);
        rows::filter_one(all[k], at);
        rows::filter_one(all[k], off);
        let fa = a.filter(at);
        let fc = c.filter(at);
        assert(found == fa + x + fc);
        let j = fc.len() as int;
        let after = world::versions_of(all.remove(k), path);
        assert(found.reverse()[j] == all[k]);
        assert(before[j].hash == hash);
        assert forall|i: int| j < i < before.len() implies (#[trigger] before[i]).hash != hash by {
            let m = found.len() - 1 - i;
            assert(found[m] == fa[m]);
            assert(fa.contains(fa[m]));
            rows::filter_contains(a, at, fa[m]);
            let n = choose|n: int| 0 <= n < a.len() && a[n] == fa[m];
            assert(all[n] == fa[m]);
            assert(before[i].hash == found[m].hash);
        }
        assert(after =~= before.remove(j));
        if other != path {
            assert(a.filter(off) + Seq::<Row>::empty() + c.filter(off) =~= a.filter(off)
                + c.filter(off));
        }
    } else {
        assert forall|i: int| 0 <= i < before.len() implies (#[trigger] before[i]).hash != hash by {
            let m = found.len() - 1 - i;
            assert(found.contains(found[m]));
            rows::filter_contains(all, at, found[m]);
            let n = choose|n: int| 0 <= n < all.len() && all[n] == found[m];
            assert(before[i].hash == found[m].hash);
            if found[m].hash == hash {
                rows::first_exists(all, path, hash, n);
            }
        }
    }
}

/// A get of a path that was removed gives nothing.
pub proof fn get_after_remove(
    path: Seq<char>,
    removing: Seq<Turn<RemovePath, ()>>,
    getting: Seq<Turn<GetBytes, Option<Vec<u8>>>>,
)
    requires
        world::is_run(|t, r, s| remove::removal_resumes(t, r, s), removing),
        path::is_valid(path),
        remove::removal_starts(path, None, removing[0].step),
        removing.last().step is Done,
        removing[0].world.rows.len() <= u32::MAX,
        world::is_run(|t, r, s| get::bytes_resume(t, r, s), getting),
        get::bytes_start(path, getting[0].step),
        getting[0].world == removing.last().world,
    ensures
        getting.last().step matches Step::Done(r) ==> r matches Ok(None),
{
    removal_laws::remove_path_law(path, None, removing);
    off_has_none(removing[0].world.rows, path);
    store_laws::get_bytes_law(path, getting);
}

/// Rows that pass a test stay in order.
pub proof fn filter_in_order(all: Seq<Row>, p: spec_fn(Row) -> bool)
    requires
        world::in_order(all),
    ensures
        world::in_order(all.filter(p)),
    decreases all.len(),
{
    reveal(Seq::filter);
    if all.len() > 0 {
        let head = all.drop_last();
        assert forall|i: int, j: int| 0 <= i < j < head.len() implies #[trigger] world::row_before(
            head[i],
            head[j],
        ) by {
            assert(world::row_before(all[i], all[j]));
        }
        filter_in_order(head, p);
        let out = all.filter(p);
        let inner = head.filter(p);
        assert forall|i: int, j: int| 0 <= i < j < out.len() implies #[trigger] world::row_before(
            out[i],
            out[j],
        ) by {
            if j < inner.len() {
                assert(world::row_before(inner[i], inner[j]));
            } else {
                assert(inner.contains(inner[i]));
                rows::filter_contains(head, p, inner[i]);
                let k = choose|k: int| 0 <= k < head.len() && head[k] == inner[i];
                assert(world::row_before(all[k], all[all.len() - 1]));
            }
        }
    }
}

/// After a trim the versions of the path are the newest ones of before, as many
/// as were to be kept, and those of every other path are all there.
pub proof fn versions_after_trim(all: Seq<Row>, path: Seq<char>, keep: int, other: Seq<char>)
    requires
        world::in_order(all),
        0 <= keep,
    ensures
        world::versions_of(rows::trimmed(all, path, keep), path) == (if world::versions_of(
            all,
            path,
        ).len() <= keep {
            world::versions_of(all, path)
        } else {
            world::versions_of(all, path).take(keep)
        }),
        other != path ==> world::versions_of(rows::trimmed(all, path, keep), other)
            == world::versions_of(all, other),
{
    let at = |r: Row| r.path == path;
    let stay = |r: Row| r.path != path || rows::newest(all, path, keep).contains(r);
    let v = all.filter(at);
    let newest = rows::newest(all, path, keep);
    rows::filter_twice(all, stay, at);
    rows::filter_twice(all, at, stay);
    rows::filter_agrees(all, |r: Row| stay(r) && at(r), |r: Row| at(r) && stay(r));
    assert(v.filter(stay) == newest) by {
        if v.len() <= keep {
            assert forall|i: int| 0 <= i < v.len() implies stay(#[trigger] v[i]) by {
                assert(newest.contains(v[i]));
            }
            rows::filter_keeps_all(v, stay);
        } else {
            let k = v.len() - keep;
            let a = v.take(k);
            let b = v.skip(k);
            assert(v =~= a + b);
            Seq::filter_distributes_over_add(a, b, stay);
            filter_in_order(all, at);
            let none = |r: Row| false;
            assert forall|i: int| 0 <= i < a.len() implies stay(#[trigger] a[i]) == none(a[i]) by {
                assert(v.contains(v[i]));
                rows::filter_contains(all, at, v[i]);
                if b.contains(a[i]) {
                    let j = choose|j: int| 0 <= j < b.len() && b[j] == a[i];
                    assert(world::row_before(v[i], v[k + j]));
                    rows::row_irreflexive(a[i]);
                }
            }
            rows::filter_agrees(a, stay, none);
            assert(a.filter(none).len() == 0) by {
                if a.filter(none).len() > 0 {
                    let x = a.filter(none)[0];
                    assert(a.filter(none).contains(x));
                    rows::filter_contains(a, none, x);
                }
            }
            assert forall|i: int| 0 <= i < b.len() implies stay(#[trigger] b[i]) by {
                assert(newest.contains(b[i]));
            }
            rows::filter_keeps_all(b, stay);
            assert(a.filter(none) + b =~= b);
        }
    }
    let before = world::versions_of(all, path);
    let after = world::versions_of(rows::trimmed(all, path, keep), path);
    if v.len() > keep {
        assert(after =~= before.take(keep)) by {
            assert forall|i: int| 0 <= i < keep implies after[i] == before[i] by {
                assert(newest.reverse()[i] == newest[newest.len() - 1 - i]);
                assert(v.reverse()[i] == v[v.len() - 1 - i]);
            }
        }
    }
    if other != path {
        let there = |r: Row| r.path == other;
        rows::filter_twice(all, stay, there);
        rows::filter_agrees(all, |r: Row| stay(r) && there(r), there);
    }
}

/// A folder that was removed lists nothing.
pub proof fn folder_is_empty_after_removal(
    folder: Seq<char>,
    removing: Seq<Turn<RemoveFolder, ()>>,
    listing: Seq<Turn<ListFolder, Vec<CommonPrefixEntry>>>,
)
    requires
        world::is_run(|t, r, s| remove::folder_removal_resumes(t, r, s), removing),
        path::is_valid(folder),
        remove::folder_removal_starts(folder, removing[0].step),
        removing.last().step is Done,
        removal_laws::paths_are_valid(removing[0].world.rows),
        removing[0].world.rows.len() <= u32::MAX,
        world::is_run(|t, r, s| list::folder_listing_resumes(t, r, s), listing),
        list::folder_listing_starts(folder, listing[0].step),
        listing[0].world == removing.last().world,
    ensures
        listing.last().step matches Step::Done(r) ==> r matches Ok(out) && out@.len() == 0,
{
    removal_laws::remove_folder_law(folder, removing);
    store_laws::list_folder_law(folder, listing);
    let all = removing[0].world.rows;
    let outside = |r: Row| !text::has_prefix(r.path, folder.push('/'));
    let below = |r: Row| text::has_prefix(r.path, folder.push('/'));
    let left = all.filter(outside).filter(below);
    assert(left.len() == 0) by {
        if left.len() > 0 {
            let x = left[0];
            assert(left.contains(x));
            rows::filter_contains(all.filter(outside), below, x);
            rows::filter_contains(all, outside, x);
        }
    }
    assert(left == store_laws::rows_below(
        listing[0].world.rows,
        list::folder_prefix(folder),
    ));
    if listing.last().step matches Step::Done(Ok(out)) {
        let out = listing.last().step->Done_0->Ok_0;
        let views = list::listed_views(out@);
        let items = list::folder_items(folder, left);
        let groups = choose|groups: Seq<Item>| #[trigger]
            list::is_grouped(items, groups) && views == groups.map_values(
                |one: Item| list::listed_as(one),
            );
        assert(groups.len() == 0) by {
            if groups.len() > 0 {
                assert(list::sums_up(items, groups[0]));
            }
        }
        assert(views.len() == out@.len());
    }
}

// ---------------------------------------------------------------------------
// Listing
// ---------------------------------------------------------------------------

/// The last row with a path, where rows are in order, is its latest version.
proof fn last_is_latest(all: Seq<Row>, path: Seq<char>, k: int)
    requires
        0 <= k < all.len(),
        all[k].path == path,
        forall|j: int| k < j < all.len() ==> (#[trigger] all[j]).path != path,
    ensures
        world::versions_of(all, path).len() > 0,
        world::versions_of(all, path)[0] == (Version { hash: all[k].hash, uuid: all[k].uuid }),
{
    let at = |r: Row| r.path == path;
    let a = all.take(k);
    let b = all.skip(k + 1);
    assert(all =~= a + seq![all[k]] + b);
    Seq::filter_distributes_over_add(a + seq![all[k]], b, at);
    Seq::filter_distributes_over_add(a, seq![all[k]], at);
    rows::filter_one(all[k], at);
    assert(b.filter(at).len() == 0) by {
        if b.filter(at).len() > 0 {
            let x = b.filter(at)[0];
            assert(b.filter(at).contains(x));
            rows::filter_contains(b, at, x);
            let j = choose|j: int| 0 <= j < b.len() && b[j] == x;
            assert(all[k + 1 + j].path != path);
        }
    }
    let v = all.filter(at);
    assert(v =~= a.filter(at).push(all[k]));
    assert(v.reverse()[0] == v[v.len() - 1]);
}

/// The newest of the items that have a name is the last of the rows, where the
/// items with the name are the rows of one path.
proof fn newest_is_latest(
    all: Seq<Row>,
    items: Seq<Item>,
    name: Seq<char>,
    path: Seq<char>,
    k: int,
)
    requires
        world::in_order(all),
        items.len() == all.len(),
        forall|i: int|
            0 <= i < items.len() ==> (#[trigger] items[i]).uuid == all[i].uuid && items[i].hash
                == all[i].hash && (items[i].name == name <==> all[i].path == path),
        list::is_newest(items, name, k),
    ensures
        world::versions_of(all, path).len() > 0,
        world::versions_of(all, path)[0] == (Version { hash: items[k].hash, uuid: items[k].uuid }),
{
    assert forall|j: int| k < j < all.len() implies (#[trigger] all[j]).path != path by {
        if all[j].path == path {
            assert(items[j].name == name);
            assert(items[k].name == name);
            assert(world::row_before(all[k], all[j]));
            text::before_irreflexive(text::codes(path));
        }
    }
    assert(items[k].name == name);
    last_is_latest(all, path, k);
}

/// The list of all paths holds every path that has a version, once and in
/// order, each with its latest version.
pub proof fn listed_paths_are_latest(all: Seq<Row>, out: Seq<Row>)
    requires
        world::in_order(all),
        list::lists_paths(all, out),
    ensures
        forall|i: int, j: int|
            0 <= i < j < out.len() ==> text::text_before(
                (#[trigger] out[i]).path,
                (#[trigger] out[j]).path,
            ),
        forall|i: int|
            0 <= i < out.len() ==> {
                let latest = #[trigger] world::versions_of(all, out[i].path);
                latest.len() > 0 && latest[0] == Version { hash: out[i].hash, uuid: out[i].uuid }
            },
        forall|path: Seq<char>|
            #![trigger world::versions_of(all, path)]
            world::versions_of(all, path).len() > 0 ==> exists|i: int|
                0 <= i < out.len() && (#[trigger] out[i]).path == path,
{
    let items = list::path_items(all);
    let groups = choose|groups: Seq<Item>| #[trigger]
        list::is_grouped(items, groups) && out == groups.map_values(
            |one: Item| Row { path: one.name, uuid: one.uuid, hash: one.hash },
        );
    assert forall|i: int, j: int| 0 <= i < j < out.len() implies text::text_before(
        (#[trigger] out[i]).path,
        (#[trigger] out[j]).path,
    ) by {
        assert(text::text_before(groups[i].name, groups[j].name));
    }
    assert forall|i: int| 0 <= i < out.len() implies {
        let latest = #[trigger] world::versions_of(all, out[i].path);
        latest.len() > 0 && latest[0] == Version { hash: out[i].hash, uuid: out[i].uuid }
    } by {
        let g = groups[i];
        assert(list::sums_up(items, g));
        let k = choose|k: int| list::is_like_newest(items, g, k);
        newest_is_latest(all, items, g.name, g.name, k);
    }
    assert forall|path: Seq<char>| world::versions_of(all, path).len() > 0 implies exists|i: int|
        0 <= i < out.len() && (#[trigger] out[i]).path == path by {
        let at = |r: Row| r.path == path;
        let x = all.filter(at)[0];
        assert(all.filter(at).contains(x));
        rows::filter_contains(all, at, x);
        let j = choose|j: int| 0 <= j < all.len() && all[j] == x;
        assert(items[j].name == path);
        assert(list::is_named(groups, items[j].name));
        let i = choose|i: int| 0 <= i < groups.len() && (#[trigger] groups[i]).name == path;
        assert(out[i].path == path);
    }
}

/// No two slashes follow each other.
pub open spec fn is_clean(path: Seq<char>) -> bool {
    forall|i: int| 0 <= i < path.len() - 1 && #[trigger] path[i] == '/' ==> path[i + 1] != '/'
}

/// Every row has a valid path without double slashes.
pub open spec fn paths_are_clean(all: Seq<Row>) -> bool {
    forall|i: int|
        0 <= i < all.len() ==> path::is_valid((#[trigger] all[i]).path) && is_clean(all[i].path)
}

/// Some row lies below the path.
pub open spec fn has_below(all: Seq<Row>, path: Seq<char>) -> bool {
    exists|i: int| 0 <= i < all.len() && text::has_prefix((#[trigger] all[i]).path, path.push('/'))
}

/// A part is followed by a slash, or by nothing.
proof fn first_part_is_prefix(s: Seq<char>)
    ensures
        text::has_prefix(s, list::first_part(s)),
        list::first_part(s).len() < s.len() ==> s[list::first_part(s).len() as int] == '/',
        !list::first_part(s).contains('/'),
    decreases s.len(),
{
    let part = list::first_part(s);
    if s.len() == 0 || s[0] == '/' {
        assert(s.take(0) =~= part);
    } else {
        let tail = list::first_part(s.skip(1));
        first_part_is_prefix(s.skip(1));
        assert(s.take(part.len() as int) =~= part) by {
            assert(s.skip(1).take(tail.len() as int) == tail);
            assert forall|i: int| 0 <= i < part.len() implies s[i] == part[i] by {
                if i > 0 {
                    assert(s.skip(1).take(tail.len() as int)[i - 1] == tail[i - 1]);
                }
            }
        }
        if part.contains('/') {
            let i = choose|i: int| 0 <= i < part.len() && part[i] == '/';
            assert(tail[i - 1] == '/');
        }
    }
}

/// How a clean path below a folder splits: the folder's prefix, the part below
/// it, and what follows.
proof fn clean_path_splits(folder: Seq<char>, row: Row)
    requires
        folder.len() > 0 ==> path::is_valid(folder),
        path::is_valid(row.path),
        is_clean(row.path),
        text::has_prefix(row.path, list::folder_prefix(folder)),
    ensures
        ({
            let item = list::folder_item(folder, row);
            &&& list::folder_prefix(folder) + list::rest_below(folder, row.path) == row.path
            &&& item.name == list::folder_prefix(folder) + list::first_part(
                list::rest_below(folder, row.path),
            )
            &&& !item.nested ==> item.name == row.path
            &&& item.nested ==> text::has_prefix(row.path, item.name.push('/'))
        }),
{
    let p = row.path;
    let prefix = list::folder_prefix(folder);
    let n = folder.len() as int;
    let rest = list::rest_below(folder, p);
    assert(p.take(prefix.len() as int) == prefix);
    assert forall|i: int| 0 <= i < prefix.len() implies p[i] == prefix[i] by {
        assert(p.take(prefix.len() as int)[i] == prefix[i]);
    }
    let s = p.skip(n);
    if n == 0 {
        assert(s =~= p);
        assert(p[0] != '/');
        assert(rest == p);
        assert(prefix + rest =~= p);
    } else {
        assert(s[0] == '/');
        assert(p[n] == '/');
        assert(p.last() != '/');
        assert(n < p.len() - 1);
        assert(p[n + 1] != '/');
        assert(s.skip(1) =~= p.skip(n + 1));
        assert(list::without_slashes(s.skip(1)) == s.skip(1));
        assert(rest == p.skip(n + 1));
        assert(prefix + rest =~= p);
    }
    let part = list::first_part(rest);
    let name = list::child_of(folder, part);
    first_part_is_prefix(rest);
    assert(name =~= prefix + part);
    if part != rest {
        assert(part.len() < rest.len()) by {
            if part.len() == rest.len() {
                assert(rest.take(part.len() as int) =~= rest);
            }
        }
        let longer = name.push('/');
        assert(p.take(longer.len() as int) =~= longer) by {
            assert forall|i: int| 0 <= i < longer.len() implies p[i] == longer[i] by {
                if i >= prefix.len() && i < name.len() {
                    assert(rest.take(part.len() as int)[i - prefix.len()] == part[i - prefix.len()]);
                    assert(p[i] == (prefix + rest)[i]);
                } else if i == name.len() {
                    assert(p[i] == (prefix + rest)[i]);
                }
            }
        }
    }
}

/// A row below a child of a folder is an item of that child.
proof fn below_child(folder: Seq<char>, row: Row, part: Seq<char>)
    requires
        folder.len() > 0 ==> path::is_valid(folder),
        path::is_valid(row.path),
        is_clean(row.path),
        part.len() > 0,
        !part.contains('/'),
        text::has_prefix(row.path, (list::folder_prefix(folder) + part).push('/')) || row.path
            == list::folder_prefix(folder) + part,
    ensures
        text::has_prefix(row.path, list::folder_prefix(folder)),
        list::folder_item(folder, row).name == list::folder_prefix(folder) + part,
        list::folder_item(folder, row).nested <==> row.path != list::folder_prefix(folder) + part,
{
    let p = row.path;
    let prefix = list::folder_prefix(folder);
    let name = prefix + part;
    let longer = name.push('/');
    assert forall|i: int| 0 <= i < name.len() implies p[i] == name[i] by {
        if p != name {
            assert(p.take(longer.len() as int)[i] == longer[i]);
        }
    }
    assert(p.take(prefix.len() as int) =~= prefix);
    clean_path_splits(folder, row);
    let rest = list::rest_below(folder, p);
    assert(prefix + rest == p);
    assert forall|i: int| 0 <= i < part.len() implies rest[i] == part[i] by {
        assert(p[prefix.len() + i] == name[prefix.len() + i]);
        assert(p[prefix.len() + i] == (prefix + rest)[prefix.len() + i]);
    }
    assert forall|i: int| 0 <= i < part.len() implies rest[i] != '/' by {
        assert(part.contains(part[i]));
    }
    if p == name {
        assert(rest =~= part);
        list::first_part_from(rest, rest.len() as int);
        assert(rest.skip(rest.len() as int) =~= Seq::<char>::empty());
        assert(list::first_part(rest) =~= rest);
    } else {
        let k = part.len() as int;
        assert(p.take(longer.len() as int)[name.len() as int] == '/');
        assert(p[name.len() as int] == (prefix + rest)[name.len() as int]);
        assert(rest[k] == '/');
        list::first_part_from(rest, k);
        assert(rest.skip(k)[0] == '/');
        assert(list::first_part(rest) =~= rest.take(k));
        assert(rest.take(k) =~= part);
    }
}

/// A folder lists a path as a common prefix exactly if rows lie below it, and
/// else as a path with its latest version. Every row below the folder is at or
/// below a path that is listed. This holds where no path has a double slash.
pub proof fn listed_folder_is_latest(all: Seq<Row>, folder: Seq<char>, out: Seq<Listed>)
    requires
        world::in_order(all),
        paths_are_clean(all),
        folder.len() > 0 ==> path::is_valid(folder),
        list::lists_folder(
            folder,
            store_laws::rows_below(all, list::folder_prefix(folder)),
            out,
        ),
    ensures
        forall|i: int|
            0 <= i < out.len() ==> match #[trigger] out[i] {
                Listed::CommonPrefix(path) => has_below(all, path),
                Listed::Path(row) => {
                    let latest = world::versions_of(all, row.path);
                    &&& !has_below(all, row.path)
                    &&& latest.len() > 0
                    &&& latest[0] == Version { hash: row.hash, uuid: row.uuid }
                },
            },
        forall|k: int|
            0 <= k < all.len() && text::has_prefix(
                (#[trigger] all[k]).path,
                list::folder_prefix(folder),
            ) ==> exists|i: int|
                0 <= i < out.len() && (#[trigger] out[i]).name() == list::folder_item(
                    folder,
                    all[k],
                ).name,
{
    let prefix = list::folder_prefix(folder);
    let below = |r: Row| text::has_prefix(r.path, prefix);
    let found = all.filter(below);
    assert(found == store_laws::rows_below(all, prefix));
    let items = list::folder_items(folder, found);
    let groups = choose|groups: Seq<Item>| #[trigger]
        list::is_grouped(items, groups) && out == groups.map_values(
            |one: Item| list::listed_as(one),
        );
    assert forall|k: int| 0 <= k < all.len() && below(#[trigger] all[k]) implies exists|j: int|
        0 <= j < found.len() && #[trigger] found[j] == all[k] by {
        all.lemma_filter_contains(below, k);
        let j = choose|j: int| 0 <= j < found.len() && found[j] == all[k];
        assert(found[j] == all[k]);
    }
    assert forall|j: int| 0 <= j < found.len() implies {
        let r = #[trigger] found[j];
        all.contains(r) && below(r) && path::is_valid(r.path) && is_clean(r.path)
    } by {
        let r = found[j];
        assert(found.contains(r));
        rows::filter_contains(all, below, r);
        let k = choose|k: int| 0 <= k < all.len() && all[k] == r;
        assert(path::is_valid(all[k].path));
    }
    assert forall|i: int| 0 <= i < out.len() implies match #[trigger] out[i] {
        Listed::CommonPrefix(path) => has_below(all, path),
        Listed::Path(row) => {
            let latest = world::versions_of(all, row.path);
            &&& !has_below(all, row.path)
            &&& latest.len() > 0
            &&& latest[0] == Version { hash: row.hash, uuid: row.uuid }
        },
    } by {
        let g = groups[i];
        assert(list::sums_up(items, g));
        if g.nested {
            assert(list::is_nested(items, g.name));
            assert(list::goes_below(items, g.name)) by {
                if !list::goes_below(items, g.name) {
                    let a = choose|a: int|
                        0 <= a < items.len() && (#[trigger] items[a]).name == g.name
                            && list::has_other(items, g.name, items[a].path);
                    let b = choose|b: int|
                        0 <= b < items.len() && (#[trigger] items[b]).name == g.name
                            && items[b].path != items[a].path;
                    clean_path_splits(folder, found[a]);
                    clean_path_splits(folder, found[b]);
                }
            }
            let j = choose|j: int|
                0 <= j < items.len() && (#[trigger] items[j]).name == g.name && items[j].nested;
            clean_path_splits(folder, found[j]);
            let k = choose|k: int| 0 <= k < all.len() && all[k] == found[j];
            assert(text::has_prefix(all[k].path, g.name.push('/')));
        } else {
            let m = choose|m: int| list::is_like_newest(items, g, m);
            clean_path_splits(folder, found[m]);
            let part = list::first_part(list::rest_below(folder, found[m].path));
            first_part_is_prefix(list::rest_below(folder, found[m].path));
            assert(!items[m].nested) by {
                assert(items[m].name == g.name);
            }
            assert(g.name == found[m].path);
            assert(part.len() > 0) by {
                if part.len() == 0 {
                    assert(prefix + part =~= prefix);
                    assert(found[m].path == prefix);
                }
            }
            assert(!has_below(all, g.name)) by {
                if has_below(all, g.name) {
                    let k = choose|k: int|
                        0 <= k < all.len() && text::has_prefix(
                            (#[trigger] all[k]).path,
                            g.name.push('/'),
                        );
                    below_child(folder, all[k], part);
                    assert(all[k].path != g.name);
                    assert(below(all[k]));
                    let j = choose|j: int| 0 <= j < found.len() && #[trigger] found[j] == all[k];
                    assert(items[j].name == g.name && items[j].nested);
                }
            }
            assert forall|j: int| 0 <= j < items.len() implies (#[trigger] items[j]).uuid
                == found[j].uuid && items[j].hash == found[j].hash && (items[j].name == g.name
                <==> found[j].path == g.name) by {
                clean_path_splits(folder, found[j]);
                if items[j].name == g.name {
                    assert(!items[j].nested);
                }
                if found[j].path == g.name {
                    below_child(folder, found[j], part);
                }
            }
            filter_in_order(all, below);
            newest_is_latest(found, items, g.name, g.name, m);
            let at = |r: Row| r.path == g.name;
            rows::filter_twice(all, below, at);
            let both = |r: Row| below(r) && at(r);
            assert(below(found[m]));
            rows::filter_agrees(all, both, at);
            assert(world::rows_at(found, g.name) == world::rows_at(all, g.name));
        }
    }
    assert forall|k: int| 0 <= k < all.len() && text::has_prefix((#[trigger] all[k]).path, prefix) implies exists|
        i: int,
    |
        0 <= i < out.len() && (#[trigger] out[i]).name() == list::folder_item(
            folder,
            all[k],
        ).name by {
        assert(below(all[k]));
        let j = choose|j: int| 0 <= j < found.len() && #[trigger] found[j] == all[k];
        assert(items[j] == list::folder_item(folder, all[k]));
        assert(list::is_named(groups, items[j].name));
        let i = choose|i: int| 0 <= i < groups.len() && (#[trigger] groups[i]).name == items[j].name;
        assert(out[i].name() == groups[i].name);
    }
}

/// A folder lists nothing exactly if no row lies below it.
pub proof fn listing_of_nothing(folder: Seq<char>, found: Seq<Row>, out: Seq<Listed>)
    requires
        list::lists_folder(folder, found, out),
    ensures
        out.len() == 0 <==> found.len() == 0,
{
    let items = list::folder_items(folder, found);
    let groups = choose|groups: Seq<Item>| #[trigger]
        list::is_grouped(items, groups) && out == groups.map_values(
            |one: Item| list::listed_as(one),
        );
    if groups.len() > 0 {
        assert(list::sums_up(items, groups[0]));
    }
    if items.len() > 0 {
        assert(list::is_named(groups, items[0].name));
    }
}

/// What is left of a text without the slashes in front begins with none.
proof fn slashes_are_gone(s: Seq<char>)
    ensures
        list::without_slashes(s).len() > 0 ==> list::without_slashes(s)[0] != '/',
        list::without_slashes(s).len() == 0 && s.len() > 0 ==> s.last() == '/',
        list::without_slashes(s).len() <= s.len(),
        s.skip(s.len() - list::without_slashes(s).len()) == list::without_slashes(s),
        forall|i: int|
            0 <= i < s.len() - list::without_slashes(s).len() ==> #[trigger] s[i] == '/',
    decreases s.len(),
{
    if s.len() > 0 && s[0] == '/' {
        let t = s.skip(1);
        slashes_are_gone(t);
        let n = list::without_slashes(s).len();
        assert(s.skip(s.len() - n) =~= t.skip(t.len() - n));
        assert forall|i: int| 0 <= i < s.len() - n implies #[trigger] s[i] == '/' by {
            if i > 0 {
                assert(t[i - 1] == s[i]);
            }
        }
    } else {
        assert(s.skip(0) =~= s);
    }
}

/// The name is the folder's, a slash and this part; in the root it is this part.
pub open spec fn is_part_of(part: Seq<char>, name: Seq<char>, folder: Seq<char>) -> bool {
    &&& part.len() > 0
    &&& !part.contains('/')
    &&& name == (if folder.len() == 0 {
        part
    } else {
        folder + seq!['/'] + part
    })
}

/// The name lies directly in the folder.
pub open spec fn lies_in(name: Seq<char>, folder: Seq<char>) -> bool {
    exists|part: Seq<char>| is_part_of(part, name, folder)
}

/// Everything that a folder lists lies directly in it: it is the folder's name, a
/// slash and a name; in the root it is a name.
pub proof fn listed_names_lie_in_folder(all: Seq<Row>, folder: Seq<char>, out: Seq<Listed>)
    requires
        removal_laws::paths_are_valid(all),
        folder.len() > 0 ==> path::is_valid(folder),
        list::lists_folder(
            folder,
            store_laws::rows_below(all, list::folder_prefix(folder)),
            out,
        ),
    ensures
        forall|i: int| 0 <= i < out.len() ==> lies_in((#[trigger] out[i]).name(), folder),
{
    let prefix = list::folder_prefix(folder);
    let below = |r: Row| text::has_prefix(r.path, prefix);
    let found = all.filter(below);
    let items = list::folder_items(folder, found);
    let groups = choose|groups: Seq<Item>| #[trigger]
        list::is_grouped(items, groups) && out == groups.map_values(
            |one: Item| list::listed_as(one),
        );
    assert forall|i: int| 0 <= i < out.len() implies lies_in((#[trigger] out[i]).name(), folder) by {
        let g = groups[i];
        assert(list::sums_up(items, g));
        let m = choose|m: int| list::is_like_newest(items, g, m);
        let r = found[m];
        assert(found.contains(r));
        rows::filter_contains(all, below, r);
        let k = choose|k: int| 0 <= k < all.len() && all[k] == r;
        assert(path::is_valid(all[k].path));
        assert(items[m] == list::folder_item(folder, r));
        let rest = list::rest_below(folder, r.path);
        let part = list::first_part(rest);
        first_part_is_prefix(rest);
        slashes_are_gone(r.path.skip(folder.len() as int));
        assert(part.len() > 0) by {
            if rest.len() == 0 {
                assert(r.path.skip(folder.len() as int).last() == r.path.last());
            }
        }
        assert(out[i].name() == g.name);
        assert(folder.push('/') + part =~= folder + seq!['/'] + part);
        assert(folder.len() == 0 ==> folder + part =~= part);
        assert(is_part_of(part, out[i].name(), folder));
    }
}

/// What a folder lists comes in order, each name once.
pub proof fn listing_is_ascending(folder: Seq<char>, found: Seq<Row>, out: Seq<Listed>)
    requires
        list::lists_folder(folder, found, out),
    ensures
        list::is_ascending(out),
{
    let items = list::folder_items(folder, found);
    let groups = choose|groups: Seq<Item>| #[trigger]
        list::is_grouped(items, groups) && out == groups.map_values(
            |one: Item| list::listed_as(one),
        );
    assert forall|i: int, j: int| 0 <= i < j < out.len() implies text::text_before(
        (#[trigger] out[i]).name(),
        (#[trigger] out[j]).name(),
    ) by {
        assert(out[i].name() == groups[i].name);
        assert(out[j].name() == groups[j].name);
        assert(text::text_before(groups[i].name, groups[j].name));
    }
}

/// What a folder lists as a path stands for one path of the rows, and has the
/// latest version of that path. Slashes in a row count as one.
pub proof fn listed_path_is_one(all: Seq<Row>, folder: Seq<char>, out: Seq<Listed>, i: int)
    requires
        world::in_order(all),
        list::lists_folder(
            folder,
            store_laws::rows_below(all, list::folder_prefix(folder)),
            out,
        ),
        0 <= i < out.len(),
        out[i] is Path,
    ensures
        ({
            let row = out[i]->Path_0;
            let prefix = list::folder_prefix(folder);
            exists|path: Seq<char>|
                {
                    let latest = #[trigger] world::versions_of(all, path);
                    &&& latest.len() > 0
                    &&& latest[0] == Version { hash: row.hash, uuid: row.uuid }
                    &&& forall|k: int|
                        0 <= k < all.len() && text::has_prefix((#[trigger] all[k]).path, prefix)
                            ==> (list::folder_item(folder, all[k]).name == row.path <==> all[k].path
                            == path)
                }
        }),
{
    let row = out[i]->Path_0;
    let prefix = list::folder_prefix(folder);
    let below = |r: Row| text::has_prefix(r.path, prefix);
    let found = all.filter(below);
    assert(found == store_laws::rows_below(all, prefix));
    let items = list::folder_items(folder, found);
    let groups = choose|groups: Seq<Item>| #[trigger]
        list::is_grouped(items, groups) && out == groups.map_values(
            |one: Item| list::listed_as(one),
        );
    let g = groups[i];
    assert(list::sums_up(items, g));
    let m = choose|m: int| list::is_like_newest(items, g, m);
    let path = found[m].path;
    assert forall|j: int| 0 <= j < found.len() implies (list::folder_item(
        folder,
        #[trigger] found[j],
    ).name == g.name <==> found[j].path == path) by {
        assert(items[j] == list::folder_item(folder, found[j]));
        assert(items[m] == list::folder_item(folder, found[m]));
        if items[j].name == g.name && items[j].path != path {
            assert(list::has_other(items, g.name, items[m].path));
            assert(list::is_shared(items, g.name));
        }
    }
    assert forall|j: int| 0 <= j < items.len() implies (#[trigger] items[j]).uuid == found[j].uuid
        && items[j].hash == found[j].hash && (items[j].name == g.name <==> found[j].path
        == path) by {
        assert(items[j] == list::folder_item(folder, found[j]));
    }
    filter_in_order(all, below);
    newest_is_latest(found, items, g.name, path, m);
    let at = |r: Row| r.path == path;
    let both = |r: Row| below(r) && at(r);
    assert(found.contains(found[m]));
    rows::filter_contains(all, below, found[m]);
    rows::filter_twice(all, below, at);
    rows::filter_agrees(all, both, at);
    assert(world::rows_at(found, path) == world::rows_at(all, path));
    assert forall|k: int|
        0 <= k < all.len() && text::has_prefix((#[trigger] all[k]).path, prefix) implies (
    list::folder_item(folder, all[k]).name == row.path <==> all[k].path == path) by {
        all.lemma_filter_contains(below, k);
        let j = choose|j: int| 0 <= j < found.len() && found[j] == all[k];
        assert(list::folder_item(folder, found[j]).name == g.name <==> found[j].path == path);
    }
    assert(world::versions_of(found, path) == world::versions_of(all, path));
}

/// What a folder lists lies directly in it, and every row below it is at or below
/// a path that is listed. This holds where no path has a double slash.
pub proof fn listed_folder_covers(all: Seq<Row>, folder: Seq<char>, out: Seq<Listed>)
    requires
        world::in_order(all),
        paths_are_clean(all),
        folder.len() > 0 ==> path::is_valid(folder),
        list::lists_folder(
            folder,
            store_laws::rows_below(all, list::folder_prefix(folder)),
            out,
        ),
    ensures
        forall|i: int|
            0 <= i < out.len() ==> {
                let name = (#[trigger] out[i]).name();
                let prefix = list::folder_prefix(folder);
                &&& text::has_prefix(name, prefix)
                &&& name.len() > prefix.len()
                &&& !name.skip(prefix.len() as int).contains('/')
            },
        forall|k: int|
            0 <= k < all.len() && text::has_prefix(
                (#[trigger] all[k]).path,
                list::folder_prefix(folder),
            ) ==> exists|i: int|
                0 <= i < out.len() && ((#[trigger] out[i]).name() == all[k].path
                    || text::has_prefix(all[k].path, out[i].name().push('/'))),
{
    let prefix = list::folder_prefix(folder);
    let below = |r: Row| text::has_prefix(r.path, prefix);
    let found = all.filter(below);
    let items = list::folder_items(folder, found);
    let groups = choose|groups: Seq<Item>| #[trigger]
        list::is_grouped(items, groups) && out == groups.map_values(
            |one: Item| list::listed_as(one),
        );
    assert forall|i: int| 0 <= i < out.len() implies {
        let name = (#[trigger] out[i]).name();
        &&& text::has_prefix(name, prefix)
        &&& name.len() > prefix.len()
        &&& !name.skip(prefix.len() as int).contains('/')
    } by {
        let g = groups[i];
        assert(list::sums_up(items, g));
        let m = choose|m: int| list::is_like_newest(items, g, m);
        let r = found[m];
        assert(found.contains(r));
        rows::filter_contains(all, below, r);
        let k = choose|k: int| 0 <= k < all.len() && all[k] == r;
        assert(path::is_valid(all[k].path));
        clean_path_splits(folder, r);
        let rest = list::rest_below(folder, r.path);
        let part = list::first_part(rest);
        first_part_is_prefix(rest);
        assert(out[i].name() == g.name);
        assert(g.name == prefix + part);
        assert(part.len() > 0) by {
            if part.len() == 0 {
                if rest.len() == 0 {
                    assert(prefix + rest =~= prefix);
                    assert(r.path == prefix);
                } else {
                    assert(r.path[prefix.len() as int] == rest[0]);
                    if prefix.len() > 0 {
                        assert(r.path[prefix.len() - 1] == prefix[prefix.len() - 1]);
                    }
                }
            }
        }
        assert((prefix + part).skip(prefix.len() as int) =~= part);
        assert(text::has_prefix(prefix + part, prefix)) by {
            assert((prefix + part).take(prefix.len() as int) =~= prefix);
        }
    }
    listed_folder_is_latest(all, folder, out);
    assert forall|k: int| 0 <= k < all.len() && text::has_prefix((#[trigger] all[k]).path, prefix) implies exists|
        i: int,
    |
        0 <= i < out.len() && ((#[trigger] out[i]).name() == all[k].path || text::has_prefix(
            all[k].path,
            out[i].name().push('/'),
        )) by {
        clean_path_splits(folder, all[k]);
        let i = choose|i: int|
            0 <= i < out.len() && (#[trigger] out[i]).name() == list::folder_item(
                folder,
                all[k],
            ).name;
        assert(out[i].name() == all[k].path || text::has_prefix(all[k].path, out[i].name().push('/')));
    }
}

/// The names of some items.
pub open spec fn names_of(items: Seq<Item>) -> Seq<Seq<char>> {
    items.map_values(|one: Item| one.name)
}

/// Items are grouped in one way only.
pub proof fn grouping_is_unique(items: Seq<Item>, a: Seq<Item>, b: Seq<Item>)
    requires
        list::is_grouped(items, a),
        list::is_grouped(items, b),
    ensures
        a == b,
{
    let x = names_of(a);
    let y = names_of(b);
    assert forall|i: int, j: int| 0 <= i < j < x.len() implies text::text_before(
        #[trigger] x[i],
        #[trigger] x[j],
    ) by {
        assert(text::text_before(a[i].name, a[j].name));
    }
    assert forall|i: int, j: int| 0 <= i < j < y.len() implies text::text_before(
        #[trigger] y[i],
        #[trigger] y[j],
    ) by {
        assert(text::text_before(b[i].name, b[j].name));
    }
    assert forall|n: Seq<char>| #[trigger] x.contains(n) <==> y.contains(n) by {
        if x.contains(n) {
            let i = choose|i: int| 0 <= i < x.len() && x[i] == n;
            named_in_both(items, a, b, i);
            let j = choose|j: int| 0 <= j < b.len() && (#[trigger] b[j]).name == n;
            assert(y[j] == n);
        }
        if y.contains(n) {
            let i = choose|i: int| 0 <= i < y.len() && y[i] == n;
            named_in_both(items, b, a, i);
            let j = choose|j: int| 0 <= j < a.len() && (#[trigger] a[j]).name == n;
            assert(x[j] == n);
        }
    }
    pathset::ascending_is_unique(x, y);
    assert forall|i: int| 0 <= i < a.len() implies a[i] == b[i] by {
        assert(x[i] == a[i].name && y[i] == b[i].name);
        let name = a[i].name;
        assert(list::sums_up(items, a[i]));
        assert(list::sums_up(items, b[i]));
        let k = choose|k: int| list::is_like_newest(items, a[i], k);
        let m = choose|m: int| list::is_like_newest(items, b[i], m);
        assert(items[k].name == name && items[m].name == name);
    }
    assert(x.len() == a.len() && y.len() == b.len());
    assert(a =~= b);
}

/// A name of one grouping is a name of the other.
proof fn named_in_both(items: Seq<Item>, a: Seq<Item>, b: Seq<Item>, i: int)
    requires
        list::is_grouped(items, a),
        list::is_grouped(items, b),
        0 <= i < a.len(),
    ensures
        list::is_named(b, a[i].name),
{
    assert(list::sums_up(items, a[i]));
    let k = choose|k: int| list::is_like_newest(items, a[i], k);
    assert(items[k].name == a[i].name);
    assert(list::is_named(b, items[k].name));
}

/// The rows determine what a folder lists, and what all paths are.
pub proof fn listings_are_determined(
    folder: Seq<char>,
    all: Seq<Row>,
    a: Seq<Listed>,
    b: Seq<Listed>,
    x: Seq<Row>,
    y: Seq<Row>,
)
    ensures
        list::lists_folder(folder, all, a) && list::lists_folder(folder, all, b) ==> a == b,
        list::lists_paths(all, x) && list::lists_paths(all, y) ==> x == y,
{
    if list::lists_folder(folder, all, a) && list::lists_folder(folder, all, b) {
        let items = list::folder_items(folder, all);
        let g = choose|g: Seq<Item>| #[trigger]
            list::is_grouped(items, g) && a == g.map_values(|one: Item| list::listed_as(one));
        let h = choose|h: Seq<Item>| #[trigger]
            list::is_grouped(items, h) && b == h.map_values(|one: Item| list::listed_as(one));
        grouping_is_unique(items, g, h);
    }
    if list::lists_paths(all, x) && list::lists_paths(all, y) {
        let items = list::path_items(all);
        let g = choose|g: Seq<Item>| #[trigger]
            list::is_grouped(items, g) && x == g.map_values(
                |one: Item| Row { path: one.name, uuid: one.uuid, hash: one.hash },
            );
        let h = choose|h: Seq<Item>| #[trigger]
            list::is_grouped(items, h) && y == h.map_values(
                |one: Item| Row { path: one.name, uuid: one.uuid, hash: one.hash },
            );
        grouping_is_unique(items, g, h);
    }
}

} // verus!
