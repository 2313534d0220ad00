//! What recording a version does to the rows of the index.

use vstd::prelude::*;

use crate::index::{Row, Version};
use crate::rows;
use crate::text;
use crate::uuid;
use crate::world;

verus! {

/// Rows with the same path and identifier.
pub open spec fn same_key(a: Row, b: Row) -> bool {
    a.path == b.path && a.uuid == b.uuid
}

/// Of two rows with different keys one comes before the other.
proof fn rows_are_ordered(a: Row, b: Row)
    ensures
        same_key(a, b) || world::row_before(a, b) || world::row_before(b, a),
{
    text::before_total(text::codes(a.path), text::codes(b.path));
    if text::codes(a.path) == text::codes(b.path) {
        text::codes_injective(a.path, b.path);
        text::before_total(text::octets(a.uuid), text::octets(b.uuid));
        if text::octets(a.uuid) == text::octets(b.uuid) {
            uuid::octets_injective(a.uuid, b.uuid);
        }
    }
}

/// The order of the rows is transitive.
proof fn row_order_is_transitive(a: Row, b: Row, c: Row)
    requires
        world::row_before(a, b),
        world::row_before(b, c),
    ensures
        world::row_before(a, c),
{
    if text::text_before(a.path, b.path) && text::text_before(b.path, c.path) {
        text::before_transitive(text::codes(a.path), text::codes(b.path), text::codes(c.path));
    } else if a.path == b.path && b.path == c.path {
        text::before_transitive(text::octets(a.uuid), text::octets(b.uuid), text::octets(c.uuid));
    }
}

/// The rows after an insertion are those before and the new one.
pub proof fn with_row_holds(all: Seq<Row>, row: Row, x: Row)
    requires
        world::with_row(all, row).contains(x),
    ensures
        all.contains(x) || x == row,
    decreases all.len(),
{
    let out = world::with_row(all, row);
    let i = choose|i: int| 0 <= i < out.len() && out[i] == x;
    if all.len() == 0 {
    } else if world::row_before(all.last(), row) {
        if i < all.len() {
            assert(all[i] == x);
        }
    } else if same_key(all.last(), row) {
    } else {
        let head = all.drop_last();
        if i < world::with_row(head, row).len() {
            assert(world::with_row(head, row)[i] == x);
            with_row_holds(head, row, x);
            if head.contains(x) {
                let j = choose|j: int| 0 <= j < head.len() && head[j] == x;
                assert(all[j] == x);
            }
        } else {
            assert(all[all.len() - 1] == x);
        }
    }
}

/// No row is lost by an insertion.
pub proof fn with_row_keeps(all: Seq<Row>, row: Row, x: Row)
    requires
        all.contains(x),
    ensures
        world::with_row(all, row).contains(x),
    decreases all.len(),
{
    let i = choose|i: int| 0 <= i < all.len() && all[i] == x;
    let out = world::with_row(all, row);
    if world::row_before(all.last(), row) {
        assert(out[i] == x);
    } else if same_key(all.last(), row) {
    } else {
        let head = all.drop_last();
        if i < head.len() {
            assert(head[i] == x);
            with_row_keeps(head, row, x);
            let j = choose|j: int|
                0 <= j < world::with_row(head, row).len() && world::with_row(head, row)[j] == x;
            assert(out[j] == x);
        } else {
            assert(out[out.len() - 1] == x);
        }
    }
}

/// An insertion keeps the rows in order.
pub proof fn with_row_in_order(all: Seq<Row>, row: Row)
    requires
        world::in_order(all),
    ensures
        world::in_order(world::with_row(all, row)),
    decreases all.len(),
{
    let out = world::with_row(all, row);
    if all.len() == 0 {
    } else if world::row_before(all.last(), row) {
        assert forall|i: int, j: int| 0 <= i < j < out.len() implies #[trigger] world::row_before(
            out[i],
            out[j],
        ) by {
            if j < all.len() {
                assert(world::row_before(all[i], all[j]));
            } else if i < all.len() - 1 {
                assert(world::row_before(all[i], all[all.len() - 1]));
                row_order_is_transitive(all[i], all.last(), row);
            }
        }
    } else if same_key(all.last(), row) {
    } else {
        let head = all.drop_last();
        assert(world::in_order(head)) by {
            assert forall|i: int, j: int| 0 <= i < j < head.len() implies #[trigger] world::row_before(
                head[i],
                head[j],
            ) by {
                assert(world::row_before(all[i], all[j]));
            }
        }
        with_row_in_order(head, row);
        let inner = world::with_row(head, row);
        rows_are_ordered(all.last(), row);
        assert forall|i: int, j: int| 0 <= i < j < out.len() implies #[trigger] world::row_before(
            out[i],
            out[j],
        ) by {
            if j < inner.len() {
                assert(world::row_before(inner[i], inner[j]));
            } else {
                assert(inner.contains(inner[i]));
                with_row_holds(head, row, inner[i]);
                if head.contains(inner[i]) {
                    let k = choose|k: int| 0 <= k < head.len() && head[k] == inner[i];
                    assert(world::row_before(all[k], all[all.len() - 1]));
                }
            }
        }
    }
}

/// A key that is there already changes nothing.
proof fn with_row_present(all: Seq<Row>, row: Row, k: int)
    requires
        world::in_order(all),
        0 <= k < all.len(),
        same_key(all[k], row),
    ensures
        world::with_row(all, row) == all,
    decreases all.len(),
{
    let n = all.len() - 1;
    if k == n {
        rows::row_irreflexive(row);
        if world::row_before(all.last(), row) {
            text::before_irreflexive(text::codes(row.path));
            text::before_irreflexive(text::octets(row.uuid));
        }
    } else {
        assert(world::row_before(all[k], all[n]));
        if world::row_before(all[n], row) {
            row_order_is_transitive(all[k], all[n], row);
            text::before_irreflexive(text::codes(row.path));
            text::before_irreflexive(text::octets(row.uuid));
        }
        if same_key(all[n], row) {
            text::before_irreflexive(text::codes(row.path));
            text::before_irreflexive(text::octets(row.uuid));
        }
        let head = all.drop_last();
        assert forall|i: int, j: int| 0 <= i < j < head.len() implies #[trigger] world::row_before(
            head[i],
            head[j],
        ) by {
            assert(world::row_before(all[i], all[j]));
        }
        with_row_present(head, row, k);
        assert(head.push(all.last()) =~= all);
    }
}

/// A filter of rows with one more at the end.
proof fn filter_push(all: Seq<Row>, x: Row, p: spec_fn(Row) -> bool)
    ensures
        all.push(x).filter(p) == (if p(x) {
            all.filter(p).push(x)
        } else {
            all.filter(p)
        }),
{
    reveal(Seq::filter);
    assert(all.push(x).drop_last() =~= all);
}

/// An insertion does not touch the rows of other paths.
proof fn with_row_elsewhere(all: Seq<Row>, row: Row, path: Seq<char>)
    requires
        path != row.path,
    ensures
        world::rows_at(world::with_row(all, row), path) == world::rows_at(all, path),
    decreases all.len(),
{
    let at = |r: Row| r.path == path;
    if all.len() == 0 {
        rows::filter_one(row, at);
        reveal(Seq::filter);
    } else if world::row_before(all.last(), row) {
        filter_push(all, row, at);
    } else if same_key(all.last(), row) {
    } else {
        let head = all.drop_last();
        with_row_elsewhere(head, row, path);
        filter_push(world::with_row(head, row), all.last(), at);
        filter_push(head, all.last(), at);
        assert(head.push(all.last()) =~= all);
    }
}

/// A row newer than all others of its path becomes the newest.
proof fn with_row_newest(all: Seq<Row>, row: Row)
    requires
        forall|i: int|
            0 <= i < all.len() && (#[trigger] all[i]).path == row.path ==> uuid::older(
                all[i].uuid,
                row.uuid,
            ),
    ensures
        world::rows_at(world::with_row(all, row), row.path) == world::rows_at(all, row.path).push(
            row,
        ),
    decreases all.len(),
{
    let at = |r: Row| r.path == row.path;
    if all.len() == 0 {
        rows::filter_one(row, at);
        reveal(Seq::filter);
        assert(all.filter(at).push(row) =~= seq![row]);
    } else if world::row_before(all.last(), row) {
        filter_push(all, row, at);
    } else {
        let n = all.len() - 1;
        assert(all[n] == all.last());
        assert(all.last().path != row.path);
        let head = all.drop_last();
        assert forall|i: int| 0 <= i < head.len() && (#[trigger] head[i]).path == row.path implies uuid::older(
            head[i].uuid,
            row.uuid,
        ) by {
            assert(head[i] == all[i]);
        }
        with_row_newest(head, row);
        filter_push(world::with_row(head, row), all.last(), at);
        filter_push(head, all.last(), at);
        assert(head.push(all.last()) =~= all);
    }
}

/// The identifier is newer than that of every row.
pub open spec fn is_new(all: Seq<Row>, uuid: Seq<u8>) -> bool {
    forall|i: int| 0 <= i < all.len() ==> uuid::older((#[trigger] all[i]).uuid, uuid)
}

/// The rows of a path after a version of each of the paths was recorded.
pub open spec fn rows_at_after(
    all: Seq<Row>,
    paths: Seq<Seq<char>>,
    uuid: Seq<u8>,
    hash: Seq<u8>,
    path: Seq<char>,
) -> Seq<Row> {
    if paths.contains(path) {
        world::rows_at(all, path).push(Row { path, uuid, hash })
    } else {
        world::rows_at(all, path)
    }
}

/// Recording a version keeps the rows in order, adds the version to each of the
/// paths once, as the newest, and leaves every other path as it is.
pub proof fn with_version_adds(
    all: Seq<Row>,
    paths: Seq<Seq<char>>,
    uuid: Seq<u8>,
    hash: Seq<u8>,
)
    requires
        world::in_order(all),
        is_new(all, uuid),
    ensures
        world::in_order(world::with_version(all, paths, uuid, hash)),
        forall|path: Seq<char>| #[trigger]
            world::rows_at(world::with_version(all, paths, uuid, hash), path) == rows_at_after(
                all,
                paths,
                uuid,
                hash,
                path,
            ),
    decreases paths.len(),
{
    if paths.len() > 0 {
        let init = paths.drop_last();
        let last = paths.last();
        let before = world::with_version(all, init, uuid, hash);
        let row = Row { path: last, uuid, hash };
        let after = world::with_row(before, row);
        with_version_adds(all, init, uuid, hash);
        with_row_in_order(before, row);
        let at = |r: Row| r.path == last;
        assert(init.contains(last) ==> after == before) by {
            if init.contains(last) {
                let list = world::rows_at(before, last);
                assert(list[list.len() - 1] == row);
                assert(before.filter(at).contains(row));
                rows::filter_contains(before, at, row);
                let k = choose|k: int| 0 <= k < before.len() && before[k] == row;
                with_row_present(before, row, k);
            }
        }
        if !init.contains(last) {
            assert forall|i: int| 0 <= i < before.len() && (#[trigger] before[i]).path == last implies uuid::older(
                before[i].uuid,
                uuid,
            ) by {
                assert(before.contains(before[i]));
                rows::filter_contains(before, at, before[i]);
                assert(world::rows_at(before, last) == world::rows_at(all, last));
                assert(all.filter(at).contains(before[i]));
                rows::filter_contains(all, at, before[i]);
                let j = choose|j: int| 0 <= j < all.len() && all[j] == before[i];
                assert(uuid::older(all[j].uuid, uuid));
            }
            with_row_newest(before, row);
        }
        assert forall|path: Seq<char>| #[trigger] world::rows_at(after, path) == rows_at_after(
            all,
            paths,
            uuid,
            hash,
            path,
        ) by {
            assert(paths.contains(path) <==> init.contains(path) || path == last) by {
                if paths.contains(path) {
                    let i = choose|i: int| 0 <= i < paths.len() && paths[i] == path;
                    if i < init.len() {
                        assert(init[i] == path);
                    }
                }
                if init.contains(path) {
                    let i = choose|i: int| 0 <= i < init.len() && init[i] == path;
                    assert(paths[i] == path);
                }
                assert(paths[paths.len() - 1] == last);
            }
            assert(world::rows_at(before, path) == rows_at_after(all, init, uuid, hash, path));
            if path != last {
                with_row_elsewhere(before, row, path);
            }
        }
    } else {
        assert forall|path: Seq<char>| #[trigger] world::rows_at(all, path) == rows_at_after(
            all,
            paths,
            uuid,
            hash,
            path,
        ) by {}
    }
}

/// The rows after recording are those before and one for each path.
pub proof fn with_version_holds(
    all: Seq<Row>,
    paths: Seq<Seq<char>>,
    uuid: Seq<u8>,
    hash: Seq<u8>,
    x: Row,
)
    requires
        world::with_version(all, paths, uuid, hash).contains(x),
    ensures
        all.contains(x) || (x.uuid == uuid && x.hash == hash && paths.contains(x.path)),
    decreases paths.len(),
{
    if paths.len() > 0 {
        let init = paths.drop_last();
        let row = Row { path: paths.last(), uuid, hash };
        let before = world::with_version(all, init, uuid, hash);
        with_row_holds(before, row, x);
        if before.contains(x) {
            with_version_holds(all, init, uuid, hash, x);
            if init.contains(x.path) {
                let i = choose|i: int| 0 <= i < init.len() && init[i] == x.path;
                assert(paths[i] == x.path);
            }
        } else {
            assert(paths[paths.len() - 1] == x.path);
        }
    }
}

/// No row is lost by recording.
pub proof fn with_version_keeps(
    all: Seq<Row>,
    paths: Seq<Seq<char>>,
    uuid: Seq<u8>,
    hash: Seq<u8>,
    x: Row,
)
    requires
        all.contains(x),
    ensures
        world::with_version(all, paths, uuid, hash).contains(x),
    decreases paths.len(),
{
    if paths.len() > 0 {
        let init = paths.drop_last();
        with_version_keeps(all, init, uuid, hash, x);
        with_row_keeps(
            world::with_version(all, init, uuid, hash),
            Row { path: paths.last(), uuid, hash },
            x,
        );
    }
}

/// The versions of a path after recording: the new one comes first.
pub proof fn new_version_is_first(
    all: Seq<Row>,
    paths: Seq<Seq<char>>,
    uuid: Seq<u8>,
    hash: Seq<u8>,
    path: Seq<char>,
)
    requires
        world::in_order(all),
        is_new(all, uuid),
    ensures
        world::versions_of(world::with_version(all, paths, uuid, hash), path) == (
        if paths.contains(path) {
            seq![Version { hash, uuid }] + world::versions_of(all, path)
        } else {
            world::versions_of(all, path)
        }),
{
    with_version_adds(all, paths, uuid, hash);
    let before = world::rows_at(all, path);
    let after = world::rows_at(world::with_version(all, paths, uuid, hash), path);
    assert(after == rows_at_after(all, paths, uuid, hash, path));
    if paths.contains(path) {
        let a = world::versions_of(world::with_version(all, paths, uuid, hash), path);
        let b = seq![Version { hash, uuid }] + world::versions_of(all, path);
        assert(a.len() == b.len());
        assert forall|i: int| 0 <= i < a.len() implies a[i] == b[i] by {
            assert(after.reverse()[i] == after[after.len() - 1 - i]);
            if i > 0 {
                assert(before.reverse()[i - 1] == before[before.len() - i]);
            }
        }
        assert(a =~= b);
    }
}

} // verus!
