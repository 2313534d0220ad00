//! Facts on the rows of the index.

use vstd::prelude::*;

use crate::index::Row;
use crate::world;

verus! {

/// Some row names the hash.
pub open spec fn names(rows: Seq<Row>, hash: Seq<u8>) -> bool {
    exists|i: int| 0 <= i < rows.len() && (#[trigger] rows[i]).hash == hash
}

/// Every row of `a` is a row of `b`.
pub open spec fn is_part(a: Seq<Row>, b: Seq<Row>) -> bool {
    forall|i: int| 0 <= i < a.len() ==> b.contains(#[trigger] a[i])
}

/// A row is among the rows that pass a test exactly if it is a row and passes.
pub proof fn filter_contains(rows: Seq<Row>, pred: spec_fn(Row) -> bool, row: Row)
    ensures
        rows.filter(pred).contains(row) <==> rows.contains(row) && pred(row),
{
    if rows.filter(pred).contains(row) {
        let i = choose|i: int| 0 <= i < rows.filter(pred).len() && rows.filter(pred)[i] == row;
        rows.lemma_filter_pred(pred, i);
        filter_is_part(rows, pred);
        assert(rows.contains(rows.filter(pred)[i]));
    }
    if rows.contains(row) && pred(row) {
        let i = choose|i: int| 0 <= i < rows.len() && rows[i] == row;
        rows.lemma_filter_contains(pred, i);
    }
}

/// The rows that pass a test are rows.
pub proof fn filter_is_part(rows: Seq<Row>, pred: spec_fn(Row) -> bool)
    ensures
        is_part(rows.filter(pred), rows),
    decreases rows.len(),
{
    reveal(Seq::filter);
    if rows.len() > 0 {
        let head = rows.drop_last();
        filter_is_part(head, pred);
        let out = rows.filter(pred);
        assert forall|i: int| 0 <= i < out.len() implies rows.contains(#[trigger] out[i]) by {
            if i < head.filter(pred).len() {
                assert(out[i] == head.filter(pred)[i]);
                assert(head.contains(out[i]));
                let j = choose|j: int| 0 <= j < head.len() && head[j] == out[i];
                assert(rows[j] == out[i]);
            } else {
                assert(out[i] == rows[rows.len() - 1]);
            }
        }
    }
}

/// A hash is counted above zero exactly if a row names it.
pub proof fn count_of_named(rows: Seq<Row>, hash: Seq<u8>)
    ensures
        names(rows, hash) <==> world::rows_with(rows, hash).len() > 0,
        world::rows_with(rows, hash).len() <= rows.len(),
{
    let pred = |r: Row| r.hash == hash;
    rows.lemma_filter_len(pred);
    if names(rows, hash) {
        let i = choose|i: int| 0 <= i < rows.len() && (#[trigger] rows[i]).hash == hash;
        rows.lemma_filter_contains(pred, i);
    }
    if rows.filter(pred).len() > 0 {
        let row = rows.filter(pred)[0];
        assert(rows.filter(pred).contains(row));
        filter_contains(rows, pred, row);
        let i = choose|i: int| 0 <= i < rows.len() && rows[i] == row;
        assert(rows[i].hash == hash);
    }
}

/// Where some row has a path and a hash there is a first such row.
pub proof fn first_exists(rows: Seq<Row>, path: Seq<char>, hash: Seq<u8>, i: int)
    requires
        0 <= i < rows.len(),
        rows[i].path == path,
        rows[i].hash == hash,
    ensures
        world::has_version(rows, path, hash),
    decreases i,
{
    if forall|j: int| 0 <= j < i ==> !(#[trigger] rows[j].path == path && rows[j].hash == hash) {
        assert(world::is_first(rows, path, hash, i));
    } else {
        let j = choose|j: int|
            0 <= j < i && (#[trigger] rows[j].path == path && rows[j].hash == hash);
        first_exists(rows, path, hash, j);
    }
}

/// Where some row has a path and a hash, a row names the hash.
pub proof fn version_names(rows: Seq<Row>, path: Seq<char>, hash: Seq<u8>)
    requires
        world::has_version(rows, path, hash),
    ensures
        names(rows, hash),
{
    let i = choose|i: int| world::is_first(rows, path, hash, i);
    assert(rows[i].hash == hash);
}

/// A hash that some row names and no row off the path names is a version of
/// the path.
pub proof fn lost_off_path(rows: Seq<Row>, path: Seq<char>, hash: Seq<u8>)
    requires
        names(rows, hash),
        !names(world::rows_off(rows, path), hash),
    ensures
        world::has_version(rows, path, hash),
{
    let i = choose|i: int| 0 <= i < rows.len() && (#[trigger] rows[i]).hash == hash;
    let pred = |r: Row| r.path != path;
    if rows[i].path != path {
        filter_contains(rows, pred, rows[i]);
        let k = choose|k: int| 0 <= k < rows.filter(pred).len() && rows.filter(pred)[k] == rows[i];
        assert(world::rows_off(rows, path)[k].hash == hash);
    } else {
        first_exists(rows, path, hash, i);
    }
}

/// A hash that some row names, and none once the oldest row of a version is
/// gone, is the hash of that version.
pub proof fn lost_without_oldest(rows: Seq<Row>, path: Seq<char>, version: Seq<u8>, hash: Seq<u8>)
    requires
        names(rows, hash),
        !names(world::without_oldest(rows, path, version), hash),
    ensures
        hash == version,
        world::has_version(rows, path, version),
{
    let i = choose|i: int| 0 <= i < rows.len() && (#[trigger] rows[i]).hash == hash;
    let after = world::without_oldest(rows, path, version);
    if world::has_version(rows, path, version) {
        let k = choose|k: int| world::is_first(rows, path, version, k);
        if i < k {
            assert(after[i] == rows[i]);
        } else if i > k {
            assert(after[i - 1] == rows[i]);
        }
    } else {
        assert(after[i] == rows[i]);
    }
}

/// What names a hash in a part names it in the whole.
pub proof fn part_names(a: Seq<Row>, b: Seq<Row>, hash: Seq<u8>)
    requires
        is_part(a, b),
        names(a, hash),
    ensures
        names(b, hash),
{
    let i = choose|i: int| 0 <= i < a.len() && (#[trigger] a[i]).hash == hash;
    assert(b.contains(a[i]));
    let j = choose|j: int| 0 <= j < b.len() && b[j] == a[i];
    assert(b[j].hash == hash);
}

/// Deleting the oldest row of a version leaves a part of the rows.
pub proof fn without_oldest_is_part(rows: Seq<Row>, path: Seq<char>, hash: Seq<u8>)
    ensures
        is_part(world::without_oldest(rows, path, hash), rows),
        world::without_oldest(rows, path, hash).len() <= rows.len(),
{
    let after = world::without_oldest(rows, path, hash);
    if world::has_version(rows, path, hash) {
        let k = choose|k: int| world::is_first(rows, path, hash, k);
        assert forall|i: int| 0 <= i < after.len() implies rows.contains(#[trigger] after[i]) by {
            if i < k {
                assert(after[i] == rows[i]);
            } else {
                assert(after[i] == rows[i + 1]);
            }
        }
    }
}


// ---------------------------------------------------------------------------
// Filters
// ---------------------------------------------------------------------------

/// Tests that agree on every element keep the same elements.
pub proof fn filter_agrees<A>(s: Seq<A>, p: spec_fn(A) -> bool, q: spec_fn(A) -> bool)
    requires
        forall|i: int| 0 <= i < s.len() ==> p(#[trigger] s[i]) == q(s[i]),
    ensures
        s.filter(p) == s.filter(q),
    decreases s.len(),
{
    reveal(Seq::filter);
    if s.len() > 0 {
        let head = s.drop_last();
        assert forall|i: int| 0 <= i < head.len() implies p(#[trigger] head[i]) == q(head[i]) by {
            assert(head[i] == s[i]);
        }
        filter_agrees(head, p, q);
        assert(p(s[s.len() - 1]) == q(s[s.len() - 1]));
    }
}

/// A test that every element passes keeps all.
pub proof fn filter_keeps_all<A>(s: Seq<A>, p: spec_fn(A) -> bool)
    requires
        forall|i: int| 0 <= i < s.len() ==> p(#[trigger] s[i]),
    ensures
        s.filter(p) == s,
    decreases s.len(),
{
    reveal(Seq::filter);
    if s.len() > 0 {
        let head = s.drop_last();
        assert forall|i: int| 0 <= i < head.len() implies p(#[trigger] head[i]) by {
            assert(head[i] == s[i]);
        }
        filter_keeps_all(head, p);
        assert(p(s[s.len() - 1]));
        assert(head.push(s.last()) =~= s);
    } else {
        assert(s.filter(p) =~= s);
    }
}

/// A filter of one element.
pub proof fn filter_one<A>(x: A, p: spec_fn(A) -> bool)
    ensures
        seq![x].filter(p) == (if p(x) {
            seq![x]
        } else {
            Seq::empty()
        }),
{
    reveal(Seq::filter);
    assert(seq![x].drop_last() =~= Seq::<A>::empty());
    assert(seq![x].drop_last().filter(p) =~= Seq::<A>::empty());
    assert(Seq::<A>::empty().push(x) =~= seq![x]);
}

/// A filter of what one filter kept.
pub proof fn filter_twice<A>(s: Seq<A>, p: spec_fn(A) -> bool, q: spec_fn(A) -> bool)
    ensures
        s.filter(p).filter(q) == s.filter(|x: A| p(x) && q(x)),
    decreases s.len(),
{
    reveal(Seq::filter);
    if s.len() > 0 {
        filter_twice(s.drop_last(), p, q);
        let kept = s.drop_last().filter(p);
        if p(s.last()) {
            assert(kept.push(s.last()).drop_last() =~= kept);
        }
    }
}

/// The first `k` elements that a filter keeps come from a prefix.
pub proof fn filter_prefix<A>(s: Seq<A>, p: spec_fn(A) -> bool, k: int) -> (c: int)
    requires
        0 <= k <= s.filter(p).len(),
    ensures
        0 <= c <= s.len(),
        s.take(c).filter(p) == s.filter(p).take(k),
        s.skip(c).filter(p) == s.filter(p).skip(k),
    decreases s.len(),
{
    reveal(Seq::filter);
    let f = s.filter(p);
    if k == f.len() {
        let c = s.len() as int;
        assert(s.take(c) =~= s);
        assert(s.skip(c) =~= Seq::<A>::empty());
        assert(s.skip(c).filter(p) =~= Seq::<A>::empty());
        assert(f.take(k) =~= f);
        assert(f.skip(k) =~= Seq::<A>::empty());
        c
    } else {
        let head = s.drop_last();
        let g = head.filter(p);
        assert(k <= g.len());
        let c = filter_prefix(head, p, k);
        assert(s.take(c) =~= head.take(c));
        assert(f.take(k) =~= g.take(k));
        assert(s.skip(c) =~= head.skip(c).push(s.last()));
        assert(s.skip(c).drop_last() =~= head.skip(c));
        if p(s.last()) {
            assert(f.skip(k) =~= g.skip(k).push(s.last()));
        } else {
            assert(f =~= g);
        }
        c
    }
}

// ---------------------------------------------------------------------------
// Deleting versions one by one
// ---------------------------------------------------------------------------

/// The rows after the oldest row of each version in turn was deleted.
pub open spec fn without_each(rows: Seq<Row>, path: Seq<char>, hashes: Seq<Seq<u8>>) -> Seq<Row>
    decreases hashes.len(),
{
    if hashes.len() == 0 {
        rows
    } else {
        without_each(
            world::without_oldest(rows, path, hashes[0]),
            path,
            hashes.skip(1),
        )
    }
}

/// The test for one hash.
pub open spec fn hash_test(hash: Seq<u8>) -> spec_fn(Seq<u8>) -> bool {
    |h: Seq<u8>| h == hash
}

/// How often a hash occurs in a list.
pub open spec fn count_in_list(hashes: Seq<Seq<u8>>, hash: Seq<u8>) -> nat {
    hashes.filter(hash_test(hash)).len()
}

/// How many rows have a path and a hash.
pub open spec fn count_at(rows: Seq<Row>, path: Seq<char>, hash: Seq<u8>) -> nat {
    rows.filter(|r: Row| r.path == path && r.hash == hash).len()
}

/// Deleting, in any order, as many versions of each hash as the rows `a` hold
/// deletes just the rows of `a` at the path.
pub proof fn without_each_of(a: Seq<Row>, b: Seq<Row>, path: Seq<char>, hashes: Seq<Seq<u8>>)
    requires
        forall|h: Seq<u8>| #[trigger] count_in_list(hashes, h) == count_at(a, path, h),
    ensures
        without_each(a + b, path, hashes) == world::rows_off(a, path) + b,
    decreases hashes.len(),
{
    let off = |r: Row| r.path != path;
    if hashes.len() == 0 {
        assert forall|i: int| 0 <= i < a.len() implies off(#[trigger] a[i]) by {
            let h = a[i].hash;
            let p = |r: Row| r.path == path && r.hash == h;
            if a[i].path == path {
                a.lemma_filter_contains(p, i);
                assert(count_in_list(hashes, h) == 0) by {
                    reveal(Seq::filter);
                }
            }
        }
        filter_keeps_all(a, off);
    } else {
        let l = hashes[0];
        let p = |r: Row| r.path == path && r.hash == l;
        let tail = hashes.skip(1);
        assert(hashes =~= seq![l] + tail);
        assert forall|h: Seq<u8>| count_in_list(hashes, h) == count_in_list(tail, h) + (if h == l {
            1nat
        } else {
            0nat
        }) by {
            let q = hash_test(h);
            Seq::filter_distributes_over_add(seq![l], tail, q);
            filter_one(l, q);
        }
        assert(count_in_list(hashes, l) > 0);
        assert(a.filter(p).len() > 0);
        let row = a.filter(p)[0];
        assert(a.filter(p).contains(row));
        filter_contains(a, p, row);
        let j = choose|j: int| 0 <= j < a.len() && a[j] == row;
        first_exists(a, path, l, j);
        let i = choose|i: int| world::is_first(a, path, l, i);
        let s = a + b;
        assert(world::is_first(s, path, l, i)) by {
            assert forall|k: int| 0 <= k < i implies !(#[trigger] s[k].path == path && s[k].hash
                == l) by {
                assert(s[k] == a[k]);
                assert(!(a[k].path == path && a[k].hash == l));
            }
        }
        let k = choose|k: int| world::is_first(s, path, l, k);
        assert(k == i) by {
            if k < i {
                assert(s[k].path == path && s[k].hash == l);
            } else if i < k {
                assert(s[i].path == path && s[i].hash == l);
            }
        }
        let x = a[i];
        let a1 = a.take(i);
        let a2 = a.skip(i + 1);
        let rest = a1 + a2;
        assert(a =~= a1 + seq![x] + a2);
        assert(world::without_oldest(s, path, l) =~= rest + b);
        assert forall|h: Seq<u8>| #[trigger] count_in_list(tail, h) == count_at(rest, path, h) by {
            let q = |r: Row| r.path == path && r.hash == h;
            Seq::filter_distributes_over_add(a1 + seq![x], a2, q);
            Seq::filter_distributes_over_add(a1, seq![x], q);
            Seq::filter_distributes_over_add(a1, a2, q);
            filter_one(x, q);
            assert(count_in_list(hashes, h) == count_at(a, path, h));
        }
        without_each_of(rest, b, path, tail);
        assert(world::rows_off(rest, path) == world::rows_off(a, path)) by {
            Seq::filter_distributes_over_add(a1 + seq![x], a2, off);
            Seq::filter_distributes_over_add(a1, seq![x], off);
            Seq::filter_distributes_over_add(a1, a2, off);
            filter_one(x, off);
            assert(a1.filter(off) + Seq::<Row>::empty() =~= a1.filter(off));
        }
    }
}

/// The hashes of some rows, newest first.
pub open spec fn hashes_reversed(rows: Seq<Row>) -> Seq<Seq<u8>> {
    rows.reverse().map_values(|r: Row| r.hash)
}

/// Turning rows round does not change how often a hash occurs.
pub proof fn count_reversed(rows: Seq<Row>, hash: Seq<u8>)
    ensures
        count_in_list(hashes_reversed(rows), hash) == world::rows_with(rows, hash).len(),
    decreases rows.len(),
{
    let q = hash_test(hash);
    let p = |r: Row| r.hash == hash;
    reveal(Seq::filter);
    if rows.len() == 0 {
        assert(hashes_reversed(rows) =~= Seq::<Seq<u8>>::empty());
        assert(rows.filter(p) =~= Seq::<Row>::empty());
        assert(hashes_reversed(rows).filter(q) =~= Seq::<Seq<u8>>::empty());
    } else {
        let head = rows.drop_last();
        let x = rows.last();
        count_reversed(head, hash);
        assert(hashes_reversed(rows) =~= seq![x.hash] + hashes_reversed(head));
        Seq::filter_distributes_over_add(seq![x.hash], hashes_reversed(head), q);
        filter_one(x.hash, q);
        assert(rows =~= head + seq![x]);
        Seq::filter_distributes_over_add(head, seq![x], p);
        filter_one(x, p);
    }
}

/// The newest `n` rows of a path, oldest first.
pub open spec fn newest(rows: Seq<Row>, path: Seq<char>, n: int) -> Seq<Row> {
    let at = world::rows_at(rows, path);
    if at.len() <= n {
        at
    } else {
        at.skip(at.len() - n)
    }
}

/// The rows of all other paths and the newest `n` rows of this one.
pub open spec fn trimmed(rows: Seq<Row>, path: Seq<char>, n: int) -> Seq<Row> {
    rows.filter(|r: Row| r.path != path || newest(rows, path, n).contains(r))
}

/// The hashes of the versions beyond the newest `n`, newest first.
pub open spec fn excess(rows: Seq<Row>, path: Seq<char>, n: int) -> Seq<Seq<u8>> {
    let versions = world::versions_of(rows, path);
    if versions.len() <= n {
        Seq::empty()
    } else {
        versions.skip(n).map_values(|v: crate::index::Version| v.hash)
    }
}

/// Nothing comes before itself.
pub proof fn row_irreflexive(a: Row)
    ensures
        !world::row_before(a, a),
{
    crate::text::before_irreflexive(crate::text::codes(a.path));
    crate::text::before_irreflexive(crate::text::octets(a.uuid));
}

/// Deleting the oldest row for each version beyond the newest `n` leaves just
/// the newest `n` versions of the path.
pub proof fn deleting_excess_trims(rows: Seq<Row>, path: Seq<char>, n: int)
    requires
        world::in_order(rows),
        0 <= n,
    ensures
        without_each(rows, path, excess(rows, path, n)) == trimmed(rows, path, n),
{
    let at = |r: Row| r.path == path;
    let off = |r: Row| r.path != path;
    let v = rows.filter(at);
    let keep = |r: Row| r.path != path || newest(rows, path, n).contains(r);
    let versions = world::versions_of(rows, path);
    assert(versions.len() == v.len());
    if v.len() <= n {
        assert forall|i: int| 0 <= i < rows.len() implies keep(#[trigger] rows[i]) by {
            if rows[i].path == path {
                rows.lemma_filter_contains(at, i);
            }
        }
        filter_keeps_all(rows, keep);
    } else {
        let k = v.len() - n;
        let c = filter_prefix(rows, at, k);
        let a = rows.take(c);
        let b = rows.skip(c);
        assert(rows =~= a + b);
        assert(newest(rows, path, n) == b.filter(at));
        let list = excess(rows, path, n);
        assert(list =~= hashes_reversed(v.take(k))) by {
            assert forall|j: int| 0 <= j < k implies list[j] == hashes_reversed(v.take(k))[j] by {
                assert(versions.skip(n)[j] == versions[n + j]);
                assert(versions[n + j].hash == v.reverse()[n + j].hash);
                assert(v.reverse()[n + j] == v[v.len() - 1 - n - j]);
                assert(v.take(k).reverse()[j] == v.take(k)[k - 1 - j]);
            }
        }
        assert forall|h: Seq<u8>| #[trigger] count_in_list(list, h) == count_at(a, path, h) by {
            let q = |r: Row| r.hash == h;
            count_reversed(v.take(k), h);
            filter_twice(a, at, q);
            filter_agrees(
                a,
                |r: Row| at(r) && q(r),
                |r: Row| r.path == path && r.hash == h,
            );
        }
        without_each_of(a, b, path, list);
        Seq::filter_distributes_over_add(a, b, keep);
        assert forall|i: int| 0 <= i < a.len() implies keep(#[trigger] a[i]) == off(a[i]) by {
            if a[i].path == path && b.filter(at).contains(a[i]) {
                filter_contains(b, at, a[i]);
                let j = choose|j: int| 0 <= j < b.len() && b[j] == a[i];
                assert(rows[i] == a[i] && rows[c + j] == b[j]);
                assert(world::row_before(rows[i], rows[c + j]));
                row_irreflexive(a[i]);
            }
        }
        filter_agrees(a, keep, off);
        assert forall|i: int| 0 <= i < b.len() implies keep(#[trigger] b[i]) by {
            if b[i].path == path {
                b.lemma_filter_contains(at, i);
            }
        }
        filter_keeps_all(b, keep);
    }
}

/// Keeping no version removes the path.
pub proof fn trimmed_to_none(rows: Seq<Row>, path: Seq<char>)
    ensures
        trimmed(rows, path, 0) == world::rows_off(rows, path),
{
    let at = world::rows_at(rows, path);
    assert(newest(rows, path, 0) =~= Seq::<Row>::empty());
    filter_agrees(
        rows,
        |r: Row| r.path != path || newest(rows, path, 0).contains(r),
        |r: Row| r.path != path,
    );
}

/// Of two tests that no element passes both, either is passed by as many elements
/// as pass the one and as pass the other.
pub proof fn filter_either<A>(s: Seq<A>, p: spec_fn(A) -> bool, q: spec_fn(A) -> bool)
    requires
        forall|i: int| 0 <= i < s.len() ==> !(p(#[trigger] s[i]) && q(s[i])),
    ensures
        s.filter(|x: A| p(x) || q(x)).len() == s.filter(p).len() + s.filter(q).len(),
    decreases s.len(),
{
    reveal(Seq::filter);
    if s.len() > 0 {
        let t = s.drop_last();
        assert forall|i: int| 0 <= i < t.len() implies !(p(#[trigger] t[i]) && q(t[i])) by {
            assert(t[i] == s[i]);
        }
        filter_either(t, p, q);
        assert(!(p(s[s.len() - 1]) && q(s[s.len() - 1])));
    }
}

} // verus!
