//! Listings: what lies directly below a folder, all paths, and the versions of
//! a path.

use vstd::prelude::*;
use vstd::string::*;

use crate::error;
use crate::hash;
use crate::index;
use crate::index::{
    prefix_range, read_entries, read_versions, Entry, Query, Row, VersionInfo,
};
use crate::path;
use crate::path::validate;
use crate::talk;
use crate::talk::{confused, Reply, Request, Step};
use crate::text;
use crate::text::{chars_of, relate, same_text, slice_of, text_of, Relation};
use crate::uuid;
use crate::uuid::Uuid;

verus! {

/// A path with its latest version.
#[derive(Debug)]
pub struct PathEntry {
    pub path: String,
    pub hash: hash::Hash,
    pub uuid: Uuid,
}

impl View for PathEntry {
    type V = Row;

    open spec fn view(&self) -> Row {
        Row { path: self.path@, uuid: self.uuid@, hash: self.hash@ }
    }
}

/// What a folder directly holds: a common prefix of deeper or of several paths, or
/// a path.
#[derive(Debug)]
pub enum CommonPrefixEntry {
    CommonPrefix { path: String },
    Path(PathEntry),
}

/// What a folder directly holds, over mathematical values.
pub enum Listed {
    CommonPrefix(Seq<char>),
    Path(Row),
}

impl View for CommonPrefixEntry {
    type V = Listed;

    open spec fn view(&self) -> Listed {
        match *self {
            CommonPrefixEntry::CommonPrefix { path } => Listed::CommonPrefix(path@),
            CommonPrefixEntry::Path(entry) => Listed::Path(entry@),
        }
    }
}

impl Listed {
    /// The path that is listed.
    pub open spec fn name(self) -> Seq<char> {
        match self {
            Listed::CommonPrefix(path) => path,
            Listed::Path(row) => row.path,
        }
    }
}

/// The views of a folder listing.
pub open spec fn listed_views(list: Seq<CommonPrefixEntry>) -> Seq<Listed> {
    list.map_values(|e: CommonPrefixEntry| e@)
}

/// The views of a list of paths.
pub open spec fn path_views(list: Seq<PathEntry>) -> Seq<Row> {
    list.map_values(|e: PathEntry| e@)
}

// ---------------------------------------------------------------------------
// Grouping
// ---------------------------------------------------------------------------

/// A row under the name that it is listed by. `path` is the path of the row, and
/// `nested` says that it goes on below the name.
pub struct Item {
    pub name: Seq<char>,
    pub path: Seq<char>,
    pub nested: bool,
    pub hash: Seq<u8>,
    pub uuid: Seq<u8>,
}

/// Item `i` has the name, and is the newest that has: the first of them, where
/// several have the newest identifier.
pub open spec fn is_newest(items: Seq<Item>, name: Seq<char>, i: int) -> bool {
    &&& 0 <= i < items.len()
    &&& items[i].name == name
    &&& forall|j: int|
        0 <= j < i && (#[trigger] items[j]).name == name ==> uuid::older(items[j].uuid, items[i].uuid)
    &&& forall|j: int|
        i < j < items.len() && (#[trigger] items[j]).name == name ==> !uuid::older(
            items[i].uuid,
            items[j].uuid,
        )
}

/// Some item with the name goes on below it.
pub open spec fn goes_below(items: Seq<Item>, name: Seq<char>) -> bool {
    exists|i: int| 0 <= i < items.len() && (#[trigger] items[i]).name == name && items[i].nested
}

/// Some item with the name has another path than this.
pub open spec fn has_other(items: Seq<Item>, name: Seq<char>, path: Seq<char>) -> bool {
    exists|i: int|
        0 <= i < items.len() && (#[trigger] items[i]).name == name && items[i].path != path
}

/// Different paths have the name: they differ in the slashes before it alone.
pub open spec fn is_shared(items: Seq<Item>, name: Seq<char>) -> bool {
    exists|i: int|
        0 <= i < items.len() && (#[trigger] items[i]).name == name && has_other(
            items,
            name,
            items[i].path,
        )
}

/// The name stands for more than one path: some item with it goes on below it, or
/// different paths have it.
pub open spec fn is_nested(items: Seq<Item>, name: Seq<char>) -> bool {
    goes_below(items, name) || is_shared(items, name)
}

/// Some item has the name.
pub open spec fn is_named(items: Seq<Item>, name: Seq<char>) -> bool {
    exists|i: int| 0 <= i < items.len() && (#[trigger] items[i]).name == name
}

/// The item has the path, the hash and the identifier of the newest of its name,
/// which is item `i`.
pub open spec fn is_like_newest(items: Seq<Item>, one: Item, i: int) -> bool {
    &&& is_newest(items, one.name, i)
    &&& one.path == items[i].path
    &&& one.hash == items[i].hash
    &&& one.uuid == items[i].uuid
}

/// One item for each name: nested if the name stands for more than one path, and
/// else like the newest with the name.
pub open spec fn sums_up(items: Seq<Item>, one: Item) -> bool {
    &&& one.nested == is_nested(items, one.name)
    &&& exists|i: int| is_like_newest(items, one, i)
}

/// `groups` holds each name once, in order, and sums up what has it.
pub open spec fn is_grouped(items: Seq<Item>, groups: Seq<Item>) -> bool {
    &&& is_sorted(groups)
    &&& forall|i: int| 0 <= i < groups.len() ==> sums_up(items, #[trigger] groups[i])
    &&& forall|i: int| 0 <= i < items.len() ==> is_named(groups, (#[trigger] items[i]).name)
}

/// A row under the name that it is listed by.
#[derive(Debug)]
pub struct Group {
    pub name: String,
    pub path: String,
    pub nested: bool,
    pub hash: hash::Hash,
    pub uuid: Uuid,
}

impl View for Group {
    type V = Item;

    open spec fn view(&self) -> Item {
        Item {
            name: self.name@,
            path: self.path@,
            nested: self.nested,
            hash: self.hash@,
            uuid: self.uuid@,
        }
    }
}

/// The views of a list of groups.
pub open spec fn group_views(list: Seq<Group>) -> Seq<Item> {
    list.map_values(|g: Group| g@)
}

/// The names come in order, each once.
pub open spec fn is_sorted(groups: Seq<Item>) -> bool {
    forall|i: int, j: int|
        0 <= i < j < groups.len() ==> text::text_before(
            (#[trigger] groups[i]).name,
            (#[trigger] groups[j]).name,
        )
}

/// What one item more does to the paths that a name stands for.
proof fn nested_with_more(items: Seq<Item>, name: Seq<char>, x: Item)
    ensures
        x.name != name ==> is_nested(items.push(x), name) == is_nested(items, name),
        x.name == name ==> is_nested(items.push(x), name) == (is_nested(items, name) || x.nested
            || has_other(items, name, x.path)),
{
    let more = items.push(x);
    let n = items.len() as int;
    assert(more[n] == x);
    assert forall|p: Seq<char>| #[trigger]
        has_other(more, name, p) == (has_other(items, name, p) || (x.name == name && x.path
            != p)) by {
        if has_other(items, name, p) {
            let k = choose|k: int|
                0 <= k < n && (#[trigger] items[k]).name == name && items[k].path != p;
            assert(more[k] == items[k]);
        }
        if has_other(more, name, p) {
            let k = choose|k: int|
                0 <= k < more.len() && (#[trigger] more[k]).name == name && more[k].path != p;
            if k < n {
                assert(more[k] == items[k]);
            }
        }
    }
    if goes_below(items, name) {
        let k = choose|k: int|
            0 <= k < n && (#[trigger] items[k]).name == name && items[k].nested;
        assert(more[k] == items[k]);
    }
    if goes_below(more, name) {
        let k = choose|k: int|
            0 <= k < more.len() && (#[trigger] more[k]).name == name && more[k].nested;
        if k < n {
            assert(more[k] == items[k]);
        }
    }
    if is_shared(items, name) {
        let k = choose|k: int|
            0 <= k < n && (#[trigger] items[k]).name == name && has_other(
                items,
                name,
                items[k].path,
            );
        assert(more[k] == items[k]);
        assert(has_other(more, name, more[k].path));
    }
    if x.name == name && has_other(items, name, x.path) {
        assert(has_other(more, name, more[n].path));
    }
    if is_shared(more, name) {
        let k = choose|k: int|
            0 <= k < more.len() && (#[trigger] more[k]).name == name && has_other(
                more,
                name,
                more[k].path,
            );
        if k < n {
            assert(more[k] == items[k]);
            if has_other(items, name, items[k].path) {
                assert(is_shared(items, name));
            } else {
                assert(x.name == name && x.path != items[k].path);
                assert(has_other(items, name, x.path));
            }
        }
    }
}

/// An item of another name changes nothing.
proof fn other_changes_nothing(items: Seq<Item>, one: Item, x: Item)
    requires
        sums_up(items, one),
        x.name != one.name,
    ensures
        sums_up(items.push(x), one),
{
    let more = items.push(x);
    let i = choose|i: int| is_like_newest(items, one, i);
    assert(is_newest(more, one.name, i)) by {
        assert forall|j: int| 0 <= j < i && (#[trigger] more[j]).name == one.name implies uuid::older(
            more[j].uuid,
            more[i].uuid,
        ) by {
            assert(more[j] == items[j]);
        }
        assert forall|j: int| i < j < more.len() && (#[trigger] more[j]).name == one.name implies !uuid::older(
            more[i].uuid,
            more[j].uuid,
        ) by {
            assert(j < items.len());
            assert(more[j] == items[j]);
        }
    }
    assert(is_like_newest(more, one, i));
    nested_with_more(items, one.name, x);
}

/// The first item of a name sums itself up.
proof fn first_sums_up(items: Seq<Item>, x: Item)
    requires
        !is_named(items, x.name),
    ensures
        sums_up(items.push(x), x),
{
    let more = items.push(x);
    let n = items.len() as int;
    assert forall|j: int| 0 <= j < n implies (#[trigger] more[j]).name != x.name by {
        assert(more[j] == items[j]);
    }
    assert(more[n] == x);
    assert(is_like_newest(more, x, n));
    nested_with_more(items, x.name, x);
}

/// What sums up one item more of the same name.
pub open spec fn joined(one: Item, x: Item) -> Item {
    let newer = uuid::older(one.uuid, x.uuid);
    Item {
        name: one.name,
        path: if newer {
            x.path
        } else {
            one.path
        },
        nested: one.nested || x.nested || one.path != x.path,
        hash: if newer {
            x.hash
        } else {
            one.hash
        },
        uuid: if newer {
            x.uuid
        } else {
            one.uuid
        },
    }
}

/// An item of the same name is joined.
proof fn same_is_joined(items: Seq<Item>, one: Item, x: Item)
    requires
        sums_up(items, one),
        x.name == one.name,
    ensures
        sums_up(items.push(x), joined(one, x)),
{
    let more = items.push(x);
    let n = items.len() as int;
    let name = one.name;
    let i = choose|i: int| is_like_newest(items, one, i);
    let both = joined(one, x);
    assert(both.name == name);
    assert(more[n] == x);
    assert(more[i] == items[i]);
    if uuid::older(one.uuid, x.uuid) {
        assert forall|j: int| 0 <= j < n && (#[trigger] more[j]).name == name implies uuid::older(
            more[j].uuid,
            more[n].uuid,
        ) by {
            assert(more[j] == items[j]);
            let a = text::octets(items[j].uuid);
            let b = text::octets(items[i].uuid);
            let c = text::octets(x.uuid);
            if j < i {
                text::before_transitive(a, b, c);
            } else if j > i {
                text::before_total(a, b);
                if a != b {
                    text::before_transitive(a, b, c);
                }
            }
        }
        assert(is_like_newest(more, both, n));
    } else {
        assert forall|j: int| 0 <= j < i && (#[trigger] more[j]).name == name implies uuid::older(
            more[j].uuid,
            more[i].uuid,
        ) by {
            assert(more[j] == items[j]);
        }
        assert forall|j: int| i < j < more.len() && (#[trigger] more[j]).name == name implies !uuid::older(
            more[i].uuid,
            more[j].uuid,
        ) by {
            if j < n {
                assert(more[j] == items[j]);
            }
        }
        assert(is_like_newest(more, both, i));
    }
    nested_with_more(items, name, x);
    if one.path != x.path {
        assert(items[i].name == name && items[i].path != x.path);
    } else if has_other(items, name, x.path) {
        assert(items[i].name == name && has_other(items, name, items[i].path));
        assert(is_shared(items, name));
    }
}

/// Where a name stands or belongs among the groups, and whether it is there.
fn place_of(groups: &Vec<Group>, name: &str) -> (r: (usize, bool))
    requires
        is_sorted(group_views(groups@)),
    ensures
        r.0 <= groups@.len(),
        forall|j: int| 0 <= j < r.0 ==> text::text_before((#[trigger] groups@[j]).name@, name@),
        r.1 ==> r.0 < groups@.len() && groups@[r.0 as int].name@ == name@,
        !r.1 ==> forall|j: int|
            r.0 <= j < groups@.len() ==> text::text_before(name@, (#[trigger] groups@[j]).name@),
{
    let mut lo: usize = 0;
    let mut hi: usize = groups.len();
    while lo < hi
        invariant
            is_sorted(group_views(groups@)),
            lo <= hi <= groups@.len(),
            forall|j: int| 0 <= j < lo ==> text::text_before((#[trigger] groups@[j]).name@, name@),
            forall|j: int|
                hi <= j < groups@.len() ==> text::text_before(name@, (#[trigger] groups@[j]).name@),
        decreases hi - lo,
    {
        let mid: usize = lo + (hi - lo) / 2;
        let ghost views = group_views(groups@);
        match relate(groups[mid].name.as_str(), name) {
            Relation::Same => {
                proof {
                    assert forall|j: int| 0 <= j < mid implies text::text_before(
                        (#[trigger] groups@[j]).name@,
                        name@,
                    ) by {
                        assert(text::text_before(views[j].name, views[mid as int].name));
                    }
                }
                return (mid, true);
            },
            Relation::Before => {
                proof {
                    assert forall|j: int| 0 <= j < mid + 1 implies text::text_before(
                        (#[trigger] groups@[j]).name@,
                        name@,
                    ) by {
                        if j < mid {
                            assert(text::text_before(views[j].name, views[mid as int].name));
                            text::before_transitive(
                                text::codes(views[j].name),
                                text::codes(views[mid as int].name),
                                text::codes(name@),
                            );
                        }
                    }
                }
                lo = mid + 1;
            },
            Relation::After => {
                proof {
                    assert forall|j: int| mid <= j < groups@.len() implies text::text_before(
                        name@,
                        (#[trigger] groups@[j]).name@,
                    ) by {
                        if j > mid {
                            assert(text::text_before(views[mid as int].name, views[j].name));
                            text::before_transitive(
                                text::codes(name@),
                                text::codes(views[mid as int].name),
                                text::codes(views[j].name),
                            );
                        }
                    }
                }
                hi = mid;
            },
        }
    }
    (lo, false)
}

/// Puts one item more among the groups.
fn group_in(groups: &mut Vec<Group>, x: Group)
    requires
        is_sorted(group_views(old(groups)@)),
    ensures
        is_sorted(group_views(final(groups)@)),
        forall|items: Seq<Item>| #[trigger]
            is_grouped(items, group_views(old(groups)@)) ==> is_grouped(
                items.push(x@),
                group_views(final(groups)@),
            ),
{
    let ghost before = group_views(groups@);
    let ghost item = x@;
    let (k, found) = place_of(groups, x.name.as_str());
    if found {
        let newer = groups[k].uuid.is_older_than(&x.uuid);
        let same = same_text(groups[k].path.as_str(), x.path.as_str());
        let g = Group {
            name: groups[k].name.clone(),
            path: if newer {
                x.path
            } else {
                groups[k].path.clone()
            },
            nested: groups[k].nested || x.nested || !same,
            hash: if newer {
                x.hash
            } else {
                groups[k].hash
            },
            uuid: if newer {
                x.uuid
            } else {
                groups[k].uuid
            },
        };
        groups.set(k, g);
        proof {
            let after = group_views(groups@);
            assert(after =~= before.update(k as int, joined(before[k as int], item)));
            assert forall|items: Seq<Item>| #[trigger] is_grouped(items, before) implies is_grouped(
                items.push(item),
                after,
            ) by {
                assert forall|i: int| 0 <= i < after.len() implies sums_up(
                    items.push(item),
                    #[trigger] after[i],
                ) by {
                    assert(sums_up(items, before[i]));
                    if i == k {
                        same_is_joined(items, before[i], item);
                    } else {
                        if i < k {
                            assert(text::text_before(before[i].name, before[k as int].name));
                        } else {
                            assert(text::text_before(before[k as int].name, before[i].name));
                        }
                        text::before_irreflexive(text::codes(item.name));
                        other_changes_nothing(items, before[i], item);
                    }
                }
                assert forall|i: int| 0 <= i < items.push(item).len() implies is_named(
                    after,
                    (#[trigger] items.push(item)[i]).name,
                ) by {
                    if i < items.len() {
                        assert(is_named(before, items[i].name));
                        let j = choose|j: int|
                            0 <= j < before.len() && (#[trigger] before[j]).name == items[i].name;
                        assert(after[j].name == items[i].name);
                    } else {
                        assert(after[k as int].name == item.name);
                    }
                }
            }
        }
    } else {
        groups.insert(k, x);
        proof {
            let after = group_views(groups@);
            assert(after =~= before.insert(k as int, item));
            assert forall|i: int, j: int| 0 <= i < j < after.len() implies text::text_before(
                (#[trigger] after[i]).name,
                (#[trigger] after[j]).name,
            ) by {
                let a = if i < k { i } else { i - 1 };
                let b = if j < k { j } else { j - 1 };
                if i != k && j != k {
                    assert(text::text_before(before[a].name, before[b].name));
                }
            }
            assert forall|items: Seq<Item>| #[trigger] is_grouped(items, before) implies is_grouped(
                items.push(item),
                after,
            ) by {
                assert(!is_named(before, item.name)) by {
                    text::before_irreflexive(text::codes(item.name));
                }
                assert(!is_named(items, item.name)) by {
                    if is_named(items, item.name) {
                        let i = choose|i: int|
                            0 <= i < items.len() && (#[trigger] items[i]).name == item.name;
                        assert(is_named(before, items[i].name));
                    }
                }
                assert forall|i: int| 0 <= i < after.len() implies sums_up(
                    items.push(item),
                    #[trigger] after[i],
                ) by {
                    if i == k {
                        first_sums_up(items, item);
                    } else {
                        let j = if i < k { i } else { i - 1 };
                        assert(after[i] == before[j]);
                        assert(sums_up(items, before[j]));
                        other_changes_nothing(items, before[j], item);
                    }
                }
                assert forall|i: int| 0 <= i < items.push(item).len() implies is_named(
                    after,
                    (#[trigger] items.push(item)[i]).name,
                ) by {
                    if i < items.len() {
                        assert(is_named(before, items[i].name));
                        let j = choose|j: int|
                            0 <= j < before.len() && (#[trigger] before[j]).name == items[i].name;
                        let m = if j < k { j } else { j + 1 };
                        assert(after[m].name == items[i].name);
                    } else {
                        assert(after[k as int].name == item.name);
                    }
                }
            }
        }
    }
}

// ---------------------------------------------------------------------------
// Folder listings
// ---------------------------------------------------------------------------

/// The text without the slashes that it begins with.
pub open spec fn without_slashes(s: Seq<char>) -> Seq<char>
    decreases s.len(),
{
    if s.len() > 0 && s[0] == '/' {
        without_slashes(s.skip(1))
    } else {
        s
    }
}

/// The text up to its first slash, or all of it.
pub open spec fn first_part(s: Seq<char>) -> Seq<char>
    decreases s.len(),
{
    if s.len() == 0 || s[0] == '/' {
        Seq::empty()
    } else {
        seq![s[0]] + first_part(s.skip(1))
    }
}

/// What follows the folder's name in a path, without the slashes between.
pub open spec fn rest_below(folder: Seq<char>, path: Seq<char>) -> Seq<char> {
    if folder.len() <= path.len() {
        without_slashes(path.skip(folder.len() as int))
    } else {
        Seq::empty()
    }
}

/// The path of a direct child of a folder; the root folder has an empty name.
pub open spec fn child_of(folder: Seq<char>, part: Seq<char>) -> Seq<char> {
    if folder.len() == 0 || folder.last() == '/' {
        folder + part
    } else {
        folder.push('/') + part
    }
}

/// A row under the direct child of the folder that it lies at or below.
pub open spec fn folder_item(folder: Seq<char>, row: Row) -> Item {
    let rest = rest_below(folder, row.path);
    Item {
        name: child_of(folder, first_part(rest)),
        path: row.path,
        nested: first_part(rest) != rest,
        hash: row.hash,
        uuid: row.uuid,
    }
}

/// The rows under the direct children of the folder.
pub open spec fn folder_items(folder: Seq<char>, rows: Seq<Row>) -> Seq<Item> {
    rows.map_values(|r: Row| folder_item(folder, r))
}

/// How a child is listed: as a common prefix where it stands for more than one
/// path, and else as a path with its latest version.
pub open spec fn listed_as(one: Item) -> Listed {
    if one.nested {
        Listed::CommonPrefix(one.name)
    } else {
        Listed::Path(Row { path: one.name, uuid: one.uuid, hash: one.hash })
    }
}

/// The names of a listing come in order, each once.
pub open spec fn is_ascending(out: Seq<Listed>) -> bool {
    forall|i: int, j: int|
        0 <= i < j < out.len() ==> text::text_before(
            (#[trigger] out[i]).name(),
            (#[trigger] out[j]).name(),
        )
}

/// `out` lists the direct children of the folder that the rows give it, each
/// once and in order.
pub open spec fn lists_folder(folder: Seq<char>, rows: Seq<Row>, out: Seq<Listed>) -> bool {
    exists|groups: Seq<Item>| #[trigger]
        is_grouped(folder_items(folder, rows), groups) && out == groups.map_values(
            |one: Item| listed_as(one),
        )
}

/// Past the slashes from `from` on.
fn past_slashes(chars: &Vec<char>, from: usize) -> (r: usize)
    requires
        from <= chars@.len(),
    ensures
        from <= r <= chars@.len(),
        chars@.skip(r as int) == without_slashes(chars@.skip(from as int)),
{
    let mut i: usize = from;
    while i < chars.len() && chars[i] == '/'
        invariant
            from <= i <= chars@.len(),
            without_slashes(chars@.skip(i as int)) == without_slashes(chars@.skip(from as int)),
        decreases chars@.len() - i,
    {
        proof {
            assert(chars@.skip(i as int).skip(1) =~= chars@.skip(i as int + 1));
        }
        i += 1;
    }
    i
}

/// The first part begins with what holds no slash.
pub proof fn first_part_from(s: Seq<char>, i: int)
    requires
        0 <= i <= s.len(),
        forall|j: int| 0 <= j < i ==> s[j] != '/',
    ensures
        first_part(s) == s.take(i) + first_part(s.skip(i)),
    decreases i,
{
    if i == 0 {
        assert(s.skip(0) =~= s);
        assert(s.take(0) + first_part(s) =~= first_part(s));
    } else {
        first_part_from(s.skip(1), i - 1);
        assert(s.skip(1).skip(i - 1) =~= s.skip(i));
        assert(s.take(i) =~= seq![s[0]] + s.skip(1).take(i - 1));
        assert(first_part(s) =~= s.take(i) + first_part(s.skip(i)));
    }
}

/// Where the part that begins at `from` ends.
fn part_end(chars: &Vec<char>, from: usize) -> (r: usize)
    requires
        from <= chars@.len(),
    ensures
        from <= r <= chars@.len(),
        chars@.subrange(from as int, r as int) == first_part(chars@.skip(from as int)),
{
    let mut i: usize = from;
    while i < chars.len() && chars[i] != '/'
        invariant
            from <= i <= chars@.len(),
            forall|j: int| from <= j < i ==> chars@[j] != '/',
        decreases chars@.len() - i,
    {
        i += 1;
    }
    proof {
        let s = chars@.skip(from as int);
        first_part_from(s, i - from);
        assert(s.take(i - from) =~= chars@.subrange(from as int, i as int));
        assert(first_part(s) =~= chars@.subrange(from as int, i as int));
    }
    i
}

/// The path of a direct child of a folder.
pub fn child_path(folder: &str, part: &str) -> (r: String)
    ensures
        r@ == child_of(folder@, part@),
{
    let chars = chars_of(folder);
    let mut r = folder.to_owned();
    if chars.len() > 0 && chars[chars.len() - 1] != '/' {
        r.push('/');
    }
    r.append(part);
    r
}

/// A row under the direct child of the folder that it lies at or below.
fn folder_group(folder: &str, folder_len: usize, entry: &Entry) -> (r: Group)
    requires
        folder_len == folder@.len(),
    ensures
        r@ == folder_item(folder@, entry@),
{
    let chars = chars_of(entry.path.as_str());
    let start: usize = if folder_len <= chars.len() {
        past_slashes(&chars, folder_len)
    } else {
        chars.len()
    };
    let end = part_end(&chars, start);
    let part = text_of(&slice_of(&chars, start, end));
    proof {
        let rest = rest_below(folder@, entry@.path);
        assert(chars@.skip(chars@.len() as int) =~= Seq::<char>::empty());
        assert(rest == chars@.skip(start as int));
        assert(part@ == first_part(rest));
        if end == chars@.len() {
            assert(part@ =~= rest);
        } else {
            assert(part@.len() < rest.len());
        }
    }
    Group {
        name: child_path(folder, part.as_str()),
        path: entry.path.clone(),
        nested: end < chars.len(),
        hash: entry.hash,
        uuid: entry.uuid,
    }
}

/// What a folder directly holds, given the rows below it.
pub fn folder_listing(folder: &str, entries: &Vec<Entry>) -> (r: Vec<CommonPrefixEntry>)
    ensures
        lists_folder(folder@, index::entry_views(entries@), listed_views(r@)),
{
    let folder_len: usize = chars_of(folder).len();
    let ghost rows = index::entry_views(entries@);
    let ghost items = folder_items(folder@, rows);
    let mut groups: Vec<Group> = Vec::new();
    let mut i: usize = 0;
    proof {
        assert(items.take(0) =~= Seq::<Item>::empty());
    }
    while i < entries.len()
        invariant
            folder_len == folder@.len(),
            i <= entries@.len(),
            rows == index::entry_views(entries@),
            items == folder_items(folder@, rows),
            is_grouped(items.take(i as int), group_views(groups@)),
        decreases entries@.len() - i,
    {
        let g = folder_group(folder, folder_len, &entries[i]);
        proof {
            assert(g@ == items[i as int]);
            assert(items.take(i as int).push(g@) =~= items.take(i as int + 1));
        }
        group_in(&mut groups, g);
        i += 1;
    }
    proof {
        assert(items.take(items.len() as int) =~= items);
    }
    let ghost views = group_views(groups@);
    let ghost listed = views.map_values(|one: Item| listed_as(one));
    let mut r: Vec<CommonPrefixEntry> = Vec::new();
    let mut k: usize = 0;
    while k < groups.len()
        invariant
            k <= groups@.len(),
            views == group_views(groups@),
            listed == views.map_values(|one: Item| listed_as(one)),
            listed_views(r@) == listed.take(k as int),
        decreases groups@.len() - k,
    {
        let g = &groups[k];
        let e = if g.nested {
            CommonPrefixEntry::CommonPrefix { path: g.name.clone() }
        } else {
            CommonPrefixEntry::Path(
                PathEntry { path: g.name.clone(), hash: g.hash, uuid: g.uuid },
            )
        };
        proof {
            assert(e@ == listed[k as int]);
            assert(listed.take(k as int).push(e@) =~= listed.take(k as int + 1));
            assert(listed_views(r@.push(e)) =~= listed_views(r@).push(e@));
        }
        r.push(e);
        k += 1;
    }
    proof {
        assert(listed.take(listed.len() as int) =~= listed);
    }
    r
}

// ---------------------------------------------------------------------------
// Path listings
// ---------------------------------------------------------------------------

/// The rows under their own paths.
pub open spec fn path_items(rows: Seq<Row>) -> Seq<Item> {
    rows.map_values(
        |r: Row|
            Item { name: r.path, path: r.path, nested: false, hash: r.hash, uuid: r.uuid },
    )
}

/// `out` lists each path of the rows once and in order, with its latest version.
pub open spec fn lists_paths(rows: Seq<Row>, out: Seq<Row>) -> bool {
    exists|groups: Seq<Item>| #[trigger]
        is_grouped(path_items(rows), groups) && out == groups.map_values(
            |one: Item| Row { path: one.name, uuid: one.uuid, hash: one.hash },
        )
}

/// All paths with their latest versions, given all rows.
pub fn path_listing(entries: &Vec<Entry>) -> (r: Vec<PathEntry>)
    ensures
        lists_paths(index::entry_views(entries@), path_views(r@)),
{
    let ghost rows = index::entry_views(entries@);
    let ghost items = path_items(rows);
    let mut groups: Vec<Group> = Vec::new();
    let mut i: usize = 0;
    proof {
        assert(items.take(0) =~= Seq::<Item>::empty());
    }
    while i < entries.len()
        invariant
            i <= entries@.len(),
            rows == index::entry_views(entries@),
            items == path_items(rows),
            is_grouped(items.take(i as int), group_views(groups@)),
        decreases entries@.len() - i,
    {
        let e = &entries[i];
        let g = Group {
            name: e.path.clone(),
            path: e.path.clone(),
            nested: false,
            hash: e.hash,
            uuid: e.uuid,
        };
        proof {
            assert(g@ == items[i as int]);
            assert(items.take(i as int).push(g@) =~= items.take(i as int + 1));
        }
        group_in(&mut groups, g);
        i += 1;
    }
    proof {
        assert(items.take(items.len() as int) =~= items);
    }
    let ghost views = group_views(groups@);
    let ghost listed = views.map_values(
        |one: Item| Row { path: one.name, uuid: one.uuid, hash: one.hash },
    );
    let mut r: Vec<PathEntry> = Vec::new();
    let mut k: usize = 0;
    while k < groups.len()
        invariant
            k <= groups@.len(),
            views == group_views(groups@),
            listed == views.map_values(
                |one: Item| Row { path: one.name, uuid: one.uuid, hash: one.hash },
            ),
            path_views(r@) == listed.take(k as int),
        decreases groups@.len() - k,
    {
        let g = &groups[k];
        let e = PathEntry { path: g.name.clone(), hash: g.hash, uuid: g.uuid };
        proof {
            assert(e@ == listed[k as int]);
            assert(listed.take(k as int).push(e@) =~= listed.take(k as int + 1));
            assert(path_views(r@.push(e)) =~= path_views(r@).push(e@));
        }
        r.push(e);
        k += 1;
    }
    proof {
        assert(listed.take(listed.len() as int) =~= listed);
    }
    r
}

// ---------------------------------------------------------------------------
// Conversations
// ---------------------------------------------------------------------------

/// Listing a folder.
#[derive(Debug)]
pub struct ListFolder {
    pub folder: String,
}

/// The prefix of the paths below a folder; the root folder has an empty name.
pub open spec fn folder_prefix(folder: Seq<char>) -> Seq<char> {
    if folder.len() == 0 {
        folder
    } else {
        folder.push('/')
    }
}

/// The first step of listing a folder.
pub open spec fn folder_listing_starts(
    folder: Seq<char>,
    step: Step<ListFolder, Vec<CommonPrefixEntry>>,
) -> bool {
    if folder.len() > 0 && !path::is_valid(folder) {
        step matches Step::Done(Err(e)) && e@ == error::ErrorView::InvalidPath(
            path::path_problem(folder)->0,
        )
    } else {
        &&& step matches Step::Ask(Request::Index(Query::Prefix { start, end }), t)
        &&& start@ == vstd::utf8::encode_utf8(folder_prefix(folder))
        &&& end@ == index::range_end(start@)
        &&& t.folder@ == folder
    }
}

/// The step of listing a folder after a reply.
pub open spec fn folder_listing_resumes(
    task: ListFolder,
    reply: Reply,
    next: Step<ListFolder, Vec<CommonPrefixEntry>>,
) -> bool {
    match reply {
        Reply::Failed(e) => next == Step::<ListFolder, Vec<CommonPrefixEntry>>::Done(Err(e)),
        Reply::Entries(v) => match next {
            Step::Ask(..) => false,
            Step::Done(Ok(out)) => exists|rows: Seq<Row>| #[trigger]
                index::all_read(index::entries_in(v@), rows) && lists_folder(
                    task.folder@,
                    rows,
                    listed_views(out@),
                ),
            Step::Done(Err(e)) => e@ matches error::ErrorView::Other(m) && index::first_failure(
                index::entries_in(v@),
                m,
            ),
        },
        _ => talk::is_confused(next),
    }
}

impl ListFolder {
    /// Starts to list what lies directly below `folder`; the empty name stands
    /// for the root.
    pub fn start(folder: &str) -> (r: Step<ListFolder, Vec<CommonPrefixEntry>>)
        ensures
            folder_listing_starts(folder@, r),
    {
        let mut prefix = folder.to_owned();
        if chars_of(folder).len() > 0 {
            if let Err(e) = validate(folder) {
                return Step::Done(Err(e));
            }
            prefix.push('/');
        }
        let (start, end) = prefix_range(prefix.as_str());
        Step::Ask(
            Request::Index(Query::Prefix { start, end }),
            ListFolder { folder: folder.to_owned() },
        )
    }

    /// Goes on with the reply.
    pub fn resume(self, reply: Reply) -> (r: Step<ListFolder, Vec<CommonPrefixEntry>>)
        ensures
            folder_listing_resumes(self, reply, r),
    {
        match reply {
            Reply::Failed(e) => Step::Done(Err(e)),
            Reply::Entries(v) => match read_entries(&v) {
                Err(e) => Step::Done(Err(e)),
                Ok(list) => Step::Done(Ok(folder_listing(self.folder.as_str(), &list))),
            },
            _ => confused(),
        }
    }
}

/// Listing all paths.
#[derive(Debug)]
pub struct ListPaths;

/// The first step of listing all paths.
pub open spec fn path_listing_starts(step: Step<ListPaths, Vec<PathEntry>>) -> bool {
    step == Step::<ListPaths, Vec<PathEntry>>::Ask(Request::Index(Query::Entries), ListPaths)
}

/// The step of listing all paths after a reply.
pub open spec fn path_listing_resumes(
    task: ListPaths,
    reply: Reply,
    next: Step<ListPaths, Vec<PathEntry>>,
) -> bool {
    match reply {
        Reply::Failed(e) => next == Step::<ListPaths, Vec<PathEntry>>::Done(Err(e)),
        Reply::Entries(v) => match next {
            Step::Ask(..) => false,
            Step::Done(Ok(out)) => exists|rows: Seq<Row>| #[trigger]
                index::all_read(index::entries_in(v@), rows) && lists_paths(rows, path_views(out@)),
            Step::Done(Err(e)) => e@ matches error::ErrorView::Other(m) && index::first_failure(
                index::entries_in(v@),
                m,
            ),
        },
        _ => talk::is_confused(next),
    }
}

impl ListPaths {
    /// Starts to list all paths with their latest versions.
    pub fn start() -> (r: Step<ListPaths, Vec<PathEntry>>)
        ensures
            path_listing_starts(r),
    {
        Step::Ask(Request::Index(Query::Entries), ListPaths)
    }

    /// Goes on with the reply.
    pub fn resume(self, reply: Reply) -> (r: Step<ListPaths, Vec<PathEntry>>)
        ensures
            path_listing_resumes(self, reply, r),
    {
        match reply {
            Reply::Failed(e) => Step::Done(Err(e)),
            Reply::Entries(v) => match read_entries(&v) {
                Err(e) => Step::Done(Err(e)),
                Ok(list) => Step::Done(Ok(path_listing(&list))),
            },
            _ => confused(),
        }
    }
}

/// Listing the versions of a path.
#[derive(Debug)]
pub struct ListVersions;

/// The first step of listing the versions of a path.
pub open spec fn version_listing_starts(
    path: Seq<char>,
    step: Step<ListVersions, Vec<VersionInfo>>,
) -> bool {
    match path::path_problem(path) {
        Some(why) => step matches Step::Done(Err(e)) && e@ == error::ErrorView::InvalidPath(why),
        None => {
            &&& step matches Step::Ask(Request::Index(Query::Versions { path: p }), _)
            &&& p@ == path
        },
    }
}

/// The step of listing the versions of a path after a reply.
pub open spec fn version_listing_resumes(
    task: ListVersions,
    reply: Reply,
    next: Step<ListVersions, Vec<VersionInfo>>,
) -> bool {
    match reply {
        Reply::Failed(e) => next == Step::<ListVersions, Vec<VersionInfo>>::Done(Err(e)),
        Reply::Versions(v) => match next {
            Step::Ask(..) => false,
            Step::Done(Ok(out)) => index::all_read(
                index::versions_in(v@),
                index::version_views(out@),
            ),
            Step::Done(Err(e)) => e@ matches error::ErrorView::Other(m) && index::first_failure(
                index::versions_in(v@),
                m,
            ),
        },
        _ => talk::is_confused(next),
    }
}

impl ListVersions {
    /// Starts to list the versions of `path`, newest first.
    pub fn start(path: &str) -> (r: Step<ListVersions, Vec<VersionInfo>>)
        ensures
            version_listing_starts(path@, r),
    {
        match validate(path) {
            Err(e) => Step::Done(Err(e)),
            Ok(_) => Step::Ask(
                Request::Index(Query::Versions { path: path.to_owned() }),
                ListVersions,
            ),
        }
    }

    /// Goes on with the reply.
    pub fn resume(self, reply: Reply) -> (r: Step<ListVersions, Vec<VersionInfo>>)
        ensures
            version_listing_resumes(self, reply, r),
    {
        match reply {
            Reply::Failed(e) => Step::Done(Err(e)),
            Reply::Versions(v) => match read_versions(&v) {
                Err(e) => Step::Done(Err(e)),
                Ok(list) => Step::Done(Ok(list)),
            },
            _ => confused(),
        }
    }
}

} // verus!
