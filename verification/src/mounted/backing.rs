//! The store behind the filesystem: the operations that answer its requests, and
//! what they mean for the files and for the versions.

use vstd::prelude::*;

use crate::add;
use crate::add::{Add, AddResult};
use crate::error::Error;
use crate::get;
use crate::get::{GetBytes, GetReader, PathStat, StatPath};
use crate::hash;
use crate::index;
use crate::index::{Row, Version, VersionInfo};
use crate::insertion;
use crate::laws;
use crate::list;
use crate::list::{CommonPrefixEntry, ListFolder, ListVersions, Listed};
use crate::mounted::dir;
use crate::mounted::laws as files;
use crate::mounted::laws::Files;
use crate::mounted::state::{TreeReply, TreeRequest};
use crate::path;
use crate::reader::BloxtreeReader;
use crate::removal_laws;
use crate::remove;
use crate::remove::RemovePath;
use crate::rows;
use crate::store::Source;
use crate::store_laws;
use crate::talk::{Reply, Step};
use crate::text;
use crate::world;
use crate::world::{Turn, World};

verus! {

// ---------------------------------------------------------------------------
// The store as files
// ---------------------------------------------------------------------------

/// The store behind the filesystem, and what the reader gives that is held, if
/// one is.
pub struct Backing {
    pub world: World,
    pub held: Option<Seq<u8>>,
}

/// The path has a version.
pub open spec fn is_there(w: World, path: Seq<char>) -> bool {
    world::versions_of(w.rows, path).len() > 0
}

/// The content of the latest version of a path.
pub open spec fn content_at(w: World, path: Seq<char>) -> Seq<u8> {
    w.blobs[world::versions_of(w.rows, path)[0].hash]
}

/// The contents of the latest versions.
pub open spec fn contents_of(w: World) -> Map<Seq<char>, Seq<u8>> {
    Map::new(|p: Seq<char>| is_there(w, p), |p: Seq<char>| content_at(w, p))
}

/// The store as the filesystem sees it.
pub open spec fn files_of(b: Backing) -> Files {
    Files { contents: contents_of(b.world), opened: b.held }
}

/// The blob that a row names is there, and has the hash that it is named by.
pub open spec fn has_its_blob(w: World, row: Row) -> bool {
    w.blobs.contains_key(row.hash) && hash::blake3_digest(w.blobs[row.hash]) == row.hash
}

/// The rows are in order, their paths are valid, and each has its blob.
pub open spec fn is_sound(w: World) -> bool {
    &&& world::in_order(w.rows)
    &&& removal_laws::paths_are_valid(w.rows)
    &&& forall|i: int| 0 <= i < w.rows.len() ==> has_its_blob(w, #[trigger] w.rows[i])
}

/// A store without rows is sound.
pub proof fn sound_at_first(w: World)
    requires
        w.rows.len() == 0,
    ensures
        is_sound(w),
{
}

// ---------------------------------------------------------------------------
// Answering
// ---------------------------------------------------------------------------

/// An operation of the store ran to its end: it began with the rows and blobs of
/// `w`, gave `r`, and left the world `end`.
pub open spec fn ran<T, R>(
    w: World,
    resumes: spec_fn(T, Reply, Step<T, R>) -> bool,
    turns: Seq<Turn<T, R>>,
    r: Result<R, Error>,
    end: World,
) -> bool {
    &&& world::is_run(resumes, turns)
    &&& store_laws::is_untouched(w, turns[0].world)
    &&& turns.last().step == Step::<T, R>::Done(r)
    &&& end == turns.last().world
}

/// The versions of a path were listed.
pub open spec fn lists_versions(
    w: World,
    path: Seq<char>,
    turns: Seq<Turn<ListVersions, Vec<VersionInfo>>>,
    r: Result<Vec<VersionInfo>, Error>,
    end: World,
) -> bool {
    &&& list::version_listing_starts(path, turns[0].step)
    &&& ran(w, |t, r, s| list::version_listing_resumes(t, r, s), turns, r, end)
}

/// A folder was listed.
pub open spec fn lists_folder(
    w: World,
    path: Seq<char>,
    turns: Seq<Turn<ListFolder, Vec<CommonPrefixEntry>>>,
    r: Result<Vec<CommonPrefixEntry>, Error>,
    end: World,
) -> bool {
    &&& list::folder_listing_starts(path, turns[0].step)
    &&& ran(w, |t, r, s| list::folder_listing_resumes(t, r, s), turns, r, end)
}

/// The metadata of a path were found out.
pub open spec fn stats(
    w: World,
    path: Seq<char>,
    turns: Seq<Turn<StatPath, Option<PathStat>>>,
    r: Result<Option<PathStat>, Error>,
    end: World,
) -> bool {
    &&& get::stat_starts(path, turns[0].step)
    &&& ran(w, |t, r, s| get::stat_resumes(t, r, s), turns, r, end)
}

/// The content of a path was got.
pub open spec fn gets(
    w: World,
    path: Seq<char>,
    turns: Seq<Turn<GetBytes, Option<Vec<u8>>>>,
    r: Result<Option<Vec<u8>>, Error>,
    end: World,
) -> bool {
    &&& get::bytes_start(path, turns[0].step)
    &&& ran(w, |t, r, s| get::bytes_resume(t, r, s), turns, r, end)
}

/// The latest version of a path was opened.
pub open spec fn opens(
    w: World,
    path: Seq<char>,
    turns: Seq<Turn<GetReader, Option<BloxtreeReader>>>,
    r: Result<Option<BloxtreeReader>, Error>,
    end: World,
) -> bool {
    &&& get::get_starts(path, turns[0].step)
    &&& ran(w, |t, r, s| get::get_resumes(t, r, s), turns, r, end)
}

/// Content was added under a path.
pub open spec fn adds(
    w: World,
    path: Seq<char>,
    content: Seq<u8>,
    source: Source,
    turns: Seq<Turn<Add, AddResult>>,
    r: Result<AddResult, Error>,
    end: World,
) -> bool {
    &&& add::add_starts(seq![path], source, turns[0].step)
    &&& store_laws::content_of(source, turns[0].world.input) == content
    &&& ran(w, |t, r, s| add::add_resumes(t, r, s), turns, r, end)
}

/// A path was removed with all its versions.
pub open spec fn removes(
    w: World,
    path: Seq<char>,
    turns: Seq<Turn<RemovePath, ()>>,
    r: Result<(), Error>,
    end: World,
) -> bool {
    &&& remove::removal_starts(path, None, turns[0].step)
    &&& ran(w, |t, r, s| remove::removal_resumes(t, r, s), turns, r, end)
}

/// What is held, and what comes back, when a path was opened.
pub open spec fn holds(
    b: Backing,
    r: Result<Option<BloxtreeReader>, Error>,
    reply: Result<bool, Error>,
    after: Backing,
) -> bool {
    match r {
        Ok(Some(_)) => reply == Ok::<bool, Error>(true) && after.held == Some(after.world.open),
        Ok(None) => reply == Ok::<bool, Error>(false) && after.held is None,
        Err(e) => reply == Err::<bool, Error>(e) && after.held == b.held,
    }
}

/// The reply to a request is what the operation of the store gave that answers
/// it, and `after` is what that left. A reader that is held is used up by adding
/// from it.
pub open spec fn answers(
    b: Backing,
    request: TreeRequest,
    reply: TreeReply,
    after: Backing,
) -> bool {
    match request {
        TreeRequest::Versions { path } => {
            &&& after.held == b.held
            &&& reply matches TreeReply::Versions(r)
            &&& exists|turns: Seq<Turn<ListVersions, Vec<VersionInfo>>>| #[trigger]
                lists_versions(b.world, path@, turns, r, after.world)
        },
        TreeRequest::Folder { path } => {
            &&& after.held == b.held
            &&& reply matches TreeReply::Folder(r)
            &&& exists|turns: Seq<Turn<ListFolder, Vec<CommonPrefixEntry>>>| #[trigger]
                lists_folder(b.world, path@, turns, r, after.world)
        },
        TreeRequest::Stat { path } => {
            &&& after.held == b.held
            &&& reply matches TreeReply::Stat(r)
            &&& exists|turns: Seq<Turn<StatPath, Option<PathStat>>>| #[trigger]
                stats(b.world, path@, turns, r, after.world)
        },
        TreeRequest::Bytes { path } => {
            &&& after.held == b.held
            &&& reply matches TreeReply::Bytes(r)
            &&& exists|turns: Seq<Turn<GetBytes, Option<Vec<u8>>>>| #[trigger]
                gets(b.world, path@, turns, r, after.world)
        },
        TreeRequest::Add { path, data } => {
            &&& after.held == b.held
            &&& reply matches TreeReply::Added(r)
            &&& exists|source: Source, turns: Seq<Turn<Add, AddResult>>| #[trigger]
                adds(b.world, path@, data@, source, turns, r, after.world)
        },
        TreeRequest::Remove { path } => {
            &&& after.held == b.held
            &&& reply matches TreeReply::Removed(r)
            &&& exists|turns: Seq<Turn<RemovePath, ()>>| #[trigger]
                removes(b.world, path@, turns, r, after.world)
        },
        TreeRequest::OpenReader { path } => {
            &&& reply matches TreeReply::Opened(o)
            &&& exists|
                turns: Seq<Turn<GetReader, Option<BloxtreeReader>>>,
                r: Result<Option<BloxtreeReader>, Error>,
            | #[trigger]
                opens(b.world, path@, turns, r, after.world) && holds(b, r, o, after)
        },
        TreeRequest::AddFromReader { path, limit } => {
            &&& after.held is None
            &&& reply matches TreeReply::Added(r)
            &&& match b.held {
                None => r is Err && after.world == b.world,
                Some(content) => exists|source: Source, turns: Seq<Turn<Add, AddResult>>| #[trigger]
                    adds(
                        b.world,
                        path@,
                        files::limited(content, limit),
                        source,
                        turns,
                        r,
                        after.world,
                    ),
            }
        },
    }
}

/// The identifier of a version that was added is newer than those before.
pub open spec fn is_timely(b: Backing, reply: TreeReply) -> bool {
    reply matches TreeReply::Added(Ok(result)) ==> insertion::is_new(b.world.rows, result.uuid@)
}

/// Content that is added has no other content's hash.
pub open spec fn is_apart(b: Backing, request: TreeRequest) -> bool {
    match request {
        TreeRequest::Add { data, .. } => laws::is_intact(b.world.blobs, data@),
        TreeRequest::AddFromReader { limit, .. } => b.held matches Some(content)
            ==> laws::is_intact(b.world.blobs, files::limited(content, limit)),
        _ => true,
    }
}

/// The versions of a path after a version was put on top of those of `at`.
pub open spec fn topped(
    before: Seq<Row>,
    at: Seq<char>,
    version: Version,
    path: Seq<char>,
) -> Seq<Version> {
    if path == at {
        seq![version] + world::versions_of(before, path)
    } else {
        world::versions_of(before, path)
    }
}

/// A version is put on top of those of one path, and the others stay.
pub open spec fn tops(before: Seq<Row>, after: Seq<Row>, at: Seq<char>, version: Version) -> bool {
    forall|p: Seq<char>| #[trigger]
        world::versions_of(after, p) == topped(before, at, version, p)
}

/// The versions of a path after those of `at` were removed.
pub open spec fn cleared(before: Seq<Row>, at: Seq<char>, path: Seq<char>) -> Seq<Version> {
    if path == at {
        Seq::empty()
    } else {
        world::versions_of(before, path)
    }
}

/// The versions of one path are removed, and the others stay.
pub open spec fn clears(before: Seq<Row>, after: Seq<Row>, at: Seq<char>) -> bool {
    forall|p: Seq<char>| #[trigger] world::versions_of(after, p) == cleared(before, at, p)
}

/// What a request did to the rows: an addition put the version on top that came
/// back, a removal took all versions, and all else changes no row.
pub open spec fn rows_follow(
    before: World,
    request: TreeRequest,
    reply: TreeReply,
    after: World,
) -> bool {
    match (request, reply) {
        (TreeRequest::Add { path, .. }, TreeReply::Added(Ok(result))) => tops(
            before.rows,
            after.rows,
            path@,
            Version { hash: result.hash@, uuid: result.uuid@ },
        ),
        (TreeRequest::AddFromReader { path, .. }, TreeReply::Added(Ok(result))) => tops(
            before.rows,
            after.rows,
            path@,
            Version { hash: result.hash@, uuid: result.uuid@ },
        ),
        (TreeRequest::Remove { path }, TreeReply::Removed(Ok(_))) => clears(
            before.rows,
            after.rows,
            path@,
        ),
        _ => after.rows == before.rows && after.blobs == before.blobs,
    }
}

/// An operation that is done at first had one turn.
pub proof fn done_at_once<T, R>(
    resumes: spec_fn(T, Reply, Step<T, R>) -> bool,
    turns: Seq<Turn<T, R>>,
)
    requires
        world::is_run(resumes, turns),
        turns[0].step is Done,
    ensures
        turns.len() == 1,
{
    if turns.len() > 1 {
        assert(world::leads_on(resumes, turns, 0));
    }
}

/// A version of a path is a row with the path.
pub proof fn version_is_a_row(all: Seq<Row>, path: Seq<char>, i: int) -> (k: int)
    requires
        0 <= i < world::versions_of(all, path).len(),
    ensures
        0 <= k < all.len(),
        all[k].path == path,
        world::versions_of(all, path)[i] == (Version { hash: all[k].hash, uuid: all[k].uuid }),
{
    let at = |r: Row| r.path == path;
    let found = all.filter(at);
    let row = found.reverse()[i];
    assert(found[found.len() - 1 - i] == row);
    assert(found.contains(row));
    rows::filter_contains(all, at, row);
    choose|k: int| 0 <= k < all.len() && all[k] == row
}

/// The path of a row has a version.
pub proof fn row_is_there(w: World, k: int)
    requires
        0 <= k < w.rows.len(),
    ensures
        is_there(w, w.rows[k].path),
{
    let path = w.rows[k].path;
    let at = |r: Row| r.path == path;
    assert(w.rows.contains(w.rows[k]));
    rows::filter_contains(w.rows, at, w.rows[k]);
    assert(w.rows.filter(at).len() > 0);
}

/// The latest version of a path that is there has its blob.
pub proof fn latest_has_its_blob(w: World, path: Seq<char>)
    requires
        is_sound(w),
        is_there(w, path),
    ensures
        w.blobs.contains_key(world::versions_of(w.rows, path)[0].hash),
        hash::blake3_digest(content_at(w, path)) == world::versions_of(w.rows, path)[0].hash,
        path::is_valid(path),
        laws::is_intact(w.blobs, content_at(w, path)),
{
    let k = version_is_a_row(w.rows, path, 0);
    assert(has_its_blob(w, w.rows[k]));
}

/// Rows and blobs that stay keep the files.
pub proof fn untouched_keeps_files(w: World, now: World)
    requires
        store_laws::is_untouched(w, now),
    ensures
        contents_of(now) == contents_of(w),
        is_sound(w) ==> is_sound(now),
{
    assert(contents_of(now) =~= contents_of(w));
    if is_sound(w) {
        assert forall|i: int| 0 <= i < now.rows.len() implies has_its_blob(
            now,
            #[trigger] now.rows[i],
        ) by {
            assert(has_its_blob(w, w.rows[i]));
        }
    }
}

/// What an addition does.
proof fn add_is_backed(
    w: World,
    path: Seq<char>,
    content: Seq<u8>,
    source: Source,
    turns: Seq<Turn<Add, AddResult>>,
    r: Result<AddResult, Error>,
    end: World,
)
    requires
        is_sound(w),
        adds(w, path, content, source, turns, r, end),
        r matches Ok(result) ==> insertion::is_new(w.rows, result.uuid@),
        laws::is_intact(w.blobs, content),
    ensures
        r is Ok <==> path::is_valid(path),
        r is Err ==> store_laws::is_untouched(w, end),
        r matches Ok(result) ==> {
            &&& result.hash@ == hash::blake3_digest(content)
            &&& tops(w.rows, end.rows, path, Version { hash: result.hash@, uuid: result.uuid@ })
            &&& contents_of(end) == contents_of(w).insert(path, content)
            &&& is_sound(end)
        },
{
    let resumes = |t: Add, r: Reply, s: Step<Add, AddResult>| add::add_resumes(t, r, s);
    let paths = seq![path];
    assert(paths.skip(1) =~= Seq::<Seq<char>>::empty());
    assert(add::first_problem(paths.skip(1)) is None);
    assert(add::first_problem(paths) == path::path_problem(path));
    if !path::is_valid(path) {
        done_at_once(resumes, turns);
    } else {
        let first = turns[0].world;
        store_laws::add_law(paths, source, turns);
        laws::add_keeps_the_rest(paths, source, turns);
        let result = r->Ok_0;
        let v = Version { hash: result.hash@, uuid: result.uuid@ };
        let h = hash::blake3_digest(content);
        assert(paths.contains(path)) by {
            assert(paths[0] == path);
        }
        assert forall|p: Seq<char>| #[trigger]
            world::versions_of(end.rows, p) == topped(w.rows, path, v, p) by {
            assert(paths.contains(p) <==> p == path);
        }
        assert(end.blobs[h] == content);
        assert forall|k: Seq<u8>| w.blobs.contains_key(k) implies #[trigger] end.blobs.contains_key(
            k,
        ) && end.blobs[k] == w.blobs[k] by {}
        assert forall|i: int| 0 <= i < end.rows.len() implies has_its_blob(
            end,
            #[trigger] end.rows[i],
        ) by {
            let x = end.rows[i];
            assert(end.rows.contains(x));
            insertion::with_version_holds(w.rows, paths, v.uuid, v.hash, x);
            if w.rows.contains(x) {
                let k = choose|k: int| 0 <= k < w.rows.len() && w.rows[k] == x;
                assert(has_its_blob(w, w.rows[k]));
            }
        }
        assert(contents_of(end) =~= contents_of(w).insert(path, content)) by {
            assert forall|p: Seq<char>| #[trigger] is_there(end, p) <==> (p == path || is_there(
                w,
                p,
            )) by {
                assert(world::versions_of(end.rows, p) == topped(w.rows, path, v, p));
            }
            assert forall|p: Seq<char>| is_there(end, p) implies #[trigger] content_at(end, p) == (
            if p == path {
                content
            } else {
                content_at(w, p)
            }) by {
                assert(world::versions_of(end.rows, p) == topped(w.rows, path, v, p));
                if p != path {
                    assert(is_there(w, p));
                    latest_has_its_blob(w, p);
                }
            }
        }
    }
}

/// What a removal does.
proof fn removal_is_backed(
    w: World,
    path: Seq<char>,
    turns: Seq<Turn<RemovePath, ()>>,
    r: Result<(), Error>,
    end: World,
)
    requires
        is_sound(w),
        w.rows.len() <= u32::MAX,
        removes(w, path, turns, r, end),
    ensures
        r is Ok <==> path::is_valid(path),
        r is Err ==> store_laws::is_untouched(w, end),
        r is Ok ==> {
            &&& clears(w.rows, end.rows, path)
            &&& contents_of(end) == contents_of(w).remove(path)
            &&& is_sound(end)
        },
{
    let resumes = |t: RemovePath, r: Reply, s: Step<RemovePath, ()>|
        remove::removal_resumes(t, r, s);
    if !path::is_valid(path) {
        done_at_once(resumes, turns);
    } else {
        removal_laws::remove_path_law(path, None, turns);
        let left = world::rows_off(w.rows, path);
        let off = |r: Row| r.path != path;
        assert(end.rows == left);
        assert forall|p: Seq<char>| #[trigger]
            world::versions_of(end.rows, p) == cleared(w.rows, path, p) by {
            laws::versions_after_removal(w.rows, path, p);
        }
        assert forall|i: int| 0 <= i < left.len() implies {
            &&& path::is_valid((#[trigger] end.rows[i]).path)
            &&& has_its_blob(end, end.rows[i])
            &&& end.blobs[end.rows[i].hash] == w.blobs[end.rows[i].hash]
        } by {
            let x = left[i];
            assert(left.contains(x));
            rows::filter_contains(w.rows, off, x);
            let k = choose|k: int| 0 <= k < w.rows.len() && w.rows[k] == x;
            assert(has_its_blob(w, w.rows[k]));
            assert(rows::names(left, x.hash));
        }
        laws::filter_in_order(w.rows, off);
        assert(contents_of(end) =~= contents_of(w).remove(path)) by {
            assert forall|p: Seq<char>| #[trigger] is_there(end, p) <==> (p != path && is_there(
                w,
                p,
            )) by {
                assert(world::versions_of(end.rows, p) == cleared(w.rows, path, p));
            }
            assert forall|p: Seq<char>| is_there(end, p) implies #[trigger] content_at(end, p)
                == content_at(w, p) by {
                assert(world::versions_of(end.rows, p) == cleared(w.rows, path, p));
                let k = version_is_a_row(end.rows, p, 0);
                assert(has_its_blob(end, end.rows[k]));
            }
        }
    }
}

/// What a listing of a folder tells.
proof fn folder_is_backed(
    w: World,
    folder: Seq<char>,
    held: Option<Seq<u8>>,
    turns: Seq<Turn<ListFolder, Vec<CommonPrefixEntry>>>,
    r: Result<Vec<CommonPrefixEntry>, Error>,
    end: World,
)
    requires
        is_sound(w),
        lists_folder(w, folder, turns, r, end),
    ensures
        store_laws::is_untouched(w, end),
        ({
            let f = files_of(Backing { world: w, held });
            if folder.len() == 0 || path::is_valid(folder) {
                &&& r matches Ok(v)
                &&& v@.len() > 0 <==> files::has_file_below(f, folder)
                &&& files::files_are_clean(f) ==> files::is_tree_listing(
                    f,
                    folder,
                    list::listed_views(v@),
                )
            } else {
                r is Err
            }
        }),
{
    let resumes = |t: ListFolder, r: Reply, s: Step<ListFolder, Vec<CommonPrefixEntry>>|
        list::folder_listing_resumes(t, r, s);
    let f = files_of(Backing { world: w, held });
    if folder.len() > 0 && !path::is_valid(folder) {
        done_at_once(resumes, turns);
    } else {
        store_laws::list_folder_law(folder, turns);
        let prefix = list::folder_prefix(folder);
        let below = |r: Row| text::has_prefix(r.path, prefix);
        let found = store_laws::rows_below(w.rows, prefix);
        let v = r->Ok_0@;
        let out = list::listed_views(v);
        laws::listing_of_nothing(folder, found, out);
        assert(v.len() == out.len());
        if found.len() > 0 {
            let x = found[0];
            assert(found.contains(x));
            rows::filter_contains(w.rows, below, x);
            let k = choose|k: int| 0 <= k < w.rows.len() && w.rows[k] == x;
            row_is_there(w, k);
            assert(f.contents.contains_key(x.path));
        }
        if files::has_file_below(f, folder) {
            let p = choose|p: Seq<char>|
                #![trigger f.contents.contains_key(p)]
                f.contents.contains_key(p) && text::has_prefix(p, prefix);
            let k = version_is_a_row(w.rows, p, 0);
            assert(w.rows.contains(w.rows[k]));
            rows::filter_contains(w.rows, below, w.rows[k]);
            assert(found.contains(w.rows[k]));
        }
        if files::files_are_clean(f) {
            clean_listing_is_backed(w, f, folder, out);
        }
    }
}

/// Some row lies below a path exactly if some file does.
proof fn below_is_backed(w: World, f: Files, p: Seq<char>)
    requires
        f.contents == contents_of(w),
        p.len() > 0,
    ensures
        laws::has_below(w.rows, p) <==> files::has_file_below(f, p),
{
    if laws::has_below(w.rows, p) {
        let k = choose|k: int|
            0 <= k < w.rows.len() && text::has_prefix((#[trigger] w.rows[k]).path, p.push('/'));
        row_is_there(w, k);
        assert(f.contents.contains_key(w.rows[k].path));
    }
    if files::has_file_below(f, p) {
        let q = choose|q: Seq<char>|
            #![trigger f.contents.contains_key(q)]
            f.contents.contains_key(q) && text::has_prefix(q, list::folder_prefix(p));
        let k = version_is_a_row(w.rows, q, 0);
        assert(text::has_prefix(w.rows[k].path, p.push('/')));
    }
}

/// What the listing of a folder holds, where no path has a double slash.
proof fn clean_listing_is_backed(w: World, f: Files, folder: Seq<char>, out: Seq<Listed>)
    requires
        is_sound(w),
        f.contents == contents_of(w),
        files::files_are_clean(f),
        folder.len() > 0 ==> path::is_valid(folder),
        list::lists_folder(
            folder,
            store_laws::rows_below(w.rows, list::folder_prefix(folder)),
            out,
        ),
    ensures
        files::is_tree_listing(f, folder, out),
{
    let prefix = list::folder_prefix(folder);
    assert(laws::paths_are_clean(w.rows)) by {
        assert forall|i: int| 0 <= i < w.rows.len() implies path::is_valid(
            (#[trigger] w.rows[i]).path,
        ) && laws::is_clean(w.rows[i].path) by {
            row_is_there(w, i);
            assert(f.contents.contains_key(w.rows[i].path));
        }
    }
    laws::listed_folder_is_latest(w.rows, folder, out);
    laws::listed_folder_covers(w.rows, folder, out);
    laws::listing_is_ascending(folder, store_laws::rows_below(w.rows, prefix), out);
    assert forall|i: int| 0 <= i < out.len() implies dir::is_child((#[trigger] out[i]).name(), folder)
        && match out[i] {
        Listed::CommonPrefix(p) => files::has_file_below(f, p),
        Listed::Path(row) => f.contents.contains_key(row.path) && !files::has_file_below(
            f,
            row.path,
        ),
    } by {
        let name = out[i].name();
        if folder.len() == 0 {
            assert(name.skip(0) =~= name);
        }
        below_is_backed(w, f, name);
    }
    assert forall|p: Seq<char>|
        #![trigger f.contents.contains_key(p)]
        f.contents.contains_key(p) && text::has_prefix(p, prefix) implies exists|i: int|
        0 <= i < out.len() && ((#[trigger] out[i]).name() == p || text::has_prefix(
            p,
            out[i].name().push('/'),
        )) by {
        let k = version_is_a_row(w.rows, p, 0);
        assert(text::has_prefix(w.rows[k].path, prefix));
    }
}

/// What the store answers is what its latest contents give, and its effect on
/// them is that of the request. The store stays sound, an addition puts one
/// version on top of those of its path, and a removal takes all of them.
pub proof fn answer_law(b: Backing, request: TreeRequest, reply: TreeReply, after: Backing)
    requires
        is_sound(b.world),
        b.world.rows.len() <= u32::MAX,
        answers(b, request, reply, after),
        is_timely(b, reply),
        is_apart(b, request),
    ensures
        files::tree_honest(files_of(b), request, reply),
        files_of(after) == files::tree_effect(files_of(b), request),
        is_sound(after.world),
        rows_follow(b.world, request, reply, after.world),
{
    let w = b.world;
    let f = files_of(b);
    match request {
        TreeRequest::Versions { path } => {
            let r = reply->Versions_0;
            let turns = choose|turns: Seq<Turn<ListVersions, Vec<VersionInfo>>>| #[trigger]
                lists_versions(w, path@, turns, r, after.world);
            if path::is_valid(path@) {
                store_laws::versions_law(path@, turns);
                assert(r->Ok_0@.len() == index::version_views(r->Ok_0@).len());
            } else {
                done_at_once(|t, r, s| list::version_listing_resumes(t, r, s), turns);
            }
            untouched_keeps_files(w, after.world);
        },
        TreeRequest::Folder { path } => {
            let r = reply->Folder_0;
            let turns = choose|turns: Seq<Turn<ListFolder, Vec<CommonPrefixEntry>>>| #[trigger]
                lists_folder(w, path@, turns, r, after.world);
            folder_is_backed(w, path@, b.held, turns, r, after.world);
            untouched_keeps_files(w, after.world);
        },
        TreeRequest::Stat { path } => {
            let r = reply->Stat_0;
            let turns = choose|turns: Seq<Turn<StatPath, Option<PathStat>>>| #[trigger]
                stats(w, path@, turns, r, after.world);
            if path::is_valid(path@) {
                store_laws::stat_path_law(path@, turns);
                if is_there(w, path@) {
                    latest_has_its_blob(w, path@);
                }
            } else {
                done_at_once(|t, r, s| get::stat_resumes(t, r, s), turns);
            }
            untouched_keeps_files(w, after.world);
        },
        TreeRequest::Bytes { path } => {
            let r = reply->Bytes_0;
            let turns = choose|turns: Seq<Turn<GetBytes, Option<Vec<u8>>>>| #[trigger]
                gets(w, path@, turns, r, after.world);
            if path::is_valid(path@) {
                store_laws::get_bytes_law(path@, turns);
                if is_there(w, path@) {
                    latest_has_its_blob(w, path@);
                }
            } else {
                done_at_once(|t, r, s| get::bytes_resume(t, r, s), turns);
            }
            untouched_keeps_files(w, after.world);
        },
        TreeRequest::Add { path, data } => {
            let r = reply->Added_0;
            let (source, turns) = choose|source: Source, turns: Seq<Turn<Add, AddResult>>| #[trigger]
                adds(w, path@, data@, source, turns, r, after.world);
            add_is_backed(w, path@, data@, source, turns, r, after.world);
            if r is Err {
                untouched_keeps_files(w, after.world);
            }
        },
        TreeRequest::Remove { path } => {
            let r = reply->Removed_0;
            let turns = choose|turns: Seq<Turn<RemovePath, ()>>| #[trigger]
                removes(w, path@, turns, r, after.world);
            removal_is_backed(w, path@, turns, r, after.world);
            if r is Err {
                untouched_keeps_files(w, after.world);
            }
        },
        TreeRequest::OpenReader { path } => {
            let o = reply->Opened_0;
            let (turns, r) = choose|
                turns: Seq<Turn<GetReader, Option<BloxtreeReader>>>,
                r: Result<Option<BloxtreeReader>, Error>,
            | #[trigger]
                opens(w, path@, turns, r, after.world) && holds(b, r, o, after);
            if path::is_valid(path@) {
                store_laws::get_reader_law(path@, turns);
                if is_there(w, path@) {
                    latest_has_its_blob(w, path@);
                }
            } else {
                done_at_once(|t, r, s| get::get_resumes(t, r, s), turns);
            }
            untouched_keeps_files(w, after.world);
        },
        TreeRequest::AddFromReader { path, limit } => {
            let r = reply->Added_0;
            if let Some(held) = b.held {
                let content = files::limited(held, limit);
                let (source, turns) = choose|
                    source: Source,
                    turns: Seq<Turn<Add, AddResult>>,
                | #[trigger]
                    adds(w, path@, content, source, turns, r, after.world);
                add_is_backed(w, path@, content, source, turns, r, after.world);
            }
            if r is Err {
                untouched_keeps_files(w, after.world);
            }
        },
    }
    assert(files_of(after) =~= files::tree_effect(f, request));
}

} // verus!
