//! What adding, getting and listing do to the store as a whole, and how they
//! fit together.

use vstd::prelude::*;

use crate::add;
use crate::add::{Add, AddResult};
use crate::error;
use crate::error::IoErrorKind;
use crate::get;
use crate::get::{GetBytes, GetReader, PathStat, StatPath};
use crate::hash;
use crate::index;
use crate::index::{Query, Row, Version, VersionInfo};
use crate::list;
use crate::list::{CommonPrefixEntry, ListFolder, ListPaths, ListVersions, PathEntry};
use crate::path;
use crate::reader;
use crate::reader::BloxtreeReader;
use crate::rows;
use crate::store;
use crate::store::{Source, StoreBlob, Stored};
use crate::talk::{Reply, Request, Step};
use crate::text;
use crate::tree;
use crate::tree::{Bloxtree, Open, OpenStage};
use crate::uuid;
use crate::world;
use crate::world::{Turn, World};

verus! {

// ---------------------------------------------------------------------------
// Opening
// ---------------------------------------------------------------------------

/// Where opening a store stands that began in the world `w`.
pub open spec fn opening_state(
    w: World,
    root: Seq<char>,
    now: World,
    step: Step<Open, Bloxtree>,
) -> bool {
    &&& now == w
    &&& match step {
        Step::Ask(_, t) => tree::opening_at(root, t.stage, step),
        Step::Done(r) => r matches Ok(bt) && bt.root@ == root,
    }
}

/// Opening is at every turn where it should be.
pub proof fn opening_turn(root: Seq<char>, turns: Seq<Turn<Open, Bloxtree>>, k: int)
    requires
        world::is_run(|t, r, s| tree::open_resumes(t, r, s), turns),
        tree::opening_at(root, OpenStage::FindingRoot, turns[0].step),
        0 <= k < turns.len(),
    ensures
        opening_state(turns[0].world, root, turns[k].world, turns[k].step),
{
    let resumes = |t: Open, r: Reply, s: Step<Open, Bloxtree>| tree::open_resumes(t, r, s);
    let w = turns[0].world;
    let inv = |now: World, step: Step<Open, Bloxtree>| opening_state(w, root, now, step);
    assert forall|
        now: World,
        request: Request,
        task: Open,
        reply: Reply,
        next: Step<Open, Bloxtree>,
    |
        #![trigger inv(now, Step::Ask(request, task)), resumes(task, reply, next)]
        inv(now, Step::Ask(request, task)) && world::honest(now, request, reply) && resumes(
            task,
            reply,
            next,
        ) implies inv(world::effect(now, request, reply), next) by {}
    world::run_keeps(resumes, inv, turns, k);
}

/// A store whose root exists opens, whether its directories are there or not,
/// and changes no row and no blob.
pub proof fn open_law(root: Seq<char>, turns: Seq<Turn<Open, Bloxtree>>)
    requires
        world::is_run(|t, r, s| tree::open_resumes(t, r, s), turns),
        tree::opening_at(root, OpenStage::FindingRoot, turns[0].step),
    ensures
        turns.last().step matches Step::Done(r) ==> r matches Ok(bt) && bt.root@ == root,
        turns.last().world == turns[0].world,
{
    opening_turn(root, turns, turns.len() - 1);
}

// ---------------------------------------------------------------------------
// Adding
// ---------------------------------------------------------------------------

/// The content that an addition takes from the source and the input.
pub open spec fn content_of(source: Source, input: Seq<u8>) -> Seq<u8> {
    match source {
        Source::Reader => input,
        Source::Bytes { data, at } => if at <= data@.len() {
            data@.skip(at as int)
        } else {
            Seq::empty()
        },
    }
}

/// The blobs when the content is stored: a blob that is there stays.
pub open spec fn stored(blobs: Map<Seq<u8>, Seq<u8>>, content: Seq<u8>) -> Map<Seq<u8>, Seq<u8>> {
    let h = hash::blake3_digest(content);
    if blobs.contains_key(h) {
        blobs
    } else {
        blobs.insert(h, content)
    }
}

/// What an addition gives back.
pub open spec fn is_result(w: World, content: Seq<u8>, result: AddResult) -> bool {
    &&& result.hash@ == hash::blake3_digest(content)
    &&& result.blob_already_existed == w.blobs.contains_key(hash::blake3_digest(content))
    &&& uuid::is_version_seven(result.uuid@)
}

/// Rows and blobs are as they were.
pub open spec fn is_untouched(w: World, now: World) -> bool {
    now.rows == w.rows && now.blobs == w.blobs
}

/// All of the content is in the temporary file and hashed.
pub open spec fn is_gathered(w: World, content: Seq<u8>, now: World, k: hash::Hash) -> bool {
    &&& k@ == hash::blake3_digest(content)
    &&& now.temp == Some(content)
    &&& is_untouched(w, now)
}

/// Where storing content stands that began in the world `w`.
pub open spec fn storing_state(
    w: World,
    content: Seq<u8>,
    now: World,
    step: Step<StoreBlob, Stored>,
) -> bool {
    let h = hash::blake3_digest(content);
    match step {
        Step::Ask(request, StoreBlob::Making { source }) => {
            &&& request is CreateTemp
            &&& is_untouched(w, now)
            &&& content_of(source, now.input) == content
        },
        Step::Ask(request, StoreBlob::Reading { source, digest }) => {
            &&& request is ReadInput
            &&& is_untouched(w, now)
            &&& source is Reader
            &&& now.temp == Some(digest@)
            &&& digest@ + now.input == content
        },
        Step::Ask(request, StoreBlob::Writing { source, digest }) => {
            &&& request matches Request::WriteTemp { data }
            &&& is_untouched(w, now)
            &&& now.temp matches Some(t)
            &&& t + data@ == digest@
            &&& digest@ + content_of(source, now.input) == content
        },
        Step::Ask(request, StoreBlob::Looking { hash: k }) => {
            &&& request == Request::BlobExists { hash: k }
            &&& is_gathered(w, content, now, k)
        },
        Step::Ask(request, StoreBlob::MakingDirectory { hash: k }) => {
            &&& request is CreateBlobDirectory
            &&& is_gathered(w, content, now, k)
            &&& !w.blobs.contains_key(h)
        },
        Step::Ask(request, StoreBlob::Syncing { hash: k }) => {
            &&& request is SyncTemp
            &&& is_gathered(w, content, now, k)
            &&& !w.blobs.contains_key(h)
        },
        Step::Ask(request, StoreBlob::Persisting { hash: k }) => {
            &&& request == Request::PersistTemp { hash: k }
            &&& is_gathered(w, content, now, k)
            &&& !w.blobs.contains_key(h)
        },
        Step::Ask(request, StoreBlob::Discarding { outcome }) => {
            &&& request is DiscardTemp
            &&& is_untouched(w, now)
            &&& outcome matches Ok(st)
            &&& st.hash@ == h
            &&& st.existed
            &&& w.blobs.contains_key(h)
        },
        Step::Done(r) => {
            &&& r matches Ok(st)
            &&& st.hash@ == h
            &&& st.existed == w.blobs.contains_key(h)
            &&& now.rows == w.rows
            &&& now.blobs == stored(w.blobs, content)
            &&& now.temp is None
        },
    }
}

/// Storing that took a chunk is where it should be.
proof fn taking_is_placed(
    w: World,
    content: Seq<u8>,
    now: World,
    source: Source,
    before: Seq<u8>,
    chunk: Seq<u8>,
    step: Step<StoreBlob, Stored>,
)
    requires
        is_untouched(w, now),
        now.temp == Some(before),
        before + chunk + content_of(source, now.input) == content,
        chunk.len() == 0 ==> content_of(source, now.input).len() == 0,
        store::takes(step, source, before, chunk),
    ensures
        storing_state(w, content, now, step),
{
    if chunk.len() == 0 {
        assert(before =~= content);
    }
}

/// Storing that goes on is where it should be.
proof fn going_on_is_placed(
    w: World,
    content: Seq<u8>,
    now: World,
    source: Source,
    before: Seq<u8>,
    step: Step<StoreBlob, Stored>,
)
    requires
        is_untouched(w, now),
        now.temp == Some(before),
        before + content_of(source, now.input) == content,
        store::goes_on(step, source, before),
    ensures
        storing_state(w, content, now, step),
{
    match source {
        Source::Reader => {},
        Source::Bytes { data, at } => {
            let chunk = store::next_bytes(data@, at as int);
            let k = choose|k: usize|
                k == at + chunk.len() && #[trigger] store::takes(
                    step,
                    Source::Bytes { data, at: k },
                    before,
                    chunk,
                );
            let rest = Source::Bytes { data, at: k };
            assert(content_of(source, now.input) =~= chunk + content_of(rest, now.input));
            assert(before + chunk + content_of(rest, now.input) =~= before + (chunk + content_of(
                rest,
                now.input,
            )));
            taking_is_placed(w, content, now, rest, before, chunk, step);
        },
    }
}

/// An honest reply takes storing on.
proof fn storing_step(
    w: World,
    content: Seq<u8>,
    now: World,
    request: Request,
    task: StoreBlob,
    reply: Reply,
    next: Step<StoreBlob, Stored>,
)
    requires
        storing_state(w, content, now, Step::Ask(request, task)),
        world::honest(now, request, reply),
        store::storing_resumes(task, reply, next),
    ensures
        storing_state(w, content, world::effect(now, request, reply), next),
{
    let then = world::effect(now, request, reply);
    match task {
        StoreBlob::Making { source } => {
            assert(Seq::<u8>::empty() + content_of(source, then.input) =~= content);
            going_on_is_placed(w, content, then, source, Seq::empty(), next);
        },
        StoreBlob::Reading { source, digest } => {
            let c = reply->Chunk_0@;
            assert(now.input =~= c + then.input) by {
                assert(now.input.take(c.len() as int) == c);
                assert(now.input =~= now.input.take(c.len() as int) + now.input.skip(
                    c.len() as int,
                ));
            }
            assert(digest@ + c + then.input =~= digest@ + now.input);
            taking_is_placed(w, content, then, source, digest@, c, next);
        },
        StoreBlob::Writing { source, digest } => {
            going_on_is_placed(w, content, then, source, digest@, next);
        },
        _ => {},
    }
}

/// Storing is at every turn where it should be.
pub proof fn storing_turn(
    source: Source,
    turns: Seq<Turn<StoreBlob, Stored>>,
    k: int,
)
    requires
        world::is_run(|t, r, s| store::storing_resumes(t, r, s), turns),
        store::storing_starts(source, turns[0].step),
        0 <= k < turns.len(),
    ensures
        storing_state(
            turns[0].world,
            content_of(source, turns[0].world.input),
            turns[k].world,
            turns[k].step,
        ),
{
    let resumes = |t: StoreBlob, r: Reply, s: Step<StoreBlob, Stored>|
        store::storing_resumes(t, r, s);
    let w = turns[0].world;
    let content = content_of(source, w.input);
    let inv = |now: World, step: Step<StoreBlob, Stored>| storing_state(w, content, now, step);
    assert forall|
        now: World,
        request: Request,
        task: StoreBlob,
        reply: Reply,
        next: Step<StoreBlob, Stored>,
    |
        #![trigger inv(now, Step::Ask(request, task)), resumes(task, reply, next)]
        inv(now, Step::Ask(request, task)) && world::honest(now, request, reply) && resumes(
            task,
            reply,
            next,
        ) implies inv(world::effect(now, request, reply), next) by {
        storing_step(w, content, now, request, task, reply, next);
    }
    world::run_keeps(resumes, inv, turns, k);
}

/// Storing content gives the blob named by its hash, unless it is there, and
/// says whether it was. Every other blob stays as it is, no row changes, and no
/// temporary file is left.
pub proof fn store_law(source: Source, turns: Seq<Turn<StoreBlob, Stored>>)
    requires
        world::is_run(|t, r, s| store::storing_resumes(t, r, s), turns),
        store::storing_starts(source, turns[0].step),
    ensures
        turns.last().step matches Step::Done(r) ==> {
            let w = turns[0].world;
            let now = turns.last().world;
            let content = content_of(source, w.input);
            let h = hash::blake3_digest(content);
            &&& r matches Ok(st)
            &&& st.hash@ == h
            &&& st.existed == w.blobs.contains_key(h)
            &&& now.rows == w.rows
            &&& now.blobs == stored(w.blobs, content)
            &&& now.temp is None
        },
{
    storing_turn(source, turns, turns.len() - 1);
}

/// Where an addition stands that began in the world `w`.
pub open spec fn add_state(
    w: World,
    paths: Seq<Seq<char>>,
    content: Seq<u8>,
    now: World,
    step: Step<Add, AddResult>,
) -> bool {
    match step {
        Step::Ask(request, Add::Storing { paths: p, blob }) => {
            &&& index::texts(p@) == paths
            &&& storing_state(w, content, now, Step::Ask(request, blob))
        },
        Step::Ask(request, Add::Recording { result }) => {
            &&& request matches Request::Index(Query::Insert { paths: p, uuid, hash: k })
            &&& index::texts(p@) == paths
            &&& uuid == result.uuid
            &&& k == result.hash
            &&& is_result(w, content, result)
            &&& now.rows == w.rows
            &&& now.blobs == stored(w.blobs, content)
            &&& now.temp is None
        },
        Step::Done(r) => {
            &&& r matches Ok(result)
            &&& is_result(w, content, result)
            &&& now.rows == world::with_version(
                w.rows,
                paths,
                result.uuid@,
                hash::blake3_digest(content),
            )
            &&& now.blobs == stored(w.blobs, content)
            &&& now.temp is None
        },
    }
}

/// An honest reply takes an addition on.
proof fn add_step(
    w: World,
    paths: Seq<Seq<char>>,
    content: Seq<u8>,
    now: World,
    request: Request,
    task: Add,
    reply: Reply,
    next: Step<Add, AddResult>,
)
    requires
        add_state(w, paths, content, now, Step::Ask(request, task)),
        paths.len() > 0,
        world::honest(now, request, reply),
        add::add_resumes(task, reply, next),
    ensures
        add_state(w, paths, content, world::effect(now, request, reply), next),
{
    match task {
        Add::Storing { paths: p, blob } => {
            let s = choose|s: Step<StoreBlob, Stored>| #[trigger]
                store::storing_resumes(blob, reply, s) && add::add_goes_on(s, p, next);
            storing_step(w, content, now, request, blob, reply, s);
            assert(p@.len() == index::texts(p@).len());
        },
        Add::Recording { .. } => {},
    }
}

/// An addition is at every turn where it should be.
pub proof fn add_turn(
    paths: Seq<Seq<char>>,
    source: Source,
    turns: Seq<Turn<Add, AddResult>>,
    k: int,
)
    requires
        world::is_run(|t, r, s| add::add_resumes(t, r, s), turns),
        paths.len() > 0,
        add::first_problem(paths) is None,
        add::add_starts(paths, source, turns[0].step),
        0 <= k < turns.len(),
    ensures
        add_state(
            turns[0].world,
            paths,
            content_of(source, turns[0].world.input),
            turns[k].world,
            turns[k].step,
        ),
{
    let resumes = |t: Add, r: Reply, s: Step<Add, AddResult>| add::add_resumes(t, r, s);
    let w = turns[0].world;
    let content = content_of(source, w.input);
    let inv = |now: World, step: Step<Add, AddResult>| add_state(w, paths, content, now, step);
    assert forall|now: World, request: Request, task: Add, reply: Reply, next: Step<Add, AddResult>|
        #![trigger inv(now, Step::Ask(request, task)), resumes(task, reply, next)]
        inv(now, Step::Ask(request, task)) && world::honest(now, request, reply) && resumes(
            task,
            reply,
            next,
        ) implies inv(world::effect(now, request, reply), next) by {
        add_step(w, paths, content, now, request, task, reply, next);
    }
    world::run_keeps(resumes, inv, turns, k);
}

/// Adding content stores it as the blob named by its hash, unless the blob is
/// there, and records one new version of each path. The result says whether the
/// blob was there. No temporary file is left.
pub proof fn add_law(paths: Seq<Seq<char>>, source: Source, turns: Seq<Turn<Add, AddResult>>)
    requires
        world::is_run(|t, r, s| add::add_resumes(t, r, s), turns),
        paths.len() > 0,
        add::first_problem(paths) is None,
        add::add_starts(paths, source, turns[0].step),
    ensures
        turns.last().step matches Step::Done(r) ==> {
            let w = turns[0].world;
            let content = content_of(source, w.input);
            &&& r matches Ok(result)
            &&& is_result(w, content, result)
            &&& turns.last().world.rows == world::with_version(
                w.rows,
                paths,
                result.uuid@,
                result.hash@,
            )
            &&& turns.last().world.blobs == stored(w.blobs, content)
            &&& turns.last().world.temp is None
        },
{
    add_turn(paths, source, turns, turns.len() - 1);
}

// ---------------------------------------------------------------------------
// Getting
// ---------------------------------------------------------------------------

/// What getting the bytes of a path gives: nothing where the path has no
/// version or its blob does not exist, the content of its latest version, or an
/// error where the content does not have the hash that it is named by.
pub open spec fn is_gotten(w: World, path: Seq<char>, r: Result<Option<Vec<u8>>, error::Error>) -> bool {
    let all = world::versions_of(w.rows, path);
    if all.len() == 0 || !w.blobs.contains_key(all[0].hash) {
        r == Ok::<Option<Vec<u8>>, error::Error>(None)
    } else {
        let content = w.blobs[all[0].hash];
        let actual = hash::blake3_digest(content);
        if actual == all[0].hash {
            r matches Ok(Some(b)) && b@ == content
        } else {
            r matches Err(e) && e@ == error::ErrorView::Io(
                IoErrorKind::InvalidData,
                error::ErrorView::HashMismatch { expected: all[0].hash, actual }.message(),
            )
        }
    }
}

/// Where getting bytes stands that began in the world `w`.
pub open spec fn get_state(
    w: World,
    path: Seq<char>,
    now: World,
    step: Step<GetBytes, Option<Vec<u8>>>,
) -> bool {
    let all = world::versions_of(w.rows, path);
    &&& is_untouched(w, now)
    &&& match step {
        Step::Ask(request, GetBytes::Finding(GetReader::Looking)) => {
            &&& request matches Request::Index(Query::Latest { path: p })
            &&& p@ == path
        },
        Step::Ask(request, GetBytes::Finding(GetReader::Opening { hash: h })) => {
            &&& request == Request::OpenBlob { hash: h }
            &&& all.len() > 0
            &&& h@ == all[0].hash
        },
        Step::Ask(request, GetBytes::Reading { reader, bytes }) => {
            &&& request is ReadBlob
            &&& all.len() > 0
            &&& w.blobs.contains_key(all[0].hash)
            &&& reader.expected@ == all[0].hash
            &&& !reader.verified
            &&& reader.digest@ == bytes@
            &&& bytes@ + now.open == w.blobs[all[0].hash]
        },
        Step::Done(r) => is_gotten(w, path, r),
    }
}

/// The first row of the answer to a query for the latest version.
proof fn latest_row(all: Seq<Version>, v: Seq<index::VersionRow>)
    requires
        index::all_read(
            index::versions_in(v),
            if all.len() == 0 {
                all
            } else {
                all.take(1)
            },
        ),
    ensures
        v.len() == 0 <==> all.len() == 0,
        v.len() > 0 ==> index::version_in(v[0]) == Ok::<Version, Seq<char>>(all[0]),
{
    let one = if all.len() == 0 {
        all
    } else {
        all.take(1)
    };
    assert(index::versions_in(v).len() == v.len());
    if v.len() > 0 {
        assert(index::versions_in(v)[0] == Ok::<Version, Seq<char>>(one[0]));
    }
}

/// An honest reply takes getting bytes on.
proof fn get_step(
    w: World,
    path: Seq<char>,
    now: World,
    request: Request,
    task: GetBytes,
    reply: Reply,
    next: Step<GetBytes, Option<Vec<u8>>>,
)
    requires
        get_state(w, path, now, Step::Ask(request, task)),
        world::honest(now, request, reply),
        get::bytes_resume(task, reply, next),
    ensures
        get_state(w, path, world::effect(now, request, reply), next),
{
    let all = world::versions_of(w.rows, path);
    let then = world::effect(now, request, reply);
    match task {
        GetBytes::Finding(t) => {
            let s = choose|s: Step<GetReader, Option<BloxtreeReader>>| #[trigger]
                get::get_resumes(t, reply, s) && get::finds(s, next);
            match t {
                GetReader::Looking => {
                    let v = reply->Versions_0@;
                    latest_row(all, v);
                    if all.len() > 0 {
                        let h = choose|h: hash::Hash|
                            h@ == all[0].hash && #[trigger] get::opens(s, h);
                    }
                },
                GetReader::Opening { hash: h } => {
                    match next {
                        Step::Ask(_, GetBytes::Reading { reader, bytes }) => {
                            assert(bytes@ + then.open =~= w.blobs[all[0].hash]);
                            assert(reader.digest@ =~= bytes@);
                        },
                        _ => {},
                    }
                },
            }
        },
        GetBytes::Reading { reader, bytes } => {
            let c = reply->Chunk_0@;
            assert(now.open =~= c + then.open) by {
                assert(now.open.take(c.len() as int) == c);
                assert(now.open =~= now.open.take(c.len() as int) + now.open.skip(c.len() as int));
            }
            assert(bytes@ + c + then.open =~= bytes@ + now.open);
            if c.len() == 0 {
                assert(bytes@ =~= w.blobs[all[0].hash]);
            }
        },
    }
}

/// Getting bytes is at every turn where it should be.
pub proof fn get_turn(
    path: Seq<char>,
    turns: Seq<Turn<GetBytes, Option<Vec<u8>>>>,
    k: int,
)
    requires
        world::is_run(|t, r, s| get::bytes_resume(t, r, s), turns),
        path::is_valid(path),
        get::bytes_start(path, turns[0].step),
        0 <= k < turns.len(),
    ensures
        get_state(turns[0].world, path, turns[k].world, turns[k].step),
{
    let resumes = |t: GetBytes, r: Reply, s: Step<GetBytes, Option<Vec<u8>>>|
        get::bytes_resume(t, r, s);
    let w = turns[0].world;
    let inv = |now: World, step: Step<GetBytes, Option<Vec<u8>>>| get_state(w, path, now, step);
    assert forall|
        now: World,
        request: Request,
        task: GetBytes,
        reply: Reply,
        next: Step<GetBytes, Option<Vec<u8>>>,
    |
        #![trigger inv(now, Step::Ask(request, task)), resumes(task, reply, next)]
        inv(now, Step::Ask(request, task)) && world::honest(now, request, reply) && resumes(
            task,
            reply,
            next,
        ) implies inv(world::effect(now, request, reply), next) by {
        get_step(w, path, now, request, task, reply, next);
    }
    world::run_keeps(resumes, inv, turns, k);
}

/// Getting the bytes of a path gives the content of its latest version, verified
/// against its hash, or nothing where there is none. The store is left as it is.
pub proof fn get_bytes_law(path: Seq<char>, turns: Seq<Turn<GetBytes, Option<Vec<u8>>>>)
    requires
        world::is_run(|t, r, s| get::bytes_resume(t, r, s), turns),
        path::is_valid(path),
        get::bytes_start(path, turns[0].step),
    ensures
        turns.last().step matches Step::Done(r) ==> is_gotten(turns[0].world, path, r),
        is_untouched(turns[0].world, turns.last().world),
{
    get_turn(path, turns, turns.len() - 1);
}

/// What opening the latest version of a path gives: nothing where the path has no
/// version or its blob does not exist, and else a reader that has read nothing and
/// has the content of the blob before it.
pub open spec fn is_opened(
    w: World,
    path: Seq<char>,
    now: World,
    r: Result<Option<BloxtreeReader>, error::Error>,
) -> bool {
    let all = world::versions_of(w.rows, path);
    if all.len() == 0 || !w.blobs.contains_key(all[0].hash) {
        r == Ok::<Option<BloxtreeReader>, error::Error>(None)
    } else {
        &&& r matches Ok(Some(reader))
        &&& reader.expected@ == all[0].hash
        &&& reader.digest@ == Seq::<u8>::empty()
        &&& !reader.verified
        &&& now.open == w.blobs[all[0].hash]
    }
}

/// Where opening the latest version stands that began in the world `w`.
pub open spec fn reader_state(
    w: World,
    path: Seq<char>,
    now: World,
    step: Step<GetReader, Option<BloxtreeReader>>,
) -> bool {
    let all = world::versions_of(w.rows, path);
    &&& is_untouched(w, now)
    &&& match step {
        Step::Ask(request, GetReader::Looking) => {
            &&& request matches Request::Index(Query::Latest { path: p })
            &&& p@ == path
        },
        Step::Ask(request, GetReader::Opening { hash: h }) => {
            &&& request == Request::OpenBlob { hash: h }
            &&& all.len() > 0
            &&& h@ == all[0].hash
        },
        Step::Done(r) => is_opened(w, path, now, r),
    }
}

/// Opening the latest version of a path gives a reader of its content, or nothing
/// where there is none. The store is left as it is.
pub proof fn get_reader_law(
    path: Seq<char>,
    turns: Seq<Turn<GetReader, Option<BloxtreeReader>>>,
)
    requires
        world::is_run(|t, r, s| get::get_resumes(t, r, s), turns),
        path::is_valid(path),
        get::get_starts(path, turns[0].step),
    ensures
        turns.last().step matches Step::Done(r) ==> is_opened(
            turns[0].world,
            path,
            turns.last().world,
            r,
        ),
        is_untouched(turns[0].world, turns.last().world),
{
    let resumes = |t: GetReader, r: Reply, s: Step<GetReader, Option<BloxtreeReader>>|
        get::get_resumes(t, r, s);
    let w = turns[0].world;
    let all = world::versions_of(w.rows, path);
    let inv = |now: World, step: Step<GetReader, Option<BloxtreeReader>>|
        reader_state(w, path, now, step);
    assert forall|
        now: World,
        request: Request,
        task: GetReader,
        reply: Reply,
        next: Step<GetReader, Option<BloxtreeReader>>,
    |
        #![trigger inv(now, Step::Ask(request, task)), resumes(task, reply, next)]
        inv(now, Step::Ask(request, task)) && world::honest(now, request, reply) && resumes(
            task,
            reply,
            next,
        ) implies inv(world::effect(now, request, reply), next) by {
        if task is Looking {
            latest_row(all, reply->Versions_0@);
            if all.len() > 0 {
                let h = choose|h: hash::Hash| h@ == all[0].hash && #[trigger] get::opens(next, h);
            }
        }
    }
    world::run_keeps(resumes, inv, turns, turns.len() - 1);
}

/// Opening a blob by its hash gives a reader of all of it that expects that hash,
/// or nothing where the blob does not exist. The store is left as it is.
pub proof fn get_by_hash_law(
    hash: hash::Hash,
    turns: Seq<Turn<GetReader, Option<BloxtreeReader>>>,
)
    requires
        world::is_run(|t, r, s| get::get_resumes(t, r, s), turns),
        get::opens(turns[0].step, hash),
    ensures
        turns.last().step matches Step::Done(r) ==> if turns[0].world.blobs.contains_key(hash@) {
            &&& r matches Ok(Some(reader))
            &&& reader.expected@ == hash@
            &&& reader.digest@ == Seq::<u8>::empty()
            &&& !reader.verified
            &&& turns.last().world.open == turns[0].world.blobs[hash@]
        } else {
            r == Ok::<Option<BloxtreeReader>, error::Error>(None)
        },
        is_untouched(turns[0].world, turns.last().world),
{
    let resumes = |t: GetReader, r: Reply, s: Step<GetReader, Option<BloxtreeReader>>|
        get::get_resumes(t, r, s);
    let w = turns[0].world;
    let inv = |now: World, step: Step<GetReader, Option<BloxtreeReader>>|
        {
            &&& is_untouched(w, now)
            &&& match step {
                Step::Ask(request, task) => {
                    &&& request == Request::OpenBlob { hash }
                    &&& task == GetReader::Opening { hash }
                },
                Step::Done(r) => if w.blobs.contains_key(hash@) {
                    &&& r matches Ok(Some(reader))
                    &&& reader.expected@ == hash@
                    &&& reader.digest@ == Seq::<u8>::empty()
                    &&& !reader.verified
                    &&& now.open == w.blobs[hash@]
                } else {
                    r == Ok::<Option<BloxtreeReader>, error::Error>(None)
                },
            }
        };
    world::run_keeps(resumes, inv, turns, turns.len() - 1);
}

// ---------------------------------------------------------------------------
// Metadata
// ---------------------------------------------------------------------------

/// What the metadata of a path says: nothing where the path has no version, and
/// else its latest version, the size of the blob and the number of rows with
/// its hash. A blob that does not exist is an error.
pub open spec fn is_stated(w: World, path: Seq<char>, r: Result<Option<PathStat>, error::Error>) -> bool {
    let all = world::versions_of(w.rows, path);
    if all.len() == 0 {
        r == Ok::<Option<PathStat>, error::Error>(None)
    } else if !w.blobs.contains_key(all[0].hash) {
        r matches Err(e) && store::is_not_found(e)
    } else {
        &&& r matches Ok(Some(st))
        &&& st.hash@ == all[0].hash
        &&& st.uuid@ == all[0].uuid
        &&& st.size == w.blobs[all[0].hash].len()
        &&& st.refcount == world::rows_with(w.rows, all[0].hash).len()
    }
}

/// Where finding out metadata stands that began in the world `w`.
pub open spec fn stat_state(
    w: World,
    path: Seq<char>,
    now: World,
    step: Step<StatPath, Option<PathStat>>,
) -> bool {
    let all = world::versions_of(w.rows, path);
    &&& now == w
    &&& match step {
        Step::Ask(request, StatPath::Looking) => {
            &&& request matches Request::Index(Query::Latest { path: p })
            &&& p@ == path
        },
        Step::Ask(request, StatPath::Stating { version }) => {
            &&& request == Request::StatBlob { hash: version.hash }
            &&& all.len() > 0
            &&& version@ == all[0]
        },
        Step::Ask(request, StatPath::Counting { version, blob }) => {
            &&& request == Request::Index(Query::RefCount { hash: version.hash })
            &&& all.len() > 0
            &&& version@ == all[0]
            &&& w.blobs.contains_key(all[0].hash)
            &&& blob.size == w.blobs[all[0].hash].len()
        },
        Step::Done(r) => is_stated(w, path, r),
    }
}

/// Finding out metadata is at every turn where it should be.
pub proof fn stat_turn(
    path: Seq<char>,
    turns: Seq<Turn<StatPath, Option<PathStat>>>,
    k: int,
)
    requires
        world::is_run(|t, r, s| get::stat_resumes(t, r, s), turns),
        path::is_valid(path),
        get::stat_starts(path, turns[0].step),
        turns[0].world.rows.len() <= u32::MAX,
        0 <= k < turns.len(),
    ensures
        stat_state(turns[0].world, path, turns[k].world, turns[k].step),
{
    let resumes = |t: StatPath, r: Reply, s: Step<StatPath, Option<PathStat>>|
        get::stat_resumes(t, r, s);
    let w = turns[0].world;
    let all = world::versions_of(w.rows, path);
    let inv = |now: World, step: Step<StatPath, Option<PathStat>>| stat_state(w, path, now, step);
    assert forall|
        now: World,
        request: Request,
        task: StatPath,
        reply: Reply,
        next: Step<StatPath, Option<PathStat>>,
    |
        #![trigger inv(now, Step::Ask(request, task)), resumes(task, reply, next)]
        inv(now, Step::Ask(request, task)) && world::honest(now, request, reply) && resumes(
            task,
            reply,
            next,
        ) implies inv(world::effect(now, request, reply), next) by {
        match task {
            StatPath::Looking => {
                latest_row(all, reply->Versions_0@);
            },
            StatPath::Stating { .. } => {},
            StatPath::Counting { version, .. } => {
                rows::count_of_named(w.rows, version.hash@);
            },
        }
    }
    world::run_keeps(resumes, inv, turns, k);
}

/// The metadata of a path are those of its latest version.
pub proof fn stat_path_law(path: Seq<char>, turns: Seq<Turn<StatPath, Option<PathStat>>>)
    requires
        world::is_run(|t, r, s| get::stat_resumes(t, r, s), turns),
        path::is_valid(path),
        get::stat_starts(path, turns[0].step),
        turns[0].world.rows.len() <= u32::MAX,
    ensures
        turns.last().step matches Step::Done(r) ==> is_stated(turns[0].world, path, r),
        turns.last().world == turns[0].world,
{
    stat_turn(path, turns, turns.len() - 1);
}

// ---------------------------------------------------------------------------
// Listing
// ---------------------------------------------------------------------------

/// The rows of the paths that begin with the prefix.
pub open spec fn rows_below(all: Seq<Row>, prefix: Seq<char>) -> Seq<Row> {
    all.filter(|r: Row| text::has_prefix(r.path, prefix))
}

/// Listing a folder lists what the rows below it give it, and changes nothing.
pub proof fn list_folder_law(
    folder: Seq<char>,
    turns: Seq<Turn<ListFolder, Vec<CommonPrefixEntry>>>,
)
    requires
        world::is_run(|t, r, s| list::folder_listing_resumes(t, r, s), turns),
        folder.len() > 0 ==> path::is_valid(folder),
        list::folder_listing_starts(folder, turns[0].step),
    ensures
        turns.last().step matches Step::Done(r) ==> r matches Ok(out) && list::lists_folder(
            folder,
            rows_below(turns[0].world.rows, list::folder_prefix(folder)),
            list::listed_views(out@),
        ),
        turns.last().world == turns[0].world,
{
    let resumes = |t: ListFolder, r: Reply, s: Step<ListFolder, Vec<CommonPrefixEntry>>|
        list::folder_listing_resumes(t, r, s);
    let w = turns[0].world;
    let prefix = list::folder_prefix(folder);
    let found = rows_below(w.rows, prefix);
    let inv = |now: World, step: Step<ListFolder, Vec<CommonPrefixEntry>>|
        now == w && match step {
            Step::Ask(request, t) => {
                &&& request matches Request::Index(Query::Prefix { start, end })
                &&& start@ == vstd::utf8::encode_utf8(prefix)
                &&& end@ == index::range_end(start@)
                &&& t.folder@ == folder
            },
            Step::Done(r) => r matches Ok(out) && list::lists_folder(
                folder,
                found,
                list::listed_views(out@),
            ),
        };
    assert forall|
        now: World,
        request: Request,
        task: ListFolder,
        reply: Reply,
        next: Step<ListFolder, Vec<CommonPrefixEntry>>,
    |
        #![trigger inv(now, Step::Ask(request, task)), resumes(task, reply, next)]
        inv(now, Step::Ask(request, task)) && world::honest(now, request, reply) && resumes(
            task,
            reply,
            next,
        ) implies inv(world::effect(now, request, reply), next) by {
        let v = reply->Entries_0@;
        let start = request->Index_0->Prefix_start@;
        let end = request->Index_0->Prefix_end@;
        let p = |r: Row| index::in_range(vstd::utf8::encode_utf8(r.path), start, end);
        let q = |r: Row| text::has_prefix(r.path, prefix);
        assert forall|i: int| 0 <= i < w.rows.len() implies p(#[trigger] w.rows[i]) == q(
            w.rows[i],
        ) by {
            index::prefix_range_is_exact(prefix, w.rows[i].path);
        }
        rows::filter_agrees(w.rows, p, q);
        assert(index::all_read(index::entries_in(v), found));
        assert forall|m: Seq<char>| !index::first_failure(index::entries_in(v), m) by {
            index::no_failure(index::entries_in(v), found, m);
        }
        if next matches Step::Done(Ok(out)) {
            let read = choose|read: Seq<Row>| #[trigger]
                index::all_read(index::entries_in(v), read) && list::lists_folder(
                    folder,
                    read,
                    list::listed_views(next->Done_0->Ok_0@),
                );
            index::readings_agree(index::entries_in(v), found, read);
        }
    }
    world::run_keeps(resumes, inv, turns, turns.len() - 1);
}

/// Listing all paths lists those of all rows, and changes nothing.
pub proof fn list_paths_law(turns: Seq<Turn<ListPaths, Vec<PathEntry>>>)
    requires
        world::is_run(|t, r, s| list::path_listing_resumes(t, r, s), turns),
        list::path_listing_starts(turns[0].step),
    ensures
        turns.last().step matches Step::Done(r) ==> r matches Ok(out) && list::lists_paths(
            turns[0].world.rows,
            list::path_views(out@),
        ),
        turns.last().world == turns[0].world,
{
    let resumes = |t: ListPaths, r: Reply, s: Step<ListPaths, Vec<PathEntry>>|
        list::path_listing_resumes(t, r, s);
    let w = turns[0].world;
    let inv = |now: World, step: Step<ListPaths, Vec<PathEntry>>|
        now == w && match step {
            Step::Ask(request, t) => request == Request::Index(Query::Entries),
            Step::Done(r) => r matches Ok(out) && list::lists_paths(
                w.rows,
                list::path_views(out@),
            ),
        };
    assert forall|
        now: World,
        request: Request,
        task: ListPaths,
        reply: Reply,
        next: Step<ListPaths, Vec<PathEntry>>,
    |
        #![trigger inv(now, Step::Ask(request, task)), resumes(task, reply, next)]
        inv(now, Step::Ask(request, task)) && world::honest(now, request, reply) && resumes(
            task,
            reply,
            next,
        ) implies inv(world::effect(now, request, reply), next) by {
        let v = reply->Entries_0@;
        assert forall|m: Seq<char>| !index::first_failure(index::entries_in(v), m) by {
            index::no_failure(index::entries_in(v), w.rows, m);
        }
        if next matches Step::Done(Ok(out)) {
            let read = choose|read: Seq<Row>| #[trigger]
                index::all_read(index::entries_in(v), read) && list::lists_paths(
                    read,
                    list::path_views(next->Done_0->Ok_0@),
                );
            index::readings_agree(index::entries_in(v), w.rows, read);
        }
    }
    world::run_keeps(resumes, inv, turns, turns.len() - 1);
}

/// The versions of a path are listed newest first; there are none for a path
/// without rows. Nothing changes.
pub proof fn versions_law(path: Seq<char>, turns: Seq<Turn<ListVersions, Vec<VersionInfo>>>)
    requires
        world::is_run(|t, r, s| list::version_listing_resumes(t, r, s), turns),
        path::is_valid(path),
        list::version_listing_starts(path, turns[0].step),
    ensures
        turns.last().step matches Step::Done(r) ==> r matches Ok(out) && index::version_views(out@)
            == world::versions_of(turns[0].world.rows, path),
        turns.last().world == turns[0].world,
{
    let resumes = |t: ListVersions, r: Reply, s: Step<ListVersions, Vec<VersionInfo>>|
        list::version_listing_resumes(t, r, s);
    let w = turns[0].world;
    let all = world::versions_of(w.rows, path);
    let inv = |now: World, step: Step<ListVersions, Vec<VersionInfo>>|
        now == w && match step {
            Step::Ask(request, t) => request matches Request::Index(Query::Versions { path: p })
                && p@ == path,
            Step::Done(r) => r matches Ok(out) && index::version_views(out@) == all,
        };
    assert forall|
        now: World,
        request: Request,
        task: ListVersions,
        reply: Reply,
        next: Step<ListVersions, Vec<VersionInfo>>,
    |
        #![trigger inv(now, Step::Ask(request, task)), resumes(task, reply, next)]
        inv(now, Step::Ask(request, task)) && world::honest(now, request, reply) && resumes(
            task,
            reply,
            next,
        ) implies inv(world::effect(now, request, reply), next) by {
        let v = reply->Versions_0@;
        assert forall|m: Seq<char>| !index::first_failure(index::versions_in(v), m) by {
            index::no_failure(index::versions_in(v), all, m);
        }
        if next matches Step::Done(Ok(out)) {
            index::readings_agree(
                index::versions_in(v),
                all,
                index::version_views(next->Done_0->Ok_0@),
            );
        }
    }
    world::run_keeps(resumes, inv, turns, turns.len() - 1);
}

} // verus!
