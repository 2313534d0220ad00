//! The outside of the store as a mathematical value: the rows of the index, the
//! blobs, and what readers and the temporary file hold.

use vstd::prelude::*;
use vstd::utf8::*;

use crate::index;
use crate::index::{Query, Row, Value, Version};
use crate::store;
use crate::talk::{Reply, Request, Step};
use crate::text;
use crate::uuid;

verus! {

/// The outside of a store.
pub struct World {
    /// The rows of the index, by path and identifier.
    pub rows: Seq<Row>,
    /// The contents of the blobs, by hash.
    pub blobs: Map<Seq<u8>, Seq<u8>>,
    /// What the input still holds.
    pub input: Seq<u8>,
    /// What the temporary file holds, where there is one.
    pub temp: Option<Seq<u8>>,
    /// What the opened blob still holds.
    pub open: Seq<u8>,
}

/// The order of the rows: by path, then by identifier.
pub open spec fn row_before(a: Row, b: Row) -> bool {
    text::text_before(a.path, b.path) || (a.path == b.path && uuid::older(a.uuid, b.uuid))
}

/// The rows are in order, and no two have the same path and identifier.
pub open spec fn in_order(rows: Seq<Row>) -> bool {
    forall|i: int, j: int| 0 <= i < j < rows.len() ==> #[trigger] row_before(rows[i], rows[j])
}

/// The rows of a path, oldest first.
pub open spec fn rows_at(rows: Seq<Row>, path: Seq<char>) -> Seq<Row> {
    rows.filter(|r: Row| r.path == path)
}

/// The rows of all other paths.
pub open spec fn rows_off(rows: Seq<Row>, path: Seq<char>) -> Seq<Row> {
    rows.filter(|r: Row| r.path != path)
}

/// The rows with a hash.
pub open spec fn rows_with(rows: Seq<Row>, hash: Seq<u8>) -> Seq<Row> {
    rows.filter(|r: Row| r.hash == hash)
}

/// The versions of a path, newest first.
pub open spec fn versions_of(rows: Seq<Row>, path: Seq<char>) -> Seq<Version> {
    rows_at(rows, path).reverse().map_values(|r: Row| Version { hash: r.hash, uuid: r.uuid })
}

/// Row `i` is the first with this path and hash.
pub open spec fn is_first(rows: Seq<Row>, path: Seq<char>, hash: Seq<u8>, i: int) -> bool {
    &&& 0 <= i < rows.len()
    &&& rows[i].path == path && rows[i].hash == hash
    &&& forall|j: int| 0 <= j < i ==> !(#[trigger] rows[j].path == path && rows[j].hash == hash)
}

/// Some row has this path and hash.
pub open spec fn has_version(rows: Seq<Row>, path: Seq<char>, hash: Seq<u8>) -> bool {
    exists|i: int| is_first(rows, path, hash, i)
}

/// The rows without the first that has this path and hash.
pub open spec fn without_oldest(rows: Seq<Row>, path: Seq<char>, hash: Seq<u8>) -> Seq<Row> {
    if has_version(rows, path, hash) {
        rows.remove(choose|i: int| is_first(rows, path, hash, i))
    } else {
        rows
    }
}

/// The rows with `row` put in its place; nothing changes where its path and
/// identifier are already there.
pub open spec fn with_row(rows: Seq<Row>, row: Row) -> Seq<Row>
    decreases rows.len(),
{
    if rows.len() == 0 {
        seq![row]
    } else if row_before(rows.last(), row) {
        rows.push(row)
    } else if rows.last().path == row.path && rows.last().uuid == row.uuid {
        rows
    } else {
        with_row(rows.drop_last(), row).push(rows.last())
    }
}

/// The rows with a new version of each path.
pub open spec fn with_version(
    rows: Seq<Row>,
    paths: Seq<Seq<char>>,
    uuid: Seq<u8>,
    hash: Seq<u8>,
) -> Seq<Row>
    decreases paths.len(),
{
    if paths.len() == 0 {
        rows
    } else {
        with_row(
            with_version(rows, paths.drop_last(), uuid, hash),
            Row { path: paths.last(), uuid, hash },
        )
    }
}

/// `chunk` is what a read from `rest` may give: some of its bytes, and none
/// only at the end.
pub open spec fn is_chunk(chunk: Seq<u8>, rest: Seq<u8>) -> bool {
    &&& chunk.len() <= rest.len()
    &&& rest.take(chunk.len() as int) == chunk
    &&& chunk.len() == 0 ==> rest.len() == 0
}

/// The reply is what the database gives for the query.
pub open spec fn db_honest(rows: Seq<Row>, query: Query, reply: Reply) -> bool {
    match query {
        Query::Insert { .. } => reply is Changed,
        Query::Latest { path } => reply matches Reply::Versions(v) && {
            let all = versions_of(rows, path@);
            index::all_read(
                index::versions_in(v@),
                if all.len() == 0 {
                    all
                } else {
                    all.take(1)
                },
            )
        },
        Query::Versions { path } => reply matches Reply::Versions(v) && index::all_read(
            index::versions_in(v@),
            versions_of(rows, path@),
        ),
        Query::Prefix { start, end } => reply matches Reply::Entries(v) && index::all_read(
            index::entries_in(v@),
            rows.filter(|r: Row| index::in_range(encode_utf8(r.path), start@, end@)),
        ),
        Query::DeleteVersion { path, hash } => reply matches Reply::Changed(n) && (n > 0
            <==> has_version(rows, path@, hash@)),
        Query::Hashes { path } => reply matches Reply::Hashes(v) && exists|list: Seq<Seq<u8>>|
            {
                &&& #[trigger] index::all_read(index::hashes_in(v@), list)
                &&& list.no_duplicates()
                &&& forall|h: Seq<u8>|
                    #[trigger] list.contains(h) <==> has_version(rows, path@, h)
            },
        Query::DeletePath { .. } => reply is Changed,
        Query::RefCount { hash } => reply matches Reply::Count(Some(Value::Integer(n))) && n
            == rows_with(rows, hash@).len(),
        Query::Entries => reply matches Reply::Entries(v) && index::all_read(
            index::entries_in(v@),
            rows,
        ),
    }
}

/// A directory was made, or was there already.
pub open spec fn is_made(reply: Reply) -> bool {
    reply is Done || (reply matches Reply::Failed(e) && store::is_already_there(e))
}

/// The reply is what the outside gives where nothing goes wrong. A file that is
/// missing is reported as such.
pub open spec fn honest(w: World, request: Request, reply: Reply) -> bool {
    match request {
        Request::Index(query) => db_honest(w.rows, query, reply),
        Request::ReadInput => reply matches Reply::Chunk(c) && is_chunk(c@, w.input),
        Request::ReadBlob => reply matches Reply::Chunk(c) && is_chunk(c@, w.open),
        Request::BlobExists { hash } => reply == Reply::Answer(w.blobs.contains_key(hash@)),
        Request::OpenBlob { hash } => if w.blobs.contains_key(hash@) {
            reply is Done
        } else {
            reply matches Reply::Failed(e) && store::is_not_found(e)
        },
        Request::StatBlob { hash } => if w.blobs.contains_key(hash@) {
            reply matches Reply::Stat(st) && st.size == w.blobs[hash@].len()
        } else {
            reply matches Reply::Failed(e) && store::is_not_found(e)
        },
        Request::RemoveBlob { hash } => if w.blobs.contains_key(hash@) {
            reply is Done
        } else {
            reply matches Reply::Failed(e) && store::is_not_found(e)
        },
        Request::CreateDirectory { .. } => is_made(reply),
        Request::CreateBlobDirectory { .. } => is_made(reply),
        Request::RootExists => reply == Reply::Answer(true),
        Request::RootIsDirectory => reply == Reply::Answer(true),
        Request::IndexPathIsText => reply == Reply::Answer(true),
        _ => reply is Done,
    }
}

/// The rows after a query.
pub open spec fn db_effect(rows: Seq<Row>, query: Query) -> Seq<Row> {
    match query {
        Query::Insert { paths, uuid, hash } => with_version(
            rows,
            index::texts(paths@),
            uuid@,
            hash@,
        ),
        Query::DeleteVersion { path, hash } => without_oldest(rows, path@, hash@),
        Query::DeletePath { path } => rows_off(rows, path@),
        _ => rows,
    }
}

/// The world after a request with this reply.
pub open spec fn effect(w: World, request: Request, reply: Reply) -> World {
    match request {
        Request::Index(query) => World { rows: db_effect(w.rows, query), ..w },
        Request::CreateTemp => World { temp: Some(Seq::empty()), ..w },
        Request::ReadInput => World { input: w.input.skip(reply->Chunk_0@.len() as int), ..w },
        Request::WriteTemp { data } => World { temp: Some(w.temp->0 + data@), ..w },
        Request::PersistTemp { hash } => World {
            blobs: w.blobs.insert(hash@, w.temp->0),
            temp: None,
            ..w
        },
        Request::DiscardTemp => World { temp: None, ..w },
        Request::OpenBlob { hash } => if w.blobs.contains_key(hash@) {
            World { open: w.blobs[hash@], ..w }
        } else {
            w
        },
        Request::ReadBlob => World { open: w.open.skip(reply->Chunk_0@.len() as int), ..w },
        Request::RemoveBlob { hash } => World { blobs: w.blobs.remove(hash@), ..w },
        _ => w,
    }
}

/// One moment of a conversation: the world, where the operation stands, and the
/// reply that it is about to get.
pub struct Turn<T, R> {
    pub world: World,
    pub step: Step<T, R>,
    pub reply: Reply,
}

/// Turn `i` leads to the next: the operation asks, the reply is honest, the
/// request has its effect, and the operation resumes as it promises.
pub open spec fn leads_on<T, R>(
    resumes: spec_fn(T, Reply, Step<T, R>) -> bool,
    turns: Seq<Turn<T, R>>,
    i: int,
) -> bool {
    match turns[i].step {
        Step::Done(_) => false,
        Step::Ask(request, task) => {
            &&& honest(turns[i].world, request, turns[i].reply)
            &&& turns[i + 1].world == effect(turns[i].world, request, turns[i].reply)
            &&& resumes(task, turns[i].reply, turns[i + 1].step)
        },
    }
}

/// A conversation in which nothing goes wrong outside. `resumes` is what the
/// operation promises of its step after a reply.
pub open spec fn is_run<T, R>(
    resumes: spec_fn(T, Reply, Step<T, R>) -> bool,
    turns: Seq<Turn<T, R>>,
) -> bool {
    &&& turns.len() > 0
    &&& forall|i: int| 0 <= i < turns.len() - 1 ==> #[trigger] leads_on(resumes, turns, i)
}

/// `inv` survives every turn.
pub open spec fn is_kept<T, R>(
    resumes: spec_fn(T, Reply, Step<T, R>) -> bool,
    inv: spec_fn(World, Step<T, R>) -> bool,
) -> bool {
    forall|w: World, request: Request, task: T, reply: Reply, next: Step<T, R>|
        #![trigger inv(w, Step::Ask(request, task)), resumes(task, reply, next)]
        inv(w, Step::Ask(request, task)) && honest(w, request, reply) && resumes(task, reply, next)
            ==> inv(effect(w, request, reply), next)
}

/// What holds at the start and survives every turn holds throughout.
pub proof fn run_keeps<T, R>(
    resumes: spec_fn(T, Reply, Step<T, R>) -> bool,
    inv: spec_fn(World, Step<T, R>) -> bool,
    turns: Seq<Turn<T, R>>,
    k: int,
)
    requires
        is_run(resumes, turns),
        is_kept(resumes, inv),
        inv(turns[0].world, turns[0].step),
        0 <= k < turns.len(),
    ensures
        inv(turns[k].world, turns[k].step),
    decreases k,
{
    if k > 0 {
        run_keeps(resumes, inv, turns, k - 1);
        assert(leads_on(resumes, turns, k - 1));
        match turns[k - 1].step {
            Step::Done(_) => {},
            Step::Ask(request, task) => {
                assert(inv(turns[k - 1].world, Step::Ask(request, task)));
                assert(resumes(task, turns[k - 1].reply, turns[k].step));
            },
        }
    }
}

} // verus!
