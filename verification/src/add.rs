//! Adding content: it is stored as a blob, and a new version of each path is
//! recorded.

use vstd::prelude::*;
use vstd::string::*;

use crate::error;
use crate::error::Error;
use crate::hash;
use crate::index;
use crate::index::{insert_entries, Query};
use crate::path;
use crate::path::validate;
use crate::store;
use crate::store::{BlobStore, Source, StoreBlob, Stored};
use crate::talk;
use crate::talk::{confused, Reply, Request, Step};
use crate::uuid;
use crate::uuid::Uuid;

verus! {

/// What adding content gave.
#[derive(Debug, Clone, Copy)]
pub struct AddResult {
    pub hash: hash::Hash,
    pub uuid: Uuid,
    pub blob_already_existed: bool,
}

/// Adding content to the store.
#[derive(Debug)]
pub enum Add {
    /// The content is being stored.
    Storing { paths: Vec<String>, blob: StoreBlob },
    /// The versions are being recorded.
    Recording { result: AddResult },
}

/// Why the first bad path of the list is none, or `None` where all are good.
pub open spec fn first_problem(paths: Seq<Seq<char>>) -> Option<Seq<char>>
    decreases paths.len(),
{
    if paths.len() == 0 {
        None
    } else {
        match path::path_problem(paths[0]) {
            Some(why) => Some(why),
            None => first_problem(paths.skip(1)),
        }
    }
}

/// The first step of adding content under the paths.
pub open spec fn add_starts(
    paths: Seq<Seq<char>>,
    source: Source,
    step: Step<Add, AddResult>,
) -> bool {
    match first_problem(paths) {
        Some(why) => step matches Step::Done(Err(e)) && e@ == error::ErrorView::InvalidPath(why),
        None => if paths.len() == 0 {
            step matches Step::Done(Err(e)) && e@ == error::ErrorView::Other("no paths given"@)
        } else {
            &&& step matches Step::Ask(request, Add::Storing { paths: p, blob })
            &&& index::texts(p@) == paths
            &&& store::storing_starts(source, Step::<StoreBlob, Stored>::Ask(request, blob))
        },
    }
}

/// The step that records a version of each path under the given identifier.
pub open spec fn records(step: Step<Add, AddResult>, paths: Vec<String>, result: AddResult) -> bool {
    if paths@.len() == 0 {
        step == Step::<Add, AddResult>::Done(Ok(result))
    } else {
        step == Step::<Add, AddResult>::Ask(
            Request::Index(Query::Insert { paths, uuid: result.uuid, hash: result.hash }),
            Add::Recording { result },
        )
    }
}

/// The step that records a version of each path under a fresh identifier.
pub open spec fn records_fresh(
    step: Step<Add, AddResult>,
    paths: Vec<String>,
    hash: hash::Hash,
    existed: bool,
) -> bool {
    exists|result: AddResult|
        {
            &&& #[trigger] records(step, paths, result)
            &&& result.hash == hash
            &&& result.blob_already_existed == existed
            &&& uuid::is_version_seven(result.uuid@)
        }
}

/// The step of adding content when storing it is at `s`.
pub open spec fn add_goes_on(
    s: Step<StoreBlob, Stored>,
    paths: Vec<String>,
    next: Step<Add, AddResult>,
) -> bool {
    match s {
        Step::Ask(request, blob) => next == Step::<Add, AddResult>::Ask(
            request,
            Add::Storing { paths, blob },
        ),
        Step::Done(Err(e)) => next == Step::<Add, AddResult>::Done(Err(e)),
        Step::Done(Ok(stored)) => records_fresh(next, paths, stored.hash, stored.existed),
    }
}

/// The step of adding content after a reply.
pub open spec fn add_resumes(task: Add, reply: Reply, next: Step<Add, AddResult>) -> bool {
    match (task, reply) {
        (Add::Storing { paths, blob }, _) => exists|s: Step<StoreBlob, Stored>| #[trigger]
            store::storing_resumes(blob, reply, s) && add_goes_on(s, paths, next),
        (Add::Recording { result }, Reply::Changed(_)) => next == Step::<Add, AddResult>::Done(
            Ok(result),
        ),
        (_, Reply::Failed(e)) => next == Step::<Add, AddResult>::Done(Err(e)),
        _ => talk::is_confused(next),
    }
}

/// Records a version of each path under the given identifier.
pub fn record(paths: Vec<String>, result: AddResult) -> (r: Step<Add, AddResult>)
    ensures
        records(r, paths, result),
{
    match insert_entries(paths, result.hash, result.uuid) {
        None => Step::Done(Ok(result)),
        Some(query) => Step::Ask(Request::Index(query), Add::Recording { result }),
    }
}

/// Records a version of each path under a fresh identifier.
fn add_paths_to_index(paths: Vec<String>, hash: hash::Hash, already_existed: bool) -> (r: Step<
    Add,
    AddResult,
>)
    ensures
        records_fresh(r, paths, hash, already_existed),
{
    let uuid = Uuid::now_v7();
    record(paths, AddResult { hash, uuid, blob_already_existed: already_existed })
}

impl Add {
    /// Starts to add content under the paths.
    pub fn start(paths: Vec<String>, source: Source) -> (r: Step<Add, AddResult>)
        ensures
            add_starts(index::texts(paths@), source, r),
    {
        let ghost texts = index::texts(paths@);
        let mut i: usize = 0;
        proof {
            assert(texts.skip(0) =~= texts);
        }
        while i < paths.len()
            invariant
                i <= paths@.len(),
                texts == index::texts(paths@),
                first_problem(texts) == first_problem(texts.skip(i as int)),
            decreases paths@.len() - i,
        {
            proof {
                assert(texts.skip(i as int)[0] == paths@[i as int]@);
                assert(texts.skip(i as int).skip(1) =~= texts.skip(i as int + 1));
            }
            if let Err(e) = validate(paths[i].as_str()) {
                return Step::Done(Err(e));
            }
            i += 1;
        }
        if paths.len() == 0 {
            return Step::Done(Err(Error::Other("no paths given".to_owned())));
        }
        match BlobStore.add_reader(source) {
            Step::Ask(request, blob) => Step::Ask(request, Add::Storing { paths, blob }),
            Step::Done(_) => confused(),
        }
    }

    /// Goes on with the reply.
    pub fn resume(self, reply: Reply) -> (r: Step<Add, AddResult>)
        ensures
            add_resumes(self, reply, r),
    {
        match self {
            Add::Storing { paths, blob } => match blob.resume(reply) {
                Step::Ask(request, blob) => Step::Ask(request, Add::Storing { paths, blob }),
                Step::Done(Err(e)) => Step::Done(Err(e)),
                Step::Done(Ok(stored)) => add_paths_to_index(paths, stored.hash, stored.existed),
            },
            Add::Recording { result } => match reply {
                Reply::Failed(e) => Step::Done(Err(e)),
                Reply::Changed(_) => Step::Done(Ok(result)),
                _ => confused(),
            },
        }
    }
}

} // verus!
