//! Removing versions, paths and folders.
//!
//! Rows are deleted from the index first. Then each hash that lost a row is
//! counted, and a blob that no row names any more is removed.

use vstd::prelude::*;
use vstd::string::*;

use crate::error;
use crate::hash;
use crate::index;
use crate::index::{prefix_range, read_entries, read_hashes, read_versions, value_to_count, Query};
use crate::path;
use crate::path::validate;
use crate::store;
use crate::store::not_found;
use crate::talk;
use crate::talk::{confused, Reply, Request, Step};

verus! {

// ---------------------------------------------------------------------------
// Sweeping blobs
// ---------------------------------------------------------------------------

/// Removing the blobs that are named no more, one hash after another.
#[derive(Debug)]
pub enum Sweep {
    /// The rows with `hashes[next]` are being counted.
    Counting { hashes: Vec<hash::Hash>, next: usize },
    /// The blob before `hashes[next]` is being removed.
    Removing { hashes: Vec<hash::Hash>, next: usize },
}

/// The sweep goes on with `hashes[next]`, or is over.
pub open spec fn sweeps(step: Step<Sweep, ()>, hashes: Seq<hash::Hash>, next: int) -> bool {
    if next < hashes.len() {
        &&& step matches Step::Ask(request, Sweep::Counting { hashes: h, next: n })
        &&& request == Request::Index(Query::RefCount { hash: hashes[next] })
        &&& h@ == hashes
        &&& n == next
    } else {
        step == Step::<Sweep, ()>::Done(Ok(()))
    }
}

/// The step of a sweep after a reply. A blob whose file is missing counts as
/// removed.
pub open spec fn sweep_resumes(task: Sweep, reply: Reply, next: Step<Sweep, ()>) -> bool {
    match (task, reply) {
        (Sweep::Counting { hashes, next: n }, Reply::Count(v)) => if n < hashes@.len() {
            match index::count_in(v) {
                Err(m) => next matches Step::Done(Err(e)) && e@ == error::ErrorView::Other(m),
                Ok(count) => if count == 0 {
                    &&& next matches Step::Ask(request, Sweep::Removing { hashes: h, next: k })
                    &&& request == Request::RemoveBlob { hash: hashes@[n as int] }
                    &&& h == hashes
                    &&& k == n + 1
                } else {
                    sweeps(next, hashes@, n + 1)
                },
            }
        } else {
            next == Step::<Sweep, ()>::Done(Ok(()))
        },
        (Sweep::Removing { hashes, next: n }, Reply::Done) => sweeps(next, hashes@, n as int),
        (Sweep::Removing { hashes, next: n }, Reply::Failed(e)) => if store::is_not_found(e) {
            sweeps(next, hashes@, n as int)
        } else {
            next == Step::<Sweep, ()>::Done(Err(e))
        },
        (Sweep::Counting { .. }, Reply::Failed(e)) => next == Step::<Sweep, ()>::Done(Err(e)),
        _ => talk::is_confused(next),
    }
}

/// Goes on with `hashes[next]`, or ends the sweep.
pub fn sweep_from(hashes: Vec<hash::Hash>, next: usize) -> (r: Step<Sweep, ()>)
    ensures
        sweeps(r, hashes@, next as int),
{
    if next < hashes.len() {
        let hash = hashes[next];
        Step::Ask(Request::Index(Query::RefCount { hash }), Sweep::Counting { hashes, next })
    } else {
        Step::Done(Ok(()))
    }
}

impl Sweep {
    /// Goes on with the reply.
    pub fn resume(self, reply: Reply) -> (r: Step<Sweep, ()>)
        ensures
            sweep_resumes(self, reply, r),
    {
        match (self, reply) {
            (Sweep::Counting { hashes, next }, Reply::Count(v)) => {
                if next >= hashes.len() {
                    return Step::Done(Ok(()));
                }
                match value_to_count(v) {
                    Err(e) => Step::Done(Err(e)),
                    Ok(count) => if count == 0 {
                        let hash = hashes[next];
                        Step::Ask(
                            Request::RemoveBlob { hash },
                            Sweep::Removing { hashes, next: next + 1 },
                        )
                    } else {
                        sweep_from(hashes, next + 1)
                    },
                }
            },
            (Sweep::Removing { hashes, next }, Reply::Done) => sweep_from(hashes, next),
            (Sweep::Removing { hashes, next }, Reply::Failed(e)) => if not_found(&e) {
                sweep_from(hashes, next)
            } else {
                Step::Done(Err(e))
            },
            (Sweep::Counting { .. }, Reply::Failed(e)) => Step::Done(Err(e)),
            _ => confused(),
        }
    }
}

// ---------------------------------------------------------------------------
// Removing a path
// ---------------------------------------------------------------------------

/// Removing a path or one version of it.
#[derive(Debug)]
pub enum RemovePath {
    /// One row is being deleted.
    DeletingVersion { hash: hash::Hash },
    /// The hashes of the path are being listed.
    ListingHashes { path: String },
    /// All rows of the path are being deleted.
    DeletingPath { hashes: Vec<hash::Hash> },
    /// The blobs are being swept.
    Sweeping(Sweep),
}

/// The step of a removal whose sweep is at `step`.
pub open spec fn removal_sweeping(step: Step<Sweep, ()>) -> Step<RemovePath, ()> {
    match step {
        Step::Ask(request, task) => Step::Ask(request, RemovePath::Sweeping(task)),
        Step::Done(r) => Step::Done(r),
    }
}

/// The first step of removing `path`, or only the version `hash` of it.
pub open spec fn removal_starts(
    path: Seq<char>,
    hash: Option<hash::Hash>,
    step: Step<RemovePath, ()>,
) -> bool {
    match path::path_problem(path) {
        Some(why) => step matches Step::Done(Err(e)) && e@ == error::ErrorView::InvalidPath(why),
        None => match hash {
            Some(h) => {
                &&& step matches Step::Ask(Request::Index(Query::DeleteVersion { path: p, hash: k }), t)
                &&& p@ == path
                &&& k == h
                &&& t == RemovePath::DeletingVersion { hash: h }
            },
            None => {
                &&& step matches Step::Ask(
                    Request::Index(Query::Hashes { path: p }),
                    RemovePath::ListingHashes { path: q },
                )
                &&& p@ == path
                &&& q@ == path
            },
        },
    }
}

/// The hashes that lost a row when `n` rows with the hash were deleted.
pub open spec fn hashes_deleted(n: u64, hash: hash::Hash) -> Seq<hash::Hash> {
    if n > 0 {
        seq![hash]
    } else {
        Seq::empty()
    }
}

/// The step of a removal after a reply.
pub open spec fn removal_resumes(task: RemovePath, reply: Reply, next: Step<RemovePath, ()>) -> bool {
    match (task, reply) {
        (RemovePath::Sweeping(t), _) => exists|s: Step<Sweep, ()>| #[trigger]
            sweep_resumes(t, reply, s) && next == removal_sweeping(s),
        (_, Reply::Failed(e)) => next == Step::<RemovePath, ()>::Done(Err(e)),
        (RemovePath::DeletingVersion { hash }, Reply::Changed(n)) => exists|s: Step<Sweep, ()>|
            #[trigger] sweeps(s, hashes_deleted(n, hash), 0) && next == removal_sweeping(s),
        (RemovePath::ListingHashes { path }, Reply::Hashes(v)) => match next {
            Step::Ask(request, t) => {
                &&& request == Request::Index(Query::DeletePath { path })
                &&& t matches RemovePath::DeletingPath { hashes }
                &&& index::all_read(index::hashes_in(v@), index::hash_views(hashes@))
            },
            Step::Done(Ok(_)) => false,
            Step::Done(Err(e)) => e@ matches error::ErrorView::Other(m) && index::first_failure(
                index::hashes_in(v@),
                m,
            ),
        },
        (RemovePath::DeletingPath { hashes }, Reply::Changed(_)) => exists|s: Step<Sweep, ()>|
            #[trigger] sweeps(s, hashes@, 0) && next == removal_sweeping(s),
        _ => talk::is_confused(next),
    }
}

/// The step of a removal whose sweep is at `step`.
fn sweep_in_removal(step: Step<Sweep, ()>) -> (r: Step<RemovePath, ()>)
    ensures
        r == removal_sweeping(step),
{
    match step {
        Step::Ask(request, task) => Step::Ask(request, RemovePath::Sweeping(task)),
        Step::Done(r) => Step::Done(r),
    }
}

impl RemovePath {
    /// Starts to remove `path`, or only the oldest row with the given hash.
    pub fn start(path: &str, hash: Option<hash::Hash>) -> (r: Step<RemovePath, ()>)
        ensures
            removal_starts(path@, hash, r),
    {
        match validate(path) {
            Err(e) => Step::Done(Err(e)),
            Ok(_) => match hash {
                Some(hash) => Step::Ask(
                    Request::Index(Query::DeleteVersion { path: path.to_owned(), hash }),
                    RemovePath::DeletingVersion { hash },
                ),
                None => Step::Ask(
                    Request::Index(Query::Hashes { path: path.to_owned() }),
                    RemovePath::ListingHashes { path: path.to_owned() },
                ),
            },
        }
    }

    /// Goes on with the reply.
    pub fn resume(self, reply: Reply) -> (r: Step<RemovePath, ()>)
        ensures
            removal_resumes(self, reply, r),
    {
        match self {
            RemovePath::Sweeping(task) => sweep_in_removal(task.resume(reply)),
            RemovePath::DeletingVersion { hash } => match reply {
                Reply::Failed(e) => Step::Done(Err(e)),
                Reply::Changed(n) => {
                    let mut deleted: Vec<hash::Hash> = Vec::new();
                    if n > 0 {
                        deleted.push(hash);
                    }
                    proof {
                        assert(deleted@ =~= hashes_deleted(n, hash));
                    }
                    sweep_in_removal(sweep_from(deleted, 0))
                },
                _ => confused(),
            },
            RemovePath::ListingHashes { path } => match reply {
                Reply::Failed(e) => Step::Done(Err(e)),
                Reply::Hashes(v) => match read_hashes(&v) {
                    Err(e) => Step::Done(Err(e)),
                    Ok(hashes) => Step::Ask(
                        Request::Index(Query::DeletePath { path }),
                        RemovePath::DeletingPath { hashes },
                    ),
                },
                _ => confused(),
            },
            RemovePath::DeletingPath { hashes } => match reply {
                Reply::Failed(e) => Step::Done(Err(e)),
                Reply::Changed(_) => sweep_in_removal(sweep_from(hashes, 0)),
                _ => confused(),
            },
        }
    }
}


// ---------------------------------------------------------------------------
// Trimming a path
// ---------------------------------------------------------------------------

/// Removing the older versions of a path.
#[derive(Debug)]
pub enum TrimPath {
    /// No version is kept: the path is being removed.
    Removing(RemovePath),
    /// The versions are being listed.
    Listing { path: String, keep: u8 },
    /// The row for `excess[next]` is being deleted; `deleted` holds the hashes
    /// of the rows that are gone.
    Deleting { path: String, excess: Vec<hash::Hash>, next: usize, deleted: Vec<hash::Hash> },
    /// The blobs are being swept.
    Sweeping(Sweep),
}

/// The step of a trim that removes the path.
pub open spec fn trim_removing(step: Step<RemovePath, ()>) -> Step<TrimPath, ()> {
    match step {
        Step::Ask(request, task) => Step::Ask(request, TrimPath::Removing(task)),
        Step::Done(r) => Step::Done(r),
    }
}

/// The step of a trim whose sweep is at `step`.
pub open spec fn trim_sweeping(step: Step<Sweep, ()>) -> Step<TrimPath, ()> {
    match step {
        Step::Ask(request, task) => Step::Ask(request, TrimPath::Sweeping(task)),
        Step::Done(r) => Step::Done(r),
    }
}

/// The trim goes on to delete the row for `excess[next]`, or to sweep.
pub open spec fn trims(
    step: Step<TrimPath, ()>,
    path: Seq<char>,
    excess: Seq<hash::Hash>,
    next: int,
    deleted: Seq<hash::Hash>,
) -> bool {
    if next < excess.len() {
        &&& step matches Step::Ask(
            Request::Index(Query::DeleteVersion { path: p, hash }),
            TrimPath::Deleting { path: q, excess: x, next: n, deleted: d },
        )
        &&& p@ == path
        &&& hash == excess[next]
        &&& q@ == path
        &&& x@ == excess
        &&& n == next
        &&& d@ == deleted
    } else {
        exists|s: Step<Sweep, ()>| #[trigger] sweeps(s, deleted, 0) && step == trim_sweeping(s)
    }
}

/// The hashes of all versions but the first `keep`.
pub open spec fn hashes_beyond(versions: Seq<index::VersionInfo>, keep: int) -> Seq<hash::Hash> {
    if versions.len() <= keep {
        Seq::empty()
    } else {
        versions.skip(keep).map_values(|v: index::VersionInfo| v.hash)
    }
}

/// The hashes of deleted rows after a deletion that changed `n` rows.
pub open spec fn also_deleted(deleted: Seq<hash::Hash>, n: u64, hash: hash::Hash) -> Seq<hash::Hash> {
    if n > 0 {
        deleted.push(hash)
    } else {
        deleted
    }
}

/// The first step of trimming `path` to `keep` versions.
pub open spec fn trim_starts(path: Seq<char>, keep: u8, step: Step<TrimPath, ()>) -> bool {
    match path::path_problem(path) {
        Some(why) => step matches Step::Done(Err(e)) && e@ == error::ErrorView::InvalidPath(why),
        None => if keep == 0 {
            exists|s: Step<RemovePath, ()>| #[trigger]
                removal_starts(path, None, s) && step == trim_removing(s)
        } else {
            &&& step matches Step::Ask(
                Request::Index(Query::Versions { path: p }),
                TrimPath::Listing { path: q, keep: k },
            )
            &&& p@ == path
            &&& q@ == path
            &&& k == keep
        },
    }
}

/// The step of a trim after a reply.
pub open spec fn trim_resumes(task: TrimPath, reply: Reply, next: Step<TrimPath, ()>) -> bool {
    match (task, reply) {
        (TrimPath::Removing(t), _) => exists|s: Step<RemovePath, ()>| #[trigger]
            removal_resumes(t, reply, s) && next == trim_removing(s),
        (TrimPath::Sweeping(t), _) => exists|s: Step<Sweep, ()>| #[trigger]
            sweep_resumes(t, reply, s) && next == trim_sweeping(s),
        (_, Reply::Failed(e)) => next == Step::<TrimPath, ()>::Done(Err(e)),
        (TrimPath::Listing { path, keep }, Reply::Versions(v)) => {
            ||| exists|list: Seq<index::VersionInfo>|
                {
                    &&& #[trigger] index::all_read(
                        index::versions_in(v@),
                        index::version_views(list),
                    )
                    &&& trims(next, path@, hashes_beyond(list, keep as int), 0, Seq::empty())
                }
            ||| next matches Step::Done(Err(e)) && e@ matches error::ErrorView::Other(m)
                && index::first_failure(index::versions_in(v@), m)
        },
        (TrimPath::Deleting { path, excess, next: n, deleted }, Reply::Changed(c)) => if n
            < excess@.len() {
            trims(next, path@, excess@, n + 1, also_deleted(deleted@, c, excess@[n as int]))
        } else {
            next == Step::<TrimPath, ()>::Done(Ok(()))
        },
        _ => talk::is_confused(next),
    }
}

/// The step of a trim whose sweep is at `step`.
fn sweep_in_trim(step: Step<Sweep, ()>) -> (r: Step<TrimPath, ()>)
    ensures
        r == trim_sweeping(step),
{
    match step {
        Step::Ask(request, task) => Step::Ask(request, TrimPath::Sweeping(task)),
        Step::Done(r) => Step::Done(r),
    }
}

/// The step of a trim that removes the path.
fn removal_in_trim(step: Step<RemovePath, ()>) -> (r: Step<TrimPath, ()>)
    ensures
        r == trim_removing(step),
{
    match step {
        Step::Ask(request, task) => Step::Ask(request, TrimPath::Removing(task)),
        Step::Done(r) => Step::Done(r),
    }
}

/// Deletes the row for `excess[next]`, or goes on to sweep.
fn trim_from(
    path: String,
    excess: Vec<hash::Hash>,
    next: usize,
    deleted: Vec<hash::Hash>,
) -> (r: Step<TrimPath, ()>)
    ensures
        trims(r, path@, excess@, next as int, deleted@),
{
    if next < excess.len() {
        let hash = excess[next];
        Step::Ask(
            Request::Index(Query::DeleteVersion { path: path.clone(), hash }),
            TrimPath::Deleting { path, excess, next, deleted },
        )
    } else {
        sweep_in_trim(sweep_from(deleted, 0))
    }
}

/// The hashes of all versions but the first `keep`.
fn excess_hashes(versions: &Vec<index::VersionInfo>, keep: usize) -> (r: Vec<hash::Hash>)
    ensures
        r@ == hashes_beyond(versions@, keep as int),
{
    let mut r: Vec<hash::Hash> = Vec::new();
    if versions.len() <= keep {
        return r;
    }
    let mut i: usize = keep;
    while i < versions.len()
        invariant
            keep <= i <= versions@.len(),
            r@.len() == i - keep,
            forall|j: int| 0 <= j < r@.len() ==> r@[j] == versions@[keep + j].hash,
        decreases versions@.len() - i,
    {
        r.push(versions[i].hash);
        i += 1;
    }
    proof {
        assert(r@ =~= hashes_beyond(versions@, keep as int));
    }
    r
}

impl TrimPath {
    /// Starts to remove all but the newest `keep` versions of `path`.
    pub fn start(path: &str, keep: u8) -> (r: Step<TrimPath, ()>)
        ensures
            trim_starts(path@, keep, r),
    {
        match validate(path) {
            Err(e) => Step::Done(Err(e)),
            Ok(_) => if keep == 0 {
                removal_in_trim(RemovePath::start(path, None))
            } else {
                Step::Ask(
                    Request::Index(Query::Versions { path: path.to_owned() }),
                    TrimPath::Listing { path: path.to_owned(), keep },
                )
            },
        }
    }

    /// Goes on with the reply.
    pub fn resume(self, reply: Reply) -> (r: Step<TrimPath, ()>)
        ensures
            trim_resumes(self, reply, r),
    {
        match self {
            TrimPath::Removing(task) => removal_in_trim(task.resume(reply)),
            TrimPath::Sweeping(task) => sweep_in_trim(task.resume(reply)),
            TrimPath::Listing { path, keep } => match reply {
                Reply::Failed(e) => Step::Done(Err(e)),
                Reply::Versions(v) => match read_versions(&v) {
                    Err(e) => Step::Done(Err(e)),
                    Ok(list) => {
                        let excess = excess_hashes(&list, keep as usize);
                        trim_from(path, excess, 0, Vec::new())
                    },
                },
                _ => confused(),
            },
            TrimPath::Deleting { path, excess, next, deleted } => match reply {
                Reply::Failed(e) => Step::Done(Err(e)),
                Reply::Changed(n) => {
                    if next >= excess.len() {
                        return Step::Done(Ok(()));
                    }
                    let mut deleted = deleted;
                    if n > 0 {
                        deleted.push(excess[next]);
                    }
                    trim_from(path, excess, next + 1, deleted)
                },
                _ => confused(),
            },
        }
    }
}

// ---------------------------------------------------------------------------
// Removing a folder
// ---------------------------------------------------------------------------

/// Removing every path below a folder.
#[derive(Debug)]
pub enum RemoveFolder {
    /// The entries below the folder are being listed.
    Listing,
    /// A path is being removed; `paths[next]` comes after it.
    Removing { paths: Vec<String>, next: usize, current: RemovePath },
}

/// The removal of a folder goes on with `paths[next]`, or is over.
pub open spec fn removes(step: Step<RemoveFolder, ()>, paths: Seq<Seq<char>>, next: int) -> bool {
    if next < paths.len() {
        exists|s: Step<RemovePath, ()>|
            {
                &&& #[trigger] removal_starts(paths[next], None, s)
                &&& match s {
                    Step::Ask(request, task) => {
                        &&& step matches Step::Ask(
                            q,
                            RemoveFolder::Removing { paths: p, next: n, current },
                        )
                        &&& q == request
                        &&& index::texts(p@) == paths
                        &&& n == next + 1
                        &&& current == task
                    },
                    Step::Done(r) => step == Step::<RemoveFolder, ()>::Done(r),
                }
            }
    } else {
        step == Step::<RemoveFolder, ()>::Done(Ok(()))
    }
}

/// The first step of removing what is below `folder`.
pub open spec fn folder_removal_starts(folder: Seq<char>, step: Step<RemoveFolder, ()>) -> bool {
    match path::path_problem(folder) {
        Some(why) => step matches Step::Done(Err(e)) && e@ == error::ErrorView::InvalidPath(why),
        None => {
            &&& step matches Step::Ask(
                Request::Index(Query::Prefix { start, end }),
                RemoveFolder::Listing,
            )
            &&& start@ == vstd::utf8::encode_utf8(folder.push('/'))
            &&& end@ == index::range_end(start@)
        },
    }
}

/// The paths of some rows.
pub open spec fn paths_of(rows: Seq<index::Row>) -> Seq<Seq<char>> {
    rows.map_values(|r: index::Row| r.path)
}

/// The step of removing a folder after a reply.
pub open spec fn folder_removal_resumes(
    task: RemoveFolder,
    reply: Reply,
    next: Step<RemoveFolder, ()>,
) -> bool {
    match (task, reply) {
        (RemoveFolder::Removing { paths, next: n, current }, _) => exists|s: Step<RemovePath, ()>|
            {
                &&& #[trigger] removal_resumes(current, reply, s)
                &&& match s {
                    Step::Ask(request, task) => next == Step::<RemoveFolder, ()>::Ask(
                        request,
                        RemoveFolder::Removing { paths, next: n, current: task },
                    ),
                    Step::Done(Err(e)) => next == Step::<RemoveFolder, ()>::Done(Err(e)),
                    Step::Done(Ok(_)) => removes(next, index::texts(paths@), n as int),
                }
            },
        (RemoveFolder::Listing, Reply::Failed(e)) => next == Step::<RemoveFolder, ()>::Done(Err(e)),
        (RemoveFolder::Listing, Reply::Entries(v)) => {
            ||| exists|list: Seq<index::Row>|
                {
                    &&& #[trigger] index::all_read(index::entries_in(v@), list)
                    &&& removes(next, paths_of(list), 0)
                }
            ||| next matches Step::Done(Err(e)) && e@ matches error::ErrorView::Other(m)
                && index::first_failure(index::entries_in(v@), m)
        },
        _ => talk::is_confused(next),
    }
}

/// Removes `paths[next]`, or ends the removal of the folder.
fn remove_from(paths: Vec<String>, next: usize) -> (r: Step<RemoveFolder, ()>)
    ensures
        removes(r, index::texts(paths@), next as int),
{
    if next < paths.len() {
        let first = RemovePath::start(paths[next].as_str(), None);
        proof {
            assert(removal_starts(index::texts(paths@)[next as int], None, first));
        }
        match first {
            Step::Ask(request, current) => Step::Ask(
                request,
                RemoveFolder::Removing { paths, next: next + 1, current },
            ),
            Step::Done(r) => Step::Done(r),
        }
    } else {
        Step::Done(Ok(()))
    }
}

impl RemoveFolder {
    /// Starts to remove every path below `folder`.
    pub fn start(folder: &str) -> (r: Step<RemoveFolder, ()>)
        ensures
            folder_removal_starts(folder@, r),
    {
        match validate(folder) {
            Err(e) => Step::Done(Err(e)),
            Ok(_) => {
                let mut prefix = folder.to_owned();
                prefix.push('/');
                let (start, end) = prefix_range(prefix.as_str());
                Step::Ask(Request::Index(Query::Prefix { start, end }), RemoveFolder::Listing)
            },
        }
    }

    /// Goes on with the reply.
    pub fn resume(self, reply: Reply) -> (r: Step<RemoveFolder, ()>)
        ensures
            folder_removal_resumes(self, reply, r),
    {
        match self {
            RemoveFolder::Removing { paths, next, current } => {
                let s = current.resume(reply);
                match s {
                    Step::Ask(request, task) => Step::Ask(
                        request,
                        RemoveFolder::Removing { paths, next, current: task },
                    ),
                    Step::Done(Err(e)) => Step::Done(Err(e)),
                    Step::Done(Ok(_)) => remove_from(paths, next),
                }
            },
            RemoveFolder::Listing => match reply {
                Reply::Failed(e) => Step::Done(Err(e)),
                Reply::Entries(v) => match read_entries(&v) {
                    Err(e) => Step::Done(Err(e)),
                    Ok(list) => {
                        let mut paths: Vec<String> = Vec::new();
                        let mut i: usize = 0;
                        while i < list.len()
                            invariant
                                i <= list@.len(),
                                paths@.len() == i,
                                forall|j: int| 0 <= j < i ==> (#[trigger] paths@[j])@ == list@[j].path@,
                            decreases list@.len() - i,
                        {
                            paths.push(list[i].path.clone());
                            i += 1;
                        }
                        proof {
                            assert(index::texts(paths@) =~= paths_of(index::entry_views(list@)));
                        }
                        remove_from(paths, 0)
                    },
                },
                _ => confused(),
            },
        }
    }
}

} // verus!
