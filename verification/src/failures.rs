//! What comes of requests that fail.

use vstd::prelude::*;

use crate::add;
use crate::add::{Add, AddResult};
use crate::basics;
use crate::cli;
use crate::cli::{CliError, CliReply, CliStep, Command, Run};
use crate::error::{Error, ErrorView, IoErrorKind};
use crate::get;
use crate::get::{GetBytes, GetReader, PathStat, StatPath};
use crate::hash;
use crate::index;
use crate::index::VersionInfo;
use crate::list;
use crate::list::{CommonPrefixEntry, ListFolder, ListPaths, ListVersions, PathEntry};
use crate::path;
use crate::reader::BloxtreeReader;
use crate::remove;
use crate::remove::{RemoveFolder, RemovePath, Sweep, TrimPath};
use crate::store;
use crate::store::{BlobStore, DeleteBlob, OpenStore, StatBlob, StoreBlob, Stored};
use crate::talk::{BlobStat, Folder, Reply, Request, Step};
use crate::tree;
use crate::tree::{Bloxtree, Open, OpenStage, Shutdown};

verus! {

/// The error is an input or output error of the kind.
pub open spec fn is_of_kind(e: Error, kind: IoErrorKind) -> bool {
    e matches Error::Io(io) && io.kind == kind
}

// ---------------------------------------------------------------------------
// Opening
// ---------------------------------------------------------------------------

/// Opening ends with the error where a request fails, unless a directory that is to
/// be made is already there.
pub proof fn open_fails(task: Open, e: Error, next: Step<Open, Bloxtree>)
    requires
        tree::open_resumes(task, Reply::Failed(e), next),
    ensures
        next == Step::<Open, Bloxtree>::Done(Err(e)) || (is_of_kind(e, IoErrorKind::AlreadyExists)
            && (task.stage == OpenStage::MakingObjects || task.stage
            == OpenStage::MakingTemporary)),
        is_of_kind(e, IoErrorKind::AlreadyExists) && task.stage == OpenStage::MakingObjects
            ==> next is Ask,
        is_of_kind(e, IoErrorKind::AlreadyExists) && task.stage == OpenStage::MakingTemporary ==> (
        next matches Step::Done(Ok(bt)) && bt.root@ == task.root@),
{
}

/// A root that does not exist or is no directory is refused, and so is an index
/// whose path is no text.
pub proof fn open_refuses(task: Open, next: Step<Open, Bloxtree>)
    requires
        tree::open_resumes(task, Reply::Answer(false), next),
    ensures
        next matches Step::Done(Err(_)),
        task.stage == OpenStage::FindingRoot ==> basics::ends_with(
            next,
            ErrorView::Other("root directory does not exist: "@ + task.root@),
        ),
        task.stage == OpenStage::TestingRoot ==> basics::ends_with(
            next,
            ErrorView::Other("root is not a directory: "@ + task.root@),
        ),
        task.stage == OpenStage::TestingIndexPath ==> basics::ends_with(
            next,
            ErrorView::Other("index path is not valid UTF-8"@),
        ),
{
}

/// What opening asks for, one after another.
pub open spec fn opening_requests() -> Seq<Request> {
    seq![
        Request::RootExists,
        Request::RootIsDirectory,
        Request::CreateDirectory { folder: Folder::Objects },
        Request::IndexPathIsText,
        Request::OpenIndex,
        Request::ApplySchema,
        Request::CreateDirectory { folder: Folder::Temporary },
    ]
}

/// Step `i` of opening was answered by the reply, and led to the next.
pub open spec fn is_granted(
    steps: Seq<Step<Open, Bloxtree>>,
    replies: Seq<Reply>,
    i: int,
) -> bool {
    steps[i] matches Step::Ask(_, task) ==> tree::open_resumes(task, replies[i], steps[i + 1])
}

/// Opening, where each request is granted, asks for one after another, and is done
/// after the last.
pub proof fn open_in_order(root: Seq<char>, steps: Seq<Step<Open, Bloxtree>>, replies: Seq<Reply>)
    requires
        steps.len() == 8,
        replies.len() == 7,
        tree::opening_at(root, OpenStage::FindingRoot, steps[0]),
        forall|i: int|
            0 <= i < 7 ==> (#[trigger] replies[i] == Reply::Done || replies[i] == Reply::Answer(
                true,
            )) && (replies[i] is Answer <==> i == 0 || i == 1 || i == 3),
        forall|i: int| 0 <= i < 7 ==> #[trigger] is_granted(steps, replies, i),
    ensures
        forall|i: int|
            0 <= i < 7 ==> #[trigger] steps[i] is Ask && steps[i]->Ask_0 == opening_requests()[i],
        steps[7] matches Step::Done(Ok(bt)) && bt.root@ == root,
{
    assert(is_granted(steps, replies, 0));
    assert(is_granted(steps, replies, 1));
    assert(is_granted(steps, replies, 2));
    assert(is_granted(steps, replies, 3));
    assert(is_granted(steps, replies, 4));
    assert(is_granted(steps, replies, 5));
    assert(is_granted(steps, replies, 6));
}

/// Closing ends with the error where it fails.
pub proof fn shutdown_fails(task: Shutdown, e: Error, next: Step<Shutdown, ()>)
    requires
        tree::shutdown_resumes(task, Reply::Failed(e), next),
    ensures
        next == Step::<Shutdown, ()>::Done(Err(e)),
{
}

// ---------------------------------------------------------------------------
// Blobs
// ---------------------------------------------------------------------------

/// Storing content never succeeds through a request that fails, unless it is that
/// what is to be made is already there: then the blob is there as well. In every
/// other case it ends with the error, after the temporary file was discarded where
/// there is one.
pub proof fn store_fails(task: StoreBlob, e: Error, next: Step<StoreBlob, Stored>)
    requires
        store::storing_resumes(task, Reply::Failed(e), next),
    ensures
        match task {
            StoreBlob::Making { .. } => next == Step::<StoreBlob, Stored>::Done(Err(e)),
            StoreBlob::Discarding { outcome } => next == Step::<StoreBlob, Stored>::Done(outcome),
            StoreBlob::MakingDirectory { hash } if is_of_kind(e, IoErrorKind::AlreadyExists) => {
                next == Step::<StoreBlob, Stored>::Ask(
                    Request::SyncTemp,
                    StoreBlob::Syncing { hash },
                )
            },
            StoreBlob::Persisting { hash } if is_of_kind(e, IoErrorKind::AlreadyExists) => {
                next == Step::<StoreBlob, Stored>::Ask(
                    Request::DiscardTemp,
                    StoreBlob::Discarding { outcome: Ok(Stored { hash, existed: true }) },
                )
            },
            _ => next == Step::<StoreBlob, Stored>::Ask(
                Request::DiscardTemp,
                StoreBlob::Discarding { outcome: Err(e) },
            ),
        },
{
}

/// A blob gets its place only after its content was synced, and it is synced only
/// after its directory was made or was there.
pub proof fn blob_is_synced_first(task: StoreBlob, reply: Reply, next: Step<StoreBlob, Stored>)
    requires
        store::storing_resumes(task, reply, next),
    ensures
        next matches Step::Ask(Request::PersistTemp { hash: h }, t) ==> {
            &&& task == StoreBlob::Syncing { hash: h }
            &&& reply is Done
            &&& t == StoreBlob::Persisting { hash: h }
        },
        next matches Step::Ask(Request::SyncTemp, t) ==> {
            &&& task matches StoreBlob::MakingDirectory { hash }
            &&& reply is Done || (reply matches Reply::Failed(e) && is_of_kind(
                e,
                IoErrorKind::AlreadyExists,
            ))
            &&& t == StoreBlob::Syncing { hash }
        },
        next matches Step::Done(Ok(stored)) ==> {
            ||| task == StoreBlob::Persisting { hash: stored.hash } && !stored.existed
            ||| task == (StoreBlob::Discarding { outcome: Ok(stored) })
        },
{
}

/// Adding never succeeds through a request that fails while the versions are
/// recorded, and ends with what storing the content ended with.
pub proof fn add_fails(task: Add, e: Error, next: Step<Add, AddResult>)
    requires
        add::add_resumes(task, Reply::Failed(e), next),
    ensures
        !(next matches Step::Done(Ok(_))) || (task matches Add::Storing { paths, blob }
            && paths@.len() == 0),
        task is Recording ==> next == Step::<Add, AddResult>::Done(Err(e)),
        task matches Add::Storing { blob, .. } ==> {
            &&& blob is Making ==> next == Step::<Add, AddResult>::Done(Err(e))
            &&& blob matches StoreBlob::Discarding { outcome: Err(x) } ==> next == Step::<
                Add,
                AddResult,
            >::Done(Err(x))
            &&& !(blob is Making) && !(blob is Discarding) && !is_of_kind(
                e,
                IoErrorKind::AlreadyExists,
            ) ==> (next matches Step::Ask(request, Add::Storing { blob: b, .. }) && request
                is DiscardTemp && b == StoreBlob::Discarding { outcome: Err(e) })
        },
{
    if let Add::Storing { paths, blob } = task {
        let s = choose|s: Step<StoreBlob, Stored>| #[trigger]
            store::storing_resumes(blob, Reply::Failed(e), s) && add::add_goes_on(s, paths, next);
        store_fails(blob, e, s);
    }
}

/// Opening the blobs makes their directory for temporary files; that it is already
/// there is no error, and any other failure is.
pub proof fn blob_store_opens(
    first: Step<OpenStore, BlobStore>,
    task: OpenStore,
    reply: Reply,
    next: Step<OpenStore, BlobStore>,
)
    requires
        store::store_opens(first),
        store::store_opening_resumes(task, reply, next),
    ensures
        first matches Step::Ask(request, _) && request == (Request::CreateDirectory {
            folder: Folder::Temporary,
        }),
        reply is Done ==> next matches Step::Done(Ok(_)),
        reply matches Reply::Failed(e) ==> {
            if is_of_kind(e, IoErrorKind::AlreadyExists) {
                next matches Step::Done(Ok(_))
            } else {
                next == Step::<OpenStore, BlobStore>::Done(Err(e))
            }
        },
{
}

/// Deleting a blob that is not there is no error, and any other failure is.
pub proof fn delete_blob_fails(task: DeleteBlob, e: Error, next: Step<DeleteBlob, ()>)
    requires
        store::deleting_resumes(task, Reply::Failed(e), next),
    ensures
        next == Step::<DeleteBlob, ()>::Done(
            if is_of_kind(e, IoErrorKind::NotFound) {
                Ok(())
            } else {
                Err(e)
            },
        ),
{
}

/// The metadata of a blob are those that come back, and a failure is passed on.
pub proof fn stat_blob_law(task: StatBlob, reply: Reply, next: Step<StatBlob, BlobStat>)
    requires
        store::blob_stat_resumes(task, reply, next),
    ensures
        reply matches Reply::Stat(st) ==> next == Step::<StatBlob, BlobStat>::Done(Ok(st)),
        reply matches Reply::Failed(e) ==> next == Step::<StatBlob, BlobStat>::Done(Err(e)),
{
}

// ---------------------------------------------------------------------------
// Getting and listing
// ---------------------------------------------------------------------------

/// Getting a reader ends with the error where a request fails, unless it is that the
/// blob does not exist: then there is nothing to read.
pub proof fn get_fails(
    task: GetReader,
    e: Error,
    next: Step<GetReader, Option<BloxtreeReader>>,
)
    requires
        get::get_resumes(task, Reply::Failed(e), next),
    ensures
        next == Step::<GetReader, Option<BloxtreeReader>>::Done(
            if task is Opening && is_of_kind(e, IoErrorKind::NotFound) {
                Ok(None)
            } else {
                Err(e)
            },
        ),
{
}

/// Getting bytes ends with the error where a request fails, unless it is that the
/// blob does not exist: then there is nothing to read.
pub proof fn get_bytes_fails(task: GetBytes, e: Error, next: Step<GetBytes, Option<Vec<u8>>>)
    requires
        get::bytes_resume(task, Reply::Failed(e), next),
    ensures
        next == Step::<GetBytes, Option<Vec<u8>>>::Done(
            if task matches GetBytes::Finding(t) && t is Opening && is_of_kind(
                e,
                IoErrorKind::NotFound,
            ) {
                Ok(None)
            } else {
                Err(e)
            },
        ),
{
}

/// Finding out metadata ends with the error where a request fails.
pub proof fn stat_fails(task: StatPath, e: Error, next: Step<StatPath, Option<PathStat>>)
    requires
        get::stat_resumes(task, Reply::Failed(e), next),
    ensures
        next == Step::<StatPath, Option<PathStat>>::Done(Err(e)),
{
}

/// Listing ends with the error where the request fails.
pub proof fn listing_fails(
    e: Error,
    folder: ListFolder,
    listed: Step<ListFolder, Vec<CommonPrefixEntry>>,
    paths: ListPaths,
    found: Step<ListPaths, Vec<PathEntry>>,
    versions: ListVersions,
    known: Step<ListVersions, Vec<VersionInfo>>,
)
    requires
        list::folder_listing_resumes(folder, Reply::Failed(e), listed),
        list::path_listing_resumes(paths, Reply::Failed(e), found),
        list::version_listing_resumes(versions, Reply::Failed(e), known),
    ensures
        listed == Step::<ListFolder, Vec<CommonPrefixEntry>>::Done(Err(e)),
        found == Step::<ListPaths, Vec<PathEntry>>::Done(Err(e)),
        known == Step::<ListVersions, Vec<VersionInfo>>::Done(Err(e)),
{
}

/// A path that is not valid is refused by everything that takes one path, and
/// nothing is asked for. An empty folder name is the root.
pub proof fn invalid_path_is_refused(
    p: Seq<char>,
    got: Step<GetReader, Option<BloxtreeReader>>,
    bytes: Step<GetBytes, Option<Vec<u8>>>,
    stat: Step<StatPath, Option<PathStat>>,
    versions: Step<ListVersions, Vec<VersionInfo>>,
    removed: Step<RemovePath, ()>,
    version: Option<hash::Hash>,
    trimmed: Step<TrimPath, ()>,
    keep: u8,
    emptied: Step<RemoveFolder, ()>,
    listed: Step<ListFolder, Vec<CommonPrefixEntry>>,
)
    requires
        !path::is_valid(p),
        get::get_starts(p, got),
        get::bytes_start(p, bytes),
        get::stat_starts(p, stat),
        list::version_listing_starts(p, versions),
        remove::removal_starts(p, version, removed),
        remove::trim_starts(p, keep, trimmed),
        remove::folder_removal_starts(p, emptied),
        list::folder_listing_starts(p, listed),
    ensures
        ({
            let said = ErrorView::InvalidPath(path::path_problem(p)->0);
            &&& basics::ends_with(got, said)
            &&& basics::ends_with(bytes, said)
            &&& basics::ends_with(stat, said)
            &&& basics::ends_with(versions, said)
            &&& basics::ends_with(removed, said)
            &&& basics::ends_with(trimmed, said)
            &&& basics::ends_with(emptied, said)
            &&& p.len() > 0 ==> basics::ends_with(listed, said)
            &&& p.len() == 0 ==> listed is Ask
        }),
{
}

// ---------------------------------------------------------------------------
// Removing
// ---------------------------------------------------------------------------

/// Sweeping ends with the error where a request fails, unless it is that a blob that
/// is to be removed is not there.
pub proof fn sweep_fails(task: Sweep, e: Error, next: Step<Sweep, ()>)
    requires
        remove::sweep_resumes(task, Reply::Failed(e), next),
    ensures
        next == Step::<Sweep, ()>::Done(Err(e)) || (is_of_kind(e, IoErrorKind::NotFound)
            && task is Removing),
        is_of_kind(e, IoErrorKind::NotFound) && task is Removing ==> !(next matches Step::Done(
            Err(_),
        )),
{
}

/// Removing ends with the error where a request fails, unless it is that a blob that
/// is to be removed is not there.
pub proof fn remove_fails(task: RemovePath, e: Error, next: Step<RemovePath, ()>)
    requires
        remove::removal_resumes(task, Reply::Failed(e), next),
    ensures
        next == Step::<RemovePath, ()>::Done(Err(e)) || (is_of_kind(e, IoErrorKind::NotFound) && (
        task matches RemovePath::Sweeping(t) && t is Removing)),
{
    if let RemovePath::Sweeping(t) = task {
        let s = choose|s: Step<Sweep, ()>| #[trigger]
            remove::sweep_resumes(t, Reply::Failed(e), s) && next == remove::removal_sweeping(s);
        sweep_fails(t, e, s);
    }
}

/// Trimming ends with the error where a request fails, unless it is that a blob that
/// is to be removed is not there.
pub proof fn trim_fails(task: TrimPath, e: Error, next: Step<TrimPath, ()>)
    requires
        remove::trim_resumes(task, Reply::Failed(e), next),
    ensures
        next == Step::<TrimPath, ()>::Done(Err(e)) || is_of_kind(e, IoErrorKind::NotFound),
        task is Listing || task is Deleting ==> next == Step::<TrimPath, ()>::Done(Err(e)),
{
    if let TrimPath::Sweeping(t) = task {
        let s = choose|s: Step<Sweep, ()>| #[trigger]
            remove::sweep_resumes(t, Reply::Failed(e), s) && next == remove::trim_sweeping(s);
        sweep_fails(t, e, s);
    }
    if let TrimPath::Removing(t) = task {
        let s = choose|s: Step<RemovePath, ()>| #[trigger]
            remove::removal_resumes(t, Reply::Failed(e), s) && next == remove::trim_removing(s);
        remove_fails(t, e, s);
    }
}

/// Removing a folder ends with the error where a request fails, unless it is that a
/// blob that is to be removed is not there.
pub proof fn remove_folder_fails(task: RemoveFolder, e: Error, next: Step<RemoveFolder, ()>)
    requires
        remove::folder_removal_resumes(task, Reply::Failed(e), next),
    ensures
        next == Step::<RemoveFolder, ()>::Done(Err(e)) || is_of_kind(e, IoErrorKind::NotFound),
        task is Listing ==> next == Step::<RemoveFolder, ()>::Done(Err(e)),
{
    if let RemoveFolder::Removing { paths, next: n, current } = task {
        let s = choose|s: Step<RemovePath, ()>|
            {
                &&& #[trigger] remove::removal_resumes(current, Reply::Failed(e), s)
                &&& match s {
                    Step::Ask(request, task) => next == Step::<RemoveFolder, ()>::Ask(
                        request,
                        RemoveFolder::Removing { paths, next: n, current: task },
                    ),
                    Step::Done(Err(e)) => next == Step::<RemoveFolder, ()>::Done(Err(e)),
                    Step::Done(Ok(_)) => remove::removes(next, index::texts(paths@), n as int),
                }
            };
        remove_fails(current, e, s);
    }
}

// ---------------------------------------------------------------------------
// Commands
// ---------------------------------------------------------------------------

/// The reply says that the store failed, and how.
pub open spec fn store_failure(reply: CliReply) -> Option<Error> {
    match reply {
        CliReply::Added(Err(e)) => Some(e),
        CliReply::Opened(Err(e)) => Some(e),
        CliReply::Finished(Err(e)) => Some(e),
        CliReply::Folder(Err(e)) => Some(e),
        CliReply::Paths(Err(e)) => Some(e),
        CliReply::Versions(Err(e)) => Some(e),
        _ => None,
    }
}

/// The reply is of the kind that the command waits for.
pub open spec fn is_awaited(task: Run, reply: CliReply) -> bool {
    match task {
        Run::Adding { .. } => reply is Added || reply is CannotOpen,
        Run::OpeningPath { .. } => reply is Opened,
        Run::OpeningHash { .. } => reply is Opened,
        Run::FindingVersion { .. } => reply is Versions,
        Run::Copying { .. } => reply is Copied,
        Run::Finishing => reply is Finished,
        Run::ListingFolder => reply is Folder,
        Run::ListingPaths => reply is Paths,
        Run::ListingVersions => reply is Versions,
        Run::Surveying { .. } => reply is Paths,
        Run::Counting { .. } => reply is Versions,
    }
}

/// The command ends without success, with this exit code and this message.
pub open spec fn exits(step: CliStep, code: u8, message: Seq<char>) -> bool {
    step matches CliStep::Done(Err(e)) && e.code() == code && e.text() == message
}

/// A command ends with exit code 1 and the message of the store where the store
/// fails, except that the summary leaves out the versions of a path that cannot be
/// listed. It ends with exit code 1 too where the input cannot be opened, where
/// copying fails, and where a reply answers another request.
pub proof fn command_fails(task: Run, reply: CliReply, next: CliStep)
    requires
        cli::command_resumes(task, reply, next),
    ensures
        is_awaited(task, reply) && !(task is Counting) ==> (store_failure(reply) matches Some(e)
            ==> exits(next, 1, e@.message())),
        !is_awaited(task, reply) ==> (next matches CliStep::Done(Err(e)) && e.code() == 1),
        task matches Run::Adding { file: Some(f), .. } ==> (reply matches CliReply::CannotOpen(why)
            ==> exits(next, 1, "cannot open "@ + f@ + ": "@ + why@)),
        task matches Run::Adding { file: None, .. } ==> (reply matches CliReply::CannotOpen(why)
            ==> exits(next, 1, "cannot open "@ + "standard input"@ + ": "@ + why@)),
        task is Copying ==> (reply matches CliReply::Copied(Err(m)) ==> exits(next, 1, m@)),
        task is Counting ==> (reply matches CliReply::Versions(Err(_)) ==> !(next
            matches CliStep::Done(Err(_))) || task->Counting_next >= task->Counting_paths@.len()),
{
}

/// A hash that is not hexadecimal is a bad argument: the command ends at once with
/// exit code 2, and asks for nothing.
pub proof fn bad_hash_is_refused(
    path: String,
    hex: String,
    quiet: bool,
    shown: Seq<char>,
    got: CliStep,
    removed: CliStep,
)
    requires
        !hash::is_hex(hex@, 32),
        cli::command_starts(Command::Get { path, hash: Some(hex) }, quiet, shown, got),
        cli::command_starts(Command::Remove { path, hash: Some(hex) }, quiet, shown, removed),
    ensures
        exits(got, 2, "invalid hex hash: "@ + hex@),
        exits(removed, 2, "invalid hex hash: "@ + hex@),
{
}

/// What is no bad argument ends with exit code 1, and the message is that of the
/// error.
pub proof fn exit_code_law(e: CliError)
    ensures
        e.code() == (if e is BadArgument {
            2u8
        } else {
            1u8
        }),
        match e {
            CliError::Core(x) => e.text() == x@.message(),
            CliError::Io(m) => e.text() == m@,
            CliError::Usage(m) => e.text() == m@,
            CliError::BadArgument(m) => e.text() == m@,
        },
{
}

} // verus!
