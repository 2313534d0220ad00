//! The content-addressed blob store.
//!
//! Blobs are stored as flat files under `objects/ab/cdef...`: two hexadecimal
//! digits of the hash name a directory, the others the file in it.

use vstd::prelude::*;
use vstd::slice::*;
use vstd::string::*;

use crate::error::{Error, IoErrorKind};
use crate::get;
use crate::get::GetReader;
use crate::hash;
use crate::hash::Digest;
use crate::reader::BloxtreeReader;
use crate::talk;
use crate::talk::{confused, BlobStat, Folder, Reply, Request, Step, READ_CHUNK};

verus! {

/// The blob store. Its directory is with the caller.
#[derive(Clone, Copy, Debug, PartialEq, Eq, Structural)]
pub struct BlobStore;

// ---------------------------------------------------------------------------
// Errors that are none
// ---------------------------------------------------------------------------

/// An error of something that is already there.
pub open spec fn is_already_there(e: Error) -> bool {
    e matches Error::Io(io) && io.kind == IoErrorKind::AlreadyExists
}

/// An error of a missing file.
pub open spec fn is_not_found(e: Error) -> bool {
    e matches Error::Io(io) && io.kind == IoErrorKind::NotFound
}

/// Whether an error says that something is already there.
pub fn already_there(e: &Error) -> (r: bool)
    ensures
        r == is_already_there(*e),
{
    match e {
        Error::Io(io) => io.kind == IoErrorKind::AlreadyExists,
        _ => false,
    }
}

/// Whether an error says that a file is missing.
pub fn not_found(e: &Error) -> (r: bool)
    ensures
        r == is_not_found(*e),
{
    match e {
        Error::Io(io) => io.kind == IoErrorKind::NotFound,
        _ => false,
    }
}

/// Create a single directory if it does not already exist: what comes of the
/// attempt to make it. A directory that is already there is as good as made.
pub fn create_dir_if_not_exists(made: Result<(), Error>) -> (r: Result<(), Error>)
    ensures
        r == (match made {
            Err(e) => if is_already_there(e) {
                Ok(())
            } else {
                Err(e)
            },
            Ok(_) => Ok(()),
        }),
{
    match made {
        Ok(()) => Ok(()),
        Err(e) => if already_there(&e) {
            Ok(())
        } else {
            Err(e)
        },
    }
}

// ---------------------------------------------------------------------------
// Opening
// ---------------------------------------------------------------------------

/// Opening the blob store: `objects/tmp/` is being made.
#[derive(Debug)]
pub struct OpenStore;

/// The first step of opening the blob store.
pub open spec fn store_opens(step: Step<OpenStore, BlobStore>) -> bool {
    step == Step::<OpenStore, BlobStore>::Ask(
        Request::CreateDirectory { folder: Folder::Temporary },
        OpenStore,
    )
}

/// The step of opening the blob store after a reply.
pub open spec fn store_opening_resumes(
    task: OpenStore,
    reply: Reply,
    next: Step<OpenStore, BlobStore>,
) -> bool {
    match reply {
        Reply::Done => next == Step::<OpenStore, BlobStore>::Done(Ok(BlobStore)),
        Reply::Failed(e) => next == Step::<OpenStore, BlobStore>::Done(
            if is_already_there(e) {
                Ok(BlobStore)
            } else {
                Err(e)
            },
        ),
        _ => talk::is_confused(next),
    }
}

impl OpenStore {
    /// Goes on with the reply.
    pub fn resume(self, reply: Reply) -> (r: Step<OpenStore, BlobStore>)
        ensures
            store_opening_resumes(self, reply, r),
    {
        let made = match reply {
            Reply::Done => Ok(()),
            Reply::Failed(e) => Err(e),
            _ => {
                return confused();
            },
        };
        match create_dir_if_not_exists(made) {
            Ok(()) => Step::Done(Ok(BlobStore)),
            Err(e) => Step::Done(Err(e)),
        }
    }
}

// ---------------------------------------------------------------------------
// Storing
// ---------------------------------------------------------------------------

/// Where the content comes from.
#[derive(Debug)]
pub enum Source {
    /// The input, which is asked for.
    Reader,
    /// These bytes, of which `at` have been taken.
    Bytes { data: Vec<u8>, at: usize },
}

/// A blob that is stored, and whether it was before.
#[derive(Clone, Copy, Debug)]
pub struct Stored {
    pub hash: hash::Hash,
    pub existed: bool,
}

/// Storing content as a blob.
#[derive(Debug)]
pub enum StoreBlob {
    /// The temporary file is being made.
    Making { source: Source },
    /// The next bytes are being read.
    Reading { source: Source, digest: Digest },
    /// The bytes last taken in are being written.
    Writing { source: Source, digest: Digest },
    /// The blob is being looked for.
    Looking { hash: hash::Hash },
    /// The directory of the blob is being made.
    MakingDirectory { hash: hash::Hash },
    /// The temporary file is being written through.
    Syncing { hash: hash::Hash },
    /// The temporary file is being renamed.
    Persisting { hash: hash::Hash },
    /// The temporary file is being removed; storing then ends with the outcome.
    Discarding { outcome: Result<Stored, Error> },
}

/// The first step of storing content.
pub open spec fn storing_starts(source: Source, step: Step<StoreBlob, Stored>) -> bool {
    step == Step::<StoreBlob, Stored>::Ask(Request::CreateTemp, StoreBlob::Making { source })
}

/// The step after `chunk` was taken from the source, when `before` had been:
/// the bytes are written, or at the end the blob is looked for.
pub open spec fn takes(
    step: Step<StoreBlob, Stored>,
    source: Source,
    before: Seq<u8>,
    chunk: Seq<u8>,
) -> bool {
    if chunk.len() == 0 {
        &&& step matches Step::Ask(Request::BlobExists { hash: h }, t)
        &&& h@ == hash::blake3_digest(before)
        &&& t == StoreBlob::Looking { hash: h }
    } else {
        &&& step matches Step::Ask(
            Request::WriteTemp { data },
            StoreBlob::Writing { source: s, digest },
        )
        &&& data@ == chunk
        &&& s == source
        &&& digest@ == before + chunk
    }
}

/// The next bytes of the given data: a chunk, or what is left.
pub open spec fn next_bytes(data: Seq<u8>, at: int) -> Seq<u8> {
    if at >= data.len() {
        Seq::empty()
    } else if data.len() - at <= READ_CHUNK {
        data.skip(at)
    } else {
        data.subrange(at, at + READ_CHUNK)
    }
}

/// The step at which the next bytes are to be taken, when `before` have been.
pub open spec fn goes_on(
    step: Step<StoreBlob, Stored>,
    source: Source,
    before: Seq<u8>,
) -> bool {
    match source {
        Source::Reader => {
            &&& step matches Step::Ask(
                Request::ReadInput,
                StoreBlob::Reading { source: s, digest },
            )
            &&& s == source
            &&& digest@ == before
        },
        Source::Bytes { data, at } => {
            let chunk = next_bytes(data@, at as int);
            exists|k: usize|
                k == at + chunk.len() && #[trigger] takes(
                    step,
                    Source::Bytes { data, at: k },
                    before,
                    chunk,
                )
        },
    }
}

/// Storing is to end with this outcome, and the temporary file is removed first.
pub open spec fn discards(step: Step<StoreBlob, Stored>, outcome: Result<Stored, Error>) -> bool {
    step == Step::<StoreBlob, Stored>::Ask(
        Request::DiscardTemp,
        StoreBlob::Discarding { outcome },
    )
}

/// Storing was handed a reply that answers another request; the temporary file is
/// removed first.
pub open spec fn discards_confused(step: Step<StoreBlob, Stored>) -> bool {
    exists|outcome: Result<Stored, Error>|
        #[trigger] discards(step, outcome) && talk::is_confused(
            Step::<StoreBlob, Stored>::Done(outcome),
        )
}

/// The step of storing content after a reply. A blob that someone else put there
/// meanwhile is as good as stored. Once the temporary file is made, storing ends
/// only when the file was renamed, or after it was to be removed; whatever came of
/// that, the outcome stays.
pub open spec fn storing_resumes(
    task: StoreBlob,
    reply: Reply,
    next: Step<StoreBlob, Stored>,
) -> bool {
    match (task, reply) {
        (StoreBlob::Making { source }, Reply::Done) => goes_on(next, source, Seq::empty()),
        (StoreBlob::Reading { source, digest }, Reply::Chunk(c)) => takes(
            next,
            source,
            digest@,
            c@,
        ),
        (StoreBlob::Writing { source, digest }, Reply::Done) => goes_on(next, source, digest@),
        (StoreBlob::Looking { hash }, Reply::Answer(there)) => if there {
            discards(next, Ok(Stored { hash, existed: true }))
        } else {
            next == Step::<StoreBlob, Stored>::Ask(
                Request::CreateBlobDirectory { hash },
                StoreBlob::MakingDirectory { hash },
            )
        },
        (StoreBlob::MakingDirectory { hash }, Reply::Done) => next == Step::<
            StoreBlob,
            Stored,
        >::Ask(Request::SyncTemp, StoreBlob::Syncing { hash }),
        (StoreBlob::MakingDirectory { hash }, Reply::Failed(e)) => if is_already_there(e) {
            next == Step::<StoreBlob, Stored>::Ask(Request::SyncTemp, StoreBlob::Syncing { hash })
        } else {
            discards(next, Err(e))
        },
        (StoreBlob::Syncing { hash }, Reply::Done) => next == Step::<StoreBlob, Stored>::Ask(
            Request::PersistTemp { hash },
            StoreBlob::Persisting { hash },
        ),
        (StoreBlob::Persisting { hash }, Reply::Done) => next == Step::<StoreBlob, Stored>::Done(
            Ok(Stored { hash, existed: false }),
        ),
        (StoreBlob::Persisting { hash }, Reply::Failed(e)) => discards(
            next,
            if is_already_there(e) {
                Ok(Stored { hash, existed: true })
            } else {
                Err(e)
            },
        ),
        (StoreBlob::Discarding { outcome }, Reply::Done) => next == Step::<
            StoreBlob,
            Stored,
        >::Done(outcome),
        (StoreBlob::Discarding { outcome }, Reply::Failed(_)) => next == Step::<
            StoreBlob,
            Stored,
        >::Done(outcome),
        (StoreBlob::Discarding { .. }, _) => talk::is_confused(next),
        (StoreBlob::Making { .. }, Reply::Failed(e)) => next == Step::<StoreBlob, Stored>::Done(
            Err(e),
        ),
        (StoreBlob::Making { .. }, _) => talk::is_confused(next),
        (_, Reply::Failed(e)) => discards(next, Err(e)),
        _ => discards_confused(next),
    }
}

/// Removes the temporary file, to end with the outcome.
fn discard(outcome: Result<Stored, Error>) -> (r: Step<StoreBlob, Stored>)
    ensures
        discards(r, outcome),
{
    Step::Ask(Request::DiscardTemp, StoreBlob::Discarding { outcome })
}

/// Removes the temporary file, to end with an error: the reply answers another
/// request.
fn discard_confused() -> (r: Step<StoreBlob, Stored>)
    ensures
        discards_confused(r),
{
    let end: Step<StoreBlob, Stored> = confused();
    match end {
        Step::Done(outcome) => {
            let r = discard(outcome);
            proof {
                assert(discards(r, outcome));
            }
            r
        },
        Step::Ask(..) => end,
    }
}

/// Writes the bytes taken from the source, or looks for the blob at the end.
fn take(source: Source, digest: Digest, chunk: Vec<u8>) -> (r: Step<StoreBlob, Stored>)
    ensures
        takes(r, source, digest@, chunk@),
{
    if chunk.len() == 0 {
        let hash = digest.finish();
        Step::Ask(Request::BlobExists { hash }, StoreBlob::Looking { hash })
    } else {
        let digest = digest.update(chunk.as_slice());
        Step::Ask(Request::WriteTemp { data: chunk }, StoreBlob::Writing { source, digest })
    }
}

/// Takes the next bytes from the source, or asks for them.
fn go_on(source: Source, digest: Digest) -> (r: Step<StoreBlob, Stored>)
    ensures
        goes_on(r, source, digest@),
{
    match source {
        Source::Reader => Step::Ask(
            Request::ReadInput,
            StoreBlob::Reading { source: Source::Reader, digest },
        ),
        Source::Bytes { data, at } => {
            let end: usize = if at >= data.len() {
                at
            } else if data.len() - at <= READ_CHUNK {
                data.len()
            } else {
                at + READ_CHUNK
            };
            let chunk: Vec<u8> = if at < end {
                slice_to_vec(slice_subrange(data.as_slice(), at, end))
            } else {
                Vec::new()
            };
            proof {
                assert(chunk@ =~= next_bytes(data@, at as int));
            }
            take(Source::Bytes { data, at: end }, digest, chunk)
        },
    }
}

impl StoreBlob {
    /// Goes on with the reply.
    pub fn resume(self, reply: Reply) -> (r: Step<StoreBlob, Stored>)
        ensures
            storing_resumes(self, reply, r),
    {
        match (self, reply) {
            (StoreBlob::Making { source }, Reply::Done) => go_on(source, Digest::new()),
            (StoreBlob::Reading { source, digest }, Reply::Chunk(c)) => take(source, digest, c),
            (StoreBlob::Writing { source, digest }, Reply::Done) => go_on(source, digest),
            (StoreBlob::Looking { hash }, Reply::Answer(there)) => if there {
                discard(Ok(Stored { hash, existed: true }))
            } else {
                Step::Ask(
                    Request::CreateBlobDirectory { hash },
                    StoreBlob::MakingDirectory { hash },
                )
            },
            (StoreBlob::MakingDirectory { hash }, Reply::Done) => Step::Ask(
                Request::SyncTemp,
                StoreBlob::Syncing { hash },
            ),
            (StoreBlob::MakingDirectory { hash }, Reply::Failed(e)) => {
                match create_dir_if_not_exists(Err(e)) {
                    Ok(()) => Step::Ask(Request::SyncTemp, StoreBlob::Syncing { hash }),
                    Err(e) => discard(Err(e)),
                }
            },
            (StoreBlob::Syncing { hash }, Reply::Done) => Step::Ask(
                Request::PersistTemp { hash },
                StoreBlob::Persisting { hash },
            ),
            (StoreBlob::Persisting { hash }, Reply::Done) => Step::Done(
                Ok(Stored { hash, existed: false }),
            ),
            (StoreBlob::Persisting { hash }, Reply::Failed(e)) => if already_there(&e) {
                discard(Ok(Stored { hash, existed: true }))
            } else {
                discard(Err(e))
            },
            (StoreBlob::Discarding { outcome }, Reply::Done) => Step::Done(outcome),
            (StoreBlob::Discarding { outcome }, Reply::Failed(_)) => Step::Done(outcome),
            (StoreBlob::Discarding { .. }, _) => confused(),
            (StoreBlob::Making { .. }, Reply::Failed(e)) => Step::Done(Err(e)),
            (StoreBlob::Making { .. }, _) => confused(),
            (_, Reply::Failed(e)) => discard(Err(e)),
            _ => discard_confused(),
        }
    }
}

// ---------------------------------------------------------------------------
// Deleting and metadata
// ---------------------------------------------------------------------------

/// Deleting a blob: its file is being removed.
#[derive(Debug)]
pub struct DeleteBlob;

/// The step of deleting a blob after a reply. A missing file is no error.
pub open spec fn deleting_resumes(
    task: DeleteBlob,
    reply: Reply,
    next: Step<DeleteBlob, ()>,
) -> bool {
    match reply {
        Reply::Done => next == Step::<DeleteBlob, ()>::Done(Ok(())),
        Reply::Failed(e) => next == Step::<DeleteBlob, ()>::Done(
            if is_not_found(e) {
                Ok(())
            } else {
                Err(e)
            },
        ),
        _ => talk::is_confused(next),
    }
}

impl DeleteBlob {
    /// Goes on with the reply.
    pub fn resume(self, reply: Reply) -> (r: Step<DeleteBlob, ()>)
        ensures
            deleting_resumes(self, reply, r),
    {
        match reply {
            Reply::Done => Step::Done(Ok(())),
            Reply::Failed(e) => if not_found(&e) {
                Step::Done(Ok(()))
            } else {
                Step::Done(Err(e))
            },
            _ => confused(),
        }
    }
}

/// Finding out the metadata of a blob.
#[derive(Debug)]
pub struct StatBlob;

/// The step of finding out the metadata of a blob after a reply.
pub open spec fn blob_stat_resumes(
    task: StatBlob,
    reply: Reply,
    next: Step<StatBlob, BlobStat>,
) -> bool {
    match reply {
        Reply::Stat(st) => next == Step::<StatBlob, BlobStat>::Done(Ok(st)),
        Reply::Failed(e) => next == Step::<StatBlob, BlobStat>::Done(Err(e)),
        _ => talk::is_confused(next),
    }
}

impl StatBlob {
    /// Goes on with the reply.
    pub fn resume(self, reply: Reply) -> (r: Step<StatBlob, BlobStat>)
        ensures
            blob_stat_resumes(self, reply, r),
    {
        match reply {
            Reply::Stat(st) => Step::Done(Ok(st)),
            Reply::Failed(e) => Step::Done(Err(e)),
            _ => confused(),
        }
    }
}

impl BlobStore {
    /// Open the object store in an existing `objects/` directory. Makes
    /// `objects/tmp/` if missing.
    pub fn open() -> (r: Step<OpenStore, BlobStore>)
        ensures
            store_opens(r),
    {
        Step::Ask(Request::CreateDirectory { folder: Folder::Temporary }, OpenStore)
    }

    /// Stream content into a temporary file, hash it on the way, and rename the
    /// file into place.
    pub fn add_reader(&self, source: Source) -> (r: Step<StoreBlob, Stored>)
        ensures
            storing_starts(source, r),
    {
        Step::Ask(Request::CreateTemp, StoreBlob::Making { source })
    }

    /// Open a blob for reading.
    pub fn get_reader(&self, hash: hash::Hash) -> (r: Step<GetReader, Option<BloxtreeReader>>)
        ensures
            get::opens(r, hash),
    {
        GetReader::start_by_hash(hash)
    }

    /// Delete a blob by hash. A blob that does not exist is no error.
    pub fn delete(&self, hash: hash::Hash) -> (r: Step<DeleteBlob, ()>)
        ensures
            r == Step::<DeleteBlob, ()>::Ask(Request::RemoveBlob { hash }, DeleteBlob),
    {
        Step::Ask(Request::RemoveBlob { hash }, DeleteBlob)
    }

    /// The metadata of a blob.
    pub fn stat(&self, hash: hash::Hash) -> (r: Step<StatBlob, BlobStat>)
        ensures
            r == Step::<StatBlob, BlobStat>::Ask(Request::StatBlob { hash }, StatBlob),
    {
        Step::Ask(Request::StatBlob { hash }, StatBlob)
    }
}

} // verus!
