//! Getting content and metadata of the latest version of a path.

use vstd::prelude::*;
use vstd::string::*;

use crate::error;
use crate::hash;
use crate::index;
use crate::index::{read_version, value_to_count, Query, VersionInfo};
use crate::path;
use crate::path::validate;
use crate::reader;
use crate::reader::BloxtreeReader;
use crate::store;
use crate::store::not_found;
use crate::talk;
use crate::talk::{confused, BlobStat, Reply, Request, Step, Timestamp, READ_CHUNK};
use crate::uuid::Uuid;

verus! {

// ---------------------------------------------------------------------------
// Readers
// ---------------------------------------------------------------------------

/// Opening the latest version of a path, or a blob.
#[derive(Debug)]
pub enum GetReader {
    /// The latest version is being looked up.
    Looking,
    /// The blob is being opened.
    Opening { hash: hash::Hash },
}

/// The first step of opening the latest version of a path.
pub open spec fn get_starts(
    path: Seq<char>,
    step: Step<GetReader, Option<BloxtreeReader>>,
) -> bool {
    match path::path_problem(path) {
        Some(why) => step matches Step::Done(Err(e)) && e@ == error::ErrorView::InvalidPath(why),
        None => {
            &&& step matches Step::Ask(Request::Index(Query::Latest { path: p }), GetReader::Looking)
            &&& p@ == path
        },
    }
}

/// The step that opens a blob.
pub open spec fn opens(step: Step<GetReader, Option<BloxtreeReader>>, hash: hash::Hash) -> bool {
    step == Step::<GetReader, Option<BloxtreeReader>>::Ask(
        Request::OpenBlob { hash },
        GetReader::Opening { hash },
    )
}

/// A reader that has read nothing yet.
pub open spec fn is_fresh(reader: BloxtreeReader, hash: hash::Hash) -> bool {
    &&& reader.digest@ == Seq::<u8>::empty()
    &&& reader.expected == hash
    &&& !reader.verified
}

/// The step of opening after a reply. Only the first row is looked at. A blob
/// that does not exist gives no reader.
pub open spec fn get_resumes(
    task: GetReader,
    reply: Reply,
    next: Step<GetReader, Option<BloxtreeReader>>,
) -> bool {
    match (task, reply) {
        (GetReader::Opening { .. }, Reply::Failed(e)) => next == Step::<
            GetReader,
            Option<BloxtreeReader>,
        >::Done(
            if store::is_not_found(e) {
                Ok(None)
            } else {
                Err(e)
            },
        ),
        (_, Reply::Failed(e)) => next == Step::<GetReader, Option<BloxtreeReader>>::Done(Err(e)),
        (GetReader::Looking, Reply::Versions(v)) => if v@.len() == 0 {
            next == Step::<GetReader, Option<BloxtreeReader>>::Done(Ok(None))
        } else {
            match index::version_in(v@[0]) {
                Err(m) => next matches Step::Done(Err(e)) && e@ == error::ErrorView::Other(m),
                Ok(version) => exists|h: hash::Hash| h@ == version.hash && #[trigger] opens(next, h),
            }
        },
        (GetReader::Opening { hash }, Reply::Done) => next matches Step::Done(Ok(Some(r)))
            && is_fresh(r, hash),
        _ => talk::is_confused(next),
    }
}

impl GetReader {
    /// Starts to open the latest version of `path`.
    pub fn start(path: &str) -> (r: Step<GetReader, Option<BloxtreeReader>>)
        ensures
            get_starts(path@, r),
    {
        match validate(path) {
            Err(e) => Step::Done(Err(e)),
            Ok(_) => Step::Ask(
                Request::Index(Query::Latest { path: path.to_owned() }),
                GetReader::Looking,
            ),
        }
    }

    /// Starts to open the blob with the given hash.
    pub fn start_by_hash(hash: hash::Hash) -> (r: Step<GetReader, Option<BloxtreeReader>>)
        ensures
            opens(r, hash),
    {
        Step::Ask(Request::OpenBlob { hash }, GetReader::Opening { hash })
    }

    /// Goes on with the reply.
    pub fn resume(self, reply: Reply) -> (r: Step<GetReader, Option<BloxtreeReader>>)
        ensures
            get_resumes(self, reply, r),
    {
        match (self, reply) {
            (GetReader::Opening { .. }, Reply::Failed(e)) => if not_found(&e) {
                Step::Done(Ok(None))
            } else {
                Step::Done(Err(e))
            },
            (_, Reply::Failed(e)) => Step::Done(Err(e)),
            (GetReader::Looking, Reply::Versions(v)) => {
                if v.len() == 0 {
                    return Step::Done(Ok(None));
                }
                match read_version(&v[0]) {
                    Err(e) => Step::Done(Err(e)),
                    Ok(version) => GetReader::start_by_hash(version.hash),
                }
            },
            (GetReader::Opening { hash }, Reply::Done) => Step::Done(
                Ok(Some(BloxtreeReader::new(hash))),
            ),
            _ => confused(),
        }
    }
}

// ---------------------------------------------------------------------------
// Bytes
// ---------------------------------------------------------------------------

/// Reading the latest version of a path into memory.
#[derive(Debug)]
pub enum GetBytes {
    /// The blob is being found and opened.
    Finding(GetReader),
    /// The next bytes are being read; `bytes` were read before.
    Reading { reader: BloxtreeReader, bytes: Vec<u8> },
}

/// The step of reading bytes while the blob is being opened.
pub open spec fn finds(
    s: Step<GetReader, Option<BloxtreeReader>>,
    step: Step<GetBytes, Option<Vec<u8>>>,
) -> bool {
    match s {
        Step::Ask(request, t) => step == Step::<GetBytes, Option<Vec<u8>>>::Ask(
            request,
            GetBytes::Finding(t),
        ),
        Step::Done(Err(e)) => step == Step::<GetBytes, Option<Vec<u8>>>::Done(Err(e)),
        Step::Done(Ok(None)) => step == Step::<GetBytes, Option<Vec<u8>>>::Done(Ok(None)),
        Step::Done(Ok(Some(r))) => {
            &&& step matches Step::Ask(Request::ReadBlob, GetBytes::Reading { reader, bytes })
            &&& reader == r
            &&& bytes@.len() == 0
        },
    }
}

/// The first step of reading the latest version of a path.
pub open spec fn bytes_start(path: Seq<char>, step: Step<GetBytes, Option<Vec<u8>>>) -> bool {
    exists|s: Step<GetReader, Option<BloxtreeReader>>| #[trigger]
        get_starts(path, s) && finds(s, step)
}

/// The step of reading bytes after a reply.
pub open spec fn bytes_resume(
    task: GetBytes,
    reply: Reply,
    next: Step<GetBytes, Option<Vec<u8>>>,
) -> bool {
    match (task, reply) {
        (GetBytes::Finding(t), _) => exists|s: Step<GetReader, Option<BloxtreeReader>>| #[trigger]
            get_resumes(t, reply, s) && finds(s, next),
        (GetBytes::Reading { reader, bytes }, Reply::Chunk(c)) => match next {
            Step::Ask(request, GetBytes::Reading { reader: r, bytes: b }) => {
                &&& request is ReadBlob
                &&& c@.len() > 0
                &&& reader::absorbs(reader, c@, READ_CHUNK, r, Ok(()))
                &&& b@ == bytes@ + c@
            },
            Step::Ask(..) => false,
            Step::Done(Ok(out)) => {
                &&& c@.len() == 0
                &&& out matches Some(b)
                &&& b@ == bytes@
                &&& exists|r: BloxtreeReader| reader::absorbs(reader, c@, READ_CHUNK, r, Ok(()))
            },
            Step::Done(Err(e)) => exists|r: BloxtreeReader|
                reader::absorbs(reader, c@, READ_CHUNK, r, Err(e)),
        },
        (GetBytes::Reading { .. }, Reply::Failed(e)) => next == Step::<
            GetBytes,
            Option<Vec<u8>>,
        >::Done(Err(e)),
        _ => talk::is_confused(next),
    }
}

/// The step of reading bytes while the blob is being opened.
fn find(s: Step<GetReader, Option<BloxtreeReader>>) -> (r: Step<GetBytes, Option<Vec<u8>>>)
    ensures
        finds(s, r),
{
    match s {
        Step::Ask(request, t) => Step::Ask(request, GetBytes::Finding(t)),
        Step::Done(Err(e)) => Step::Done(Err(e)),
        Step::Done(Ok(None)) => Step::Done(Ok(None)),
        Step::Done(Ok(Some(reader))) => Step::Ask(
            Request::ReadBlob,
            GetBytes::Reading { reader, bytes: Vec::new() },
        ),
    }
}

impl GetBytes {
    /// Starts to read the latest version of `path` into memory.
    pub fn start(path: &str) -> (r: Step<GetBytes, Option<Vec<u8>>>)
        ensures
            bytes_start(path@, r),
    {
        find(GetReader::start(path))
    }

    /// Goes on with the reply.
    pub fn resume(self, reply: Reply) -> (r: Step<GetBytes, Option<Vec<u8>>>)
        ensures
            bytes_resume(self, reply, r),
    {
        match self {
            GetBytes::Finding(t) => find(t.resume(reply)),
            GetBytes::Reading { reader, bytes } => match reply {
                Reply::Failed(e) => Step::Done(Err(e)),
                Reply::Chunk(c) => {
                    let ghost before = reader;
                    let (reader, outcome) = reader.absorb(c.as_slice(), READ_CHUNK);
                    match outcome {
                        Err(e) => Step::Done(Err(e)),
                        Ok(()) => {
                            assert(reader::absorbs(before, c@, READ_CHUNK, reader, Ok(())));
                            if c.len() == 0 {
                                Step::Done(Ok(Some(bytes)))
                            } else {
                                let mut bytes = bytes;
                                let mut c = c;
                                bytes.append(&mut c);
                                Step::Ask(Request::ReadBlob, GetBytes::Reading { reader, bytes })
                            }
                        },
                    }
                },
                _ => confused(),
            },
        }
    }
}

// ---------------------------------------------------------------------------
// Metadata
// ---------------------------------------------------------------------------

/// The metadata of the latest version of a path.
#[derive(Debug, Clone, Copy)]
pub struct PathStat {
    pub hash: hash::Hash,
    pub uuid: Uuid,
    pub size: u64,
    pub created_at: Timestamp,
    pub refcount: u32,
}

/// Finding out the metadata of the latest version of a path.
#[derive(Debug)]
pub enum StatPath {
    /// The latest version is being looked up.
    Looking,
    /// The blob is being looked at.
    Stating { version: VersionInfo },
    /// The rows with the hash are being counted.
    Counting { version: VersionInfo, blob: BlobStat },
}

/// The first step of finding out the metadata of a path.
pub open spec fn stat_starts(path: Seq<char>, step: Step<StatPath, Option<PathStat>>) -> bool {
    match path::path_problem(path) {
        Some(why) => step matches Step::Done(Err(e)) && e@ == error::ErrorView::InvalidPath(why),
        None => {
            &&& step matches Step::Ask(Request::Index(Query::Latest { path: p }), StatPath::Looking)
            &&& p@ == path
        },
    }
}

/// The step of finding out the metadata of a path after a reply. Of the rows
/// only the first is looked at.
pub open spec fn stat_resumes(
    task: StatPath,
    reply: Reply,
    next: Step<StatPath, Option<PathStat>>,
) -> bool {
    match (task, reply) {
        (_, Reply::Failed(e)) => next == Step::<StatPath, Option<PathStat>>::Done(Err(e)),
        (StatPath::Looking, Reply::Versions(v)) => if v@.len() == 0 {
            next == Step::<StatPath, Option<PathStat>>::Done(Ok(None))
        } else {
            match index::version_in(v@[0]) {
                Err(m) => next matches Step::Done(Err(e)) && e@ == error::ErrorView::Other(m),
                Ok(version) => {
                    &&& next matches Step::Ask(
                        Request::StatBlob { hash },
                        StatPath::Stating { version: found },
                    )
                    &&& found@ == version
                    &&& hash == found.hash
                },
            }
        },
        (StatPath::Stating { version }, Reply::Stat(blob)) => next == Step::<
            StatPath,
            Option<PathStat>,
        >::Ask(
            Request::Index(Query::RefCount { hash: version.hash }),
            StatPath::Counting { version, blob },
        ),
        (StatPath::Counting { version, blob }, Reply::Count(v)) => match index::count_in(v) {
            Err(m) => next matches Step::Done(Err(e)) && e@ == error::ErrorView::Other(m),
            Ok(refcount) => next == Step::<StatPath, Option<PathStat>>::Done(
                Ok(
                    Some(
                        PathStat {
                            hash: version.hash,
                            uuid: version.uuid,
                            size: blob.size,
                            created_at: blob.created_at,
                            refcount,
                        },
                    ),
                ),
            ),
        },
        _ => talk::is_confused(next),
    }
}

impl StatPath {
    /// Starts to find out the metadata of the latest version of `path`.
    pub fn start(path: &str) -> (r: Step<StatPath, Option<PathStat>>)
        ensures
            stat_starts(path@, r),
    {
        match validate(path) {
            Err(e) => Step::Done(Err(e)),
            Ok(_) => Step::Ask(
                Request::Index(Query::Latest { path: path.to_owned() }),
                StatPath::Looking,
            ),
        }
    }

    /// Goes on with the reply.
    pub fn resume(self, reply: Reply) -> (r: Step<StatPath, Option<PathStat>>)
        ensures
            stat_resumes(self, reply, r),
    {
        match (self, reply) {
            (_, Reply::Failed(e)) => Step::Done(Err(e)),
            (StatPath::Looking, Reply::Versions(v)) => {
                if v.len() == 0 {
                    return Step::Done(Ok(None));
                }
                match read_version(&v[0]) {
                    Err(e) => Step::Done(Err(e)),
                    Ok(version) => Step::Ask(
                        Request::StatBlob { hash: version.hash },
                        StatPath::Stating { version },
                    ),
                }
            },
            (StatPath::Stating { version }, Reply::Stat(blob)) => Step::Ask(
                Request::Index(Query::RefCount { hash: version.hash }),
                StatPath::Counting { version, blob },
            ),
            (StatPath::Counting { version, blob }, Reply::Count(v)) => match value_to_count(v) {
                Err(e) => Step::Done(Err(e)),
                Ok(refcount) => Step::Done(
                    Ok(
                        Some(
                            PathStat {
                                hash: version.hash,
                                uuid: version.uuid,
                                size: blob.size,
                                created_at: blob.created_at,
                                refcount,
                            },
                        ),
                    ),
                ),
            },
            _ => confused(),
        }
    }
}

} // verus!
