//! How an operation talks to the outside.
//!
//! The store's operations do no input or output of their own. Each is a
//! conversation: it asks for one thing at a time, is handed the reply, and in
//! the end is done. The caller holds the database connection and the object
//! directory and carries the requests out.

use vstd::prelude::*;
use vstd::string::*;

use crate::error;
use crate::error::Error;
use crate::hash;
use crate::index::{EntryRow, Query, Value, VersionRow};

verus! {

/// How many bytes a reader is asked for at a time.
pub const READ_CHUNK: usize = 8192;

/// A directory of the store.
#[derive(Clone, Copy, Debug, PartialEq, Eq, Structural)]
pub enum Folder {
    /// `objects/`, where the blobs are.
    Objects,
    /// `objects/tmp/`, where blobs are while they are written.
    Temporary,
}

/// A point in time: seconds since the Unix epoch and the nanoseconds within the
/// second.
#[derive(Clone, Copy, Debug, PartialEq, Eq, Structural)]
pub struct Timestamp {
    pub seconds: i64,
    pub nanos: u32,
}

/// Lightweight metadata about a stored blob.
#[derive(Clone, Copy, Debug, PartialEq, Eq, Structural)]
pub struct BlobStat {
    pub size: u64,
    pub created_at: Timestamp,
}

/// What an operation asks for.
#[derive(Debug)]
pub enum Request {
    /// Whether the root of the store exists.
    RootExists,
    /// Whether the root of the store is a directory.
    RootIsDirectory,
    /// Make one directory.
    CreateDirectory { folder: Folder },
    /// Whether the path of the index is valid UTF-8.
    IndexPathIsText,
    /// Open the index database.
    OpenIndex,
    /// Apply the schema to the index database.
    ApplySchema,
    /// Put a query to the index database.
    Index(Query),
    /// Write everything that the index database holds through to the disk.
    FlushIndex,
    /// Make an empty temporary file.
    CreateTemp,
    /// Read the next bytes of the input.
    ReadInput,
    /// Append to the temporary file.
    WriteTemp { data: Vec<u8> },
    /// Whether the file of a blob exists.
    BlobExists { hash: hash::Hash },
    /// Make the directory that the file of a blob is in.
    CreateBlobDirectory { hash: hash::Hash },
    /// Write the temporary file through to the disk.
    SyncTemp,
    /// Rename the temporary file to the file of a blob.
    PersistTemp { hash: hash::Hash },
    /// Remove the temporary file.
    DiscardTemp,
    /// Open the file of a blob.
    OpenBlob { hash: hash::Hash },
    /// Read the next bytes of the blob that is open.
    ReadBlob,
    /// Remove the file of a blob.
    RemoveBlob { hash: hash::Hash },
    /// The size and the creation time of the file of a blob.
    StatBlob { hash: hash::Hash },
}

/// What comes back.
#[derive(Debug)]
pub enum Reply {
    /// It was done.
    Done,
    /// The answer to a question.
    Answer(bool),
    /// The bytes read; none at the end.
    Chunk(Vec<u8>),
    /// The metadata of a blob.
    Stat(BlobStat),
    /// How many rows a statement changed.
    Changed(u64),
    /// Rows with the columns `uuid` and `hash`.
    Versions(Vec<VersionRow>),
    /// Rows with the columns `path`, `uuid` and `hash`.
    Entries(Vec<EntryRow>),
    /// Rows with the column `hash`.
    Hashes(Vec<Value>),
    /// The row of a count, if there is one.
    Count(Option<Value>),
    /// It could not be done.
    Failed(Error),
}

/// Where an operation stands: it asks, to be resumed with the reply, or it is
/// done.
#[derive(Debug)]
pub enum Step<T, R> {
    Ask(Request, T),
    Done(Result<R, Error>),
}

/// An operation that was handed a reply which answers another request.
pub open spec fn is_confused<T, R>(step: Step<T, R>) -> bool {
    step matches Step::Done(Err(e)) && e@ == error::ErrorView::Other(
        "the reply does not answer the request"@,
    )
}

/// Ends an operation that was handed a reply which answers another request.
pub fn confused<T, R>() -> (r: Step<T, R>)
    ensures
        is_confused(r),
{
    Step::Done(Err(Error::Other("the reply does not answer the request".to_owned())))
}

} // verus!
