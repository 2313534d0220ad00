//! Reading blobs: what is read is hashed, and at the end the hash must be the
//! one that the blob is named by.

use vstd::prelude::*;

use crate::error;
use crate::error::{Error, IoError, IoErrorKind};
use crate::hash;
use crate::hash::Digest;

verus! {

/// The reader of a blob. It is shown every chunk that is read from the blob's
/// file and verifies the BLAKE3 hash at the end.
#[derive(Debug)]
pub struct BloxtreeReader {
    pub digest: Digest,
    pub expected: hash::Hash,
    pub verified: bool,
}

/// The reader after `chunk` was read into a buffer with `room` for that many
/// bytes, and what comes of it. Nothing can be read without room. Where there is
/// room, an empty chunk is the end of the blob; the first time, the hash is
/// verified there.
pub open spec fn absorbs(
    reader: BloxtreeReader,
    chunk: Seq<u8>,
    room: usize,
    after: BloxtreeReader,
    outcome: Result<(), Error>,
) -> bool {
    let actual = hash::blake3_digest(reader.digest@);
    &&& after.expected == reader.expected
    &&& after.digest@ == (if room == 0 {
        reader.digest@
    } else {
        reader.digest@ + chunk
    })
    &&& if room > 0 && chunk.len() == 0 && !reader.verified {
        if actual == reader.expected@ {
            outcome is Ok && after.verified
        } else {
            &&& outcome matches Err(e)
            &&& e@ == error::ErrorView::Io(
                IoErrorKind::InvalidData,
                error::ErrorView::HashMismatch { expected: reader.expected@, actual }.message(),
            )
            &&& !after.verified
        }
    } else {
        outcome is Ok && after.verified == reader.verified
    }
}

impl BloxtreeReader {
    /// A reader for a blob that should have the given hash.
    pub fn new(expected: hash::Hash) -> (r: BloxtreeReader)
        ensures
            r.digest@ == Seq::<u8>::empty(),
            r.expected == expected,
            !r.verified,
    {
        BloxtreeReader { digest: Digest::new(), expected, verified: false }
    }

    /// Takes in the next chunk that was read into a buffer with `room` for that
    /// many bytes.
    pub fn absorb(self, chunk: &[u8], room: usize) -> (r: (BloxtreeReader, Result<(), Error>))
        ensures
            absorbs(self, chunk@, room, r.0, r.1),
            room == 0 ==> r.0 == self,
    {
        if room == 0 {
            return (self, Ok(()));
        }
        let BloxtreeReader { digest, expected, verified } = self;
        if chunk.len() == 0 && !verified {
            proof {
                assert(digest@ + chunk@ =~= digest@);
            }
            let actual = digest.finish();
            if !actual.equals(&expected) {
                let e = IoError {
                    kind: IoErrorKind::InvalidData,
                    message: Error::HashMismatch { expected, actual }.message(),
                };
                return (BloxtreeReader { digest, expected, verified }, Err(Error::Io(e)));
            }
            (BloxtreeReader { digest, expected, verified: true }, Ok(()))
        } else {
            (BloxtreeReader { digest: digest.update(chunk), expected, verified }, Ok(()))
        }
    }
}

} // verus!
