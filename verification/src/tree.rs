//! The store: opening it, and the first step of each of its operations.

use vstd::prelude::*;
use vstd::slice::*;
use vstd::string::*;

use crate::add;
use crate::add::{Add, AddResult};
use crate::error;
use crate::error::Error;
use crate::get;
use crate::get::{GetBytes, GetReader, PathStat, StatPath};
use crate::hash;
use crate::index::VersionInfo;
use crate::list;
use crate::list::{CommonPrefixEntry, ListFolder, ListPaths, ListVersions, PathEntry};
use crate::reader::BloxtreeReader;
use crate::remove;
use crate::remove::{RemoveFolder, RemovePath, TrimPath};
use crate::store;
use crate::store::{already_there, BlobStore, OpenStore, Source};
use crate::talk;
use crate::talk::{confused, Folder, Reply, Request, Step};

verus! {

/// An open store. Its database and its object directory are with the caller,
/// who carries out what the operations ask for.
#[derive(Debug)]
pub struct Bloxtree {
    /// The root directory, as it is shown to the user.
    pub root: String,
    /// The blobs.
    pub store: BlobStore,
}

// ---------------------------------------------------------------------------
// Opening
// ---------------------------------------------------------------------------

/// What is being done to open a store.
#[derive(Clone, Copy, Debug, PartialEq, Eq, Structural)]
pub enum OpenStage {
    /// It is being found out whether the root exists.
    FindingRoot,
    /// It is being found out whether the root is a directory.
    TestingRoot,
    /// `objects/` is being made.
    MakingObjects,
    /// It is being found out whether the path of the index is text.
    TestingIndexPath,
    /// The index is being opened.
    OpeningIndex,
    /// The schema is being applied.
    ApplyingSchema,
    /// `objects/tmp/` is being made.
    MakingTemporary,
}

/// Opening a store.
#[derive(Debug)]
pub struct Open {
    pub root: String,
    pub stage: OpenStage,
}

/// What is asked for at a stage.
pub open spec fn request_at(stage: OpenStage) -> Request {
    match stage {
        OpenStage::FindingRoot => Request::RootExists,
        OpenStage::TestingRoot => Request::RootIsDirectory,
        OpenStage::MakingObjects => Request::CreateDirectory { folder: Folder::Objects },
        OpenStage::TestingIndexPath => Request::IndexPathIsText,
        OpenStage::OpeningIndex => Request::OpenIndex,
        OpenStage::ApplyingSchema => Request::ApplySchema,
        OpenStage::MakingTemporary => Request::CreateDirectory { folder: Folder::Temporary },
    }
}

/// Opening goes on with the stage.
pub open spec fn opening_at(root: Seq<char>, stage: OpenStage, step: Step<Open, Bloxtree>) -> bool {
    &&& step matches Step::Ask(request, t)
    &&& request == request_at(stage)
    &&& t.root@ == root
    &&& t.stage == stage
}

/// Opening ends with an error.
pub open spec fn opening_fails(m: Seq<char>, step: Step<Open, Bloxtree>) -> bool {
    step matches Step::Done(Err(e)) && e@ == error::ErrorView::Other(m)
}

/// The step of opening after a reply.
pub open spec fn open_resumes(task: Open, reply: Reply, next: Step<Open, Bloxtree>) -> bool {
    let root = task.root@;
    match (task.stage, reply) {
        (OpenStage::FindingRoot, Reply::Answer(yes)) => if yes {
            opening_at(root, OpenStage::TestingRoot, next)
        } else {
            opening_fails("root directory does not exist: "@ + root, next)
        },
        (OpenStage::TestingRoot, Reply::Answer(yes)) => if yes {
            opening_at(root, OpenStage::MakingObjects, next)
        } else {
            opening_fails("root is not a directory: "@ + root, next)
        },
        (OpenStage::MakingObjects, Reply::Done) => opening_at(
            root,
            OpenStage::TestingIndexPath,
            next,
        ),
        (OpenStage::MakingObjects, Reply::Failed(e)) => if store::is_already_there(e) {
            opening_at(root, OpenStage::TestingIndexPath, next)
        } else {
            next == Step::<Open, Bloxtree>::Done(Err(e))
        },
        (OpenStage::TestingIndexPath, Reply::Answer(yes)) => if yes {
            opening_at(root, OpenStage::OpeningIndex, next)
        } else {
            opening_fails("index path is not valid UTF-8"@, next)
        },
        (OpenStage::OpeningIndex, Reply::Done) => opening_at(
            root,
            OpenStage::ApplyingSchema,
            next,
        ),
        (OpenStage::ApplyingSchema, Reply::Done) => opening_at(
            root,
            OpenStage::MakingTemporary,
            next,
        ),
        (OpenStage::MakingTemporary, Reply::Done) => next matches Step::Done(Ok(bt)) && bt.root@
            == root,
        (OpenStage::MakingTemporary, Reply::Failed(e)) => if store::is_already_there(e) {
            next matches Step::Done(Ok(bt)) && bt.root@ == root
        } else {
            next == Step::<Open, Bloxtree>::Done(Err(e))
        },
        (_, Reply::Failed(e)) => next == Step::<Open, Bloxtree>::Done(Err(e)),
        _ => talk::is_confused(next),
    }
}

/// Goes on with the stage.
fn open_at(root: String, stage: OpenStage) -> (r: Step<Open, Bloxtree>)
    ensures
        opening_at(root@, stage, r),
{
    let request = match stage {
        OpenStage::FindingRoot => Request::RootExists,
        OpenStage::TestingRoot => Request::RootIsDirectory,
        OpenStage::MakingObjects => Request::CreateDirectory { folder: Folder::Objects },
        OpenStage::TestingIndexPath => Request::IndexPathIsText,
        OpenStage::OpeningIndex => Request::OpenIndex,
        OpenStage::ApplyingSchema => Request::ApplySchema,
        OpenStage::MakingTemporary => Request::CreateDirectory { folder: Folder::Temporary },
    };
    Step::Ask(request, Open { root, stage })
}

impl Open {
    /// Goes on with the reply.
    pub fn resume(self, reply: Reply) -> (r: Step<Open, Bloxtree>)
        ensures
            open_resumes(self, reply, r),
    {
        let Open { root, stage } = self;
        match (stage, reply) {
            (OpenStage::FindingRoot, Reply::Answer(yes)) => if yes {
                open_at(root, OpenStage::TestingRoot)
            } else {
                let m = "root directory does not exist: ".to_owned().concat(root.as_str());
                Step::Done(Err(Error::Other(m)))
            },
            (OpenStage::TestingRoot, Reply::Answer(yes)) => if yes {
                open_at(root, OpenStage::MakingObjects)
            } else {
                let m = "root is not a directory: ".to_owned().concat(root.as_str());
                Step::Done(Err(Error::Other(m)))
            },
            (OpenStage::MakingObjects, Reply::Done) => open_at(root, OpenStage::TestingIndexPath),
            (OpenStage::MakingObjects, Reply::Failed(e)) => if already_there(&e) {
                open_at(root, OpenStage::TestingIndexPath)
            } else {
                Step::Done(Err(e))
            },
            (OpenStage::TestingIndexPath, Reply::Answer(yes)) => if yes {
                open_at(root, OpenStage::OpeningIndex)
            } else {
                Step::Done(Err(Error::Other("index path is not valid UTF-8".to_owned())))
            },
            (OpenStage::OpeningIndex, Reply::Done) => open_at(root, OpenStage::ApplyingSchema),
            (OpenStage::ApplyingSchema, Reply::Done) => open_at(root, OpenStage::MakingTemporary),
            (OpenStage::MakingTemporary, reply) => match OpenStore.resume(reply) {
                Step::Done(Ok(store)) => Step::Done(Ok(Bloxtree { root, store })),
                Step::Done(Err(e)) => Step::Done(Err(e)),
                Step::Ask(..) => confused(),
            },
            (_, Reply::Failed(e)) => Step::Done(Err(e)),
            _ => confused(),
        }
    }
}

// ---------------------------------------------------------------------------
// Shutting down
// ---------------------------------------------------------------------------

/// Shutting a store down: the index is being flushed.
#[derive(Debug)]
pub struct Shutdown;

/// The step of shutting down after a reply.
pub open spec fn shutdown_resumes(task: Shutdown, reply: Reply, next: Step<Shutdown, ()>) -> bool {
    match reply {
        Reply::Done => next == Step::<Shutdown, ()>::Done(Ok(())),
        Reply::Failed(e) => next == Step::<Shutdown, ()>::Done(Err(e)),
        _ => talk::is_confused(next),
    }
}

impl Shutdown {
    /// Goes on with the reply.
    pub fn resume(self, reply: Reply) -> (r: Step<Shutdown, ()>)
        ensures
            shutdown_resumes(self, reply, r),
    {
        match reply {
            Reply::Done => Step::Done(Ok(())),
            Reply::Failed(e) => Step::Done(Err(e)),
            _ => confused(),
        }
    }
}

// ---------------------------------------------------------------------------
// Operations
// ---------------------------------------------------------------------------

/// The texts of a slice of strings.
pub open spec fn path_texts(paths: Seq<&str>) -> Seq<Seq<char>> {
    Seq::new(paths.len(), |i: int| paths[i]@)
}

/// The strings of a slice, owned.
fn owned(paths: &[&str]) -> (r: Vec<String>)
    ensures
        crate::index::texts(r@) == path_texts(paths@),
{
    let mut r: Vec<String> = Vec::new();
    let mut i: usize = 0;
    while i < paths.len()
        invariant
            i <= paths@.len(),
            r@.len() == i,
            forall|j: int| 0 <= j < i ==> (#[trigger] r@[j])@ == paths@[j]@,
        decreases paths@.len() - i,
    {
        r.push(paths[i].to_owned());
        i += 1;
    }
    proof {
        assert(crate::index::texts(r@) =~= path_texts(paths@));
    }
    r
}

/// The first step of adding the bytes under the paths.
pub open spec fn adds_bytes(
    paths: Seq<Seq<char>>,
    data: Seq<u8>,
    step: Step<Add, AddResult>,
) -> bool {
    exists|source: Source|
        {
            &&& #[trigger] add::add_starts(paths, source, step)
            &&& source matches Source::Bytes { data: d, at }
            &&& d@ == data
            &&& at == 0
        }
}

impl Bloxtree {
    /// Open (or create) a store at `root`. Makes `objects/`, the index and
    /// `objects/tmp/` where they are missing. Fails if `root` itself does not
    /// exist or is no directory.
    pub fn open(root: &str) -> (r: Step<Open, Bloxtree>)
        ensures
            opening_at(root@, OpenStage::FindingRoot, r),
    {
        open_at(root.to_owned(), OpenStage::FindingRoot)
    }

    /// Single path convenience variant for `add_bytes_to`.
    pub fn add_bytes(&mut self, path: &str, data: &[u8]) -> (r: Step<Add, AddResult>)
        ensures
            adds_bytes(seq![path@], data@, r),
            *final(self) == *old(self),
    {
        let mut paths: Vec<String> = Vec::new();
        paths.push(path.to_owned());
        proof {
            assert(crate::index::texts(paths@) =~= seq![path@]);
        }
        Add::start(paths, Source::Bytes { data: slice_to_vec(data), at: 0 })
    }

    /// Add the given bytes to all paths.
    pub fn add_bytes_to(&mut self, paths: &[&str], data: &[u8]) -> (r: Step<Add, AddResult>)
        ensures
            adds_bytes(path_texts(paths@), data@, r),
            *final(self) == *old(self),
    {
        Add::start(owned(paths), Source::Bytes { data: slice_to_vec(data), at: 0 })
    }

    /// Single path convenience variant for `add_reader_to`.
    pub fn add_reader(&mut self, path: &str) -> (r: Step<Add, AddResult>)
        ensures
            add::add_starts(seq![path@], Source::Reader, r),
            *final(self) == *old(self),
    {
        let mut paths: Vec<String> = Vec::new();
        paths.push(path.to_owned());
        proof {
            assert(crate::index::texts(paths@) =~= seq![path@]);
        }
        Add::start(paths, Source::Reader)
    }

    /// Insert data by consuming the input and registering it at all paths.
    pub fn add_reader_to(&mut self, paths: &[&str]) -> (r: Step<Add, AddResult>)
        ensures
            add::add_starts(path_texts(paths@), Source::Reader, r),
            *final(self) == *old(self),
    {
        Add::start(owned(paths), Source::Reader)
    }

    /// Read the latest version of a path into memory; `None` if there is none.
    pub fn get_bytes(&self, path: &str) -> (r: Step<GetBytes, Option<Vec<u8>>>)
        ensures
            get::bytes_start(path@, r),
    {
        GetBytes::start(path)
    }

    /// Open the latest version of a path; `None` if there is none.
    pub fn get_reader(&self, path: &str) -> (r: Step<GetReader, Option<BloxtreeReader>>)
        ensures
            get::get_starts(path@, r),
    {
        GetReader::start(path)
    }

    /// Open the blob with the given hash.
    pub fn get_reader_by_hash(&self, hash: hash::Hash) -> (r: Step<
        GetReader,
        Option<BloxtreeReader>,
    >)
        ensures
            get::opens(r, hash),
    {
        GetReader::start_by_hash(hash)
    }

    /// Remove a path, or only the given version of it. A blob goes when no path
    /// references it any more.
    pub fn remove_path(&mut self, path: &str, hash: Option<hash::Hash>) -> (r: Step<RemovePath, ()>)
        ensures
            remove::removal_starts(path@, hash, r),
            *final(self) == *old(self),
    {
        RemovePath::start(path, hash)
    }

    /// Removes all entries with the (folder_name + "/") prefix.
    pub fn remove_folder(&mut self, folder_name: &str) -> (r: Step<RemoveFolder, ()>)
        ensures
            remove::folder_removal_starts(folder_name@, r),
            *final(self) == *old(self),
    {
        RemoveFolder::start(folder_name)
    }

    /// Remove any version above `max_versions`; with 0, remove the path.
    pub fn trim_path(&mut self, path: &str, max_versions: u8) -> (r: Step<TrimPath, ()>)
        ensures
            remove::trim_starts(path@, max_versions, r),
            *final(self) == *old(self),
    {
        TrimPath::start(path, max_versions)
    }

    /// List what lies directly below a folder; the empty name is the root.
    pub fn list_folder(&self, folder_name: &str) -> (r: Step<ListFolder, Vec<CommonPrefixEntry>>)
        ensures
            list::folder_listing_starts(folder_name@, r),
    {
        ListFolder::start(folder_name)
    }

    /// List all paths with their latest version.
    pub fn list_paths(&self) -> (r: Step<ListPaths, Vec<PathEntry>>)
        ensures
            list::path_listing_starts(r),
    {
        ListPaths::start()
    }

    /// The versions of a path from new to old; empty if there are none.
    pub fn versions(&self, path: &str) -> (r: Step<ListVersions, Vec<VersionInfo>>)
        ensures
            list::version_listing_starts(path@, r),
    {
        ListVersions::start(path)
    }

    /// Flush everything to disk and give the store up. The caller then drops
    /// the connection.
    pub fn shutdown(self) -> (r: Step<Shutdown, ()>)
        ensures
            r == Step::<Shutdown, ()>::Ask(Request::FlushIndex, Shutdown),
    {
        Step::Ask(Request::FlushIndex, Shutdown)
    }

    /// Stat the latest version of a path: size, creation time and refcount.
    pub fn stat_path(&self, path: &str) -> (r: Step<StatPath, Option<PathStat>>)
        ensures
            get::stat_starts(path@, r),
    {
        StatPath::start(path)
    }
}

} // verus!
