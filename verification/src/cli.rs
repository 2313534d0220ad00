//! The command line: what each command asks of the store, what it prints, and
//! how it ends.

use vstd::prelude::*;
use vstd::string::*;

use crate::add::AddResult;
use crate::error;
use crate::error::Error;
use crate::hash;
use crate::index;
use crate::index::VersionInfo;
use crate::list;
use crate::list::{CommonPrefixEntry, Listed, PathEntry};
use crate::text::chars_of;
use crate::uuid;

verus! {

// ---------------------------------------------------------------------------
// Commands
// ---------------------------------------------------------------------------

/// A command, with its arguments as they were given.
#[derive(Debug)]
pub enum Command {
    /// Store a blob under one or more paths.
    Add { paths: Vec<String>, file: Option<String> },
    /// Fetch the latest version of a path, or the version with a hash.
    Get { path: String, hash: Option<String> },
    /// Delete a path or a specific version of it.
    Remove { path: String, hash: Option<String> },
    /// Keep only the newest versions of a path.
    Trim { path: String, max_versions: u8 },
    /// List what lies directly below a prefix.
    List { prefix: Option<String> },
    /// List all paths with their latest version.
    Paths,
    /// Show the versions of a path, newest first.
    Versions { path: String },
    /// Print store metadata.
    Info,
}

/// How a command fails.
#[derive(Debug)]
pub enum CliError {
    /// An error of the store.
    Core(Error),
    /// An input or output error, by its message.
    Io(String),
    /// A command that cannot be carried out.
    Usage(String),
    /// A bad argument.
    BadArgument(String),
}

impl CliError {
    /// The message shown to the user.
    pub open spec fn text(self) -> Seq<char> {
        match self {
            CliError::Core(e) => e@.message(),
            CliError::Io(m) => m@,
            CliError::Usage(m) => m@,
            CliError::BadArgument(m) => m@,
        }
    }

    /// The exit code: 2 for bad arguments, 1 for everything else.
    pub open spec fn code(self) -> u8 {
        if self is BadArgument {
            2
        } else {
            1
        }
    }

    /// The message shown to the user.
    pub fn message(&self) -> (r: String)
        ensures
            r@ == self.text(),
    {
        match self {
            CliError::Core(e) => e.message(),
            CliError::Io(m) => m.clone(),
            CliError::Usage(m) => m.clone(),
            CliError::BadArgument(m) => m.clone(),
        }
    }

    /// The exit code.
    pub fn exit_code(&self) -> (r: u8)
        ensures
            r == self.code(),
    {
        match self {
            CliError::BadArgument(_) => 2,
            _ => 1,
        }
    }
}

/// What a command asks for.
#[derive(Debug)]
pub enum CliRequest {
    /// Add the content of the file, or of the standard input, under the paths.
    Add { paths: Vec<String>, file: Option<String> },
    /// Open a reader for the latest version of a path, and hold it.
    OpenPath { path: String },
    /// Open a reader for a blob, and hold it.
    OpenHash { hash: hash::Hash },
    /// Copy what the reader held gives to where the output goes.
    CopyOut,
    /// Remove a path, or one version of it.
    Remove { path: String, version: Option<hash::Hash> },
    /// Trim a path.
    Trim { path: String, max_versions: u8 },
    /// List a folder.
    Folder { prefix: String },
    /// List all paths.
    Paths,
    /// List the versions of a path.
    Versions { path: String },
}

/// What comes back.
#[derive(Debug)]
pub enum CliReply {
    /// The input file could not be opened, and why.
    CannotOpen(String),
    Added(Result<AddResult, Error>),
    /// Whether there is something to read.
    Opened(Result<bool, Error>),
    /// How many bytes were copied, or the message of the error.
    Copied(Result<u64, String>),
    Finished(Result<(), Error>),
    Folder(Result<Vec<CommonPrefixEntry>, Error>),
    Paths(Result<Vec<PathEntry>, Error>),
    Versions(Result<Vec<VersionInfo>, Error>),
}

/// What a command prints, line by line.
#[derive(Debug)]
pub struct Output {
    pub stdout: Vec<String>,
    pub stderr: Vec<String>,
}

/// Where a command stands.
#[derive(Debug)]
pub enum CliStep {
    Ask(CliRequest, Run),
    Done(Result<Output, CliError>),
}

/// A command in progress.
#[derive(Debug)]
pub enum Run {
    Adding { file: Option<String>, quiet: bool },
    OpeningPath { path: String, quiet: bool },
    /// The versions of the path are being listed, to find the one asked for.
    FindingVersion { path: String, hex: String, hash: hash::Hash, quiet: bool },
    OpeningHash { hex: String, quiet: bool },
    Copying { quiet: bool },
    /// Nothing is printed at the end.
    Finishing,
    ListingFolder,
    ListingPaths,
    ListingVersions,
    /// The paths for the summary are being listed.
    Surveying { store: String },
    /// The versions of `paths[next]` are being listed; `hashes` are those of the
    /// versions before.
    Counting { store: String, paths: Vec<String>, next: usize, hashes: Vec<hash::Hash> },
}

// ---------------------------------------------------------------------------
// Numbers
// ---------------------------------------------------------------------------

/// A number in decimal.
pub open spec fn decimal(n: nat) -> Seq<char>
    decreases n,
{
    if n < 10 {
        seq![('0' as int + n) as char]
    } else {
        decimal(n / 10).push(('0' as int + n % 10) as char)
    }
}

/// The digit of a number below ten.
fn digit(n: u64) -> (r: char)
    requires
        n < 10,
    ensures
        r == ('0' as int + n) as char,
{
    match n {
        0 => '0',
        1 => '1',
        2 => '2',
        3 => '3',
        4 => '4',
        5 => '5',
        6 => '6',
        7 => '7',
        8 => '8',
        _ => '9',
    }
}

/// Writes a number in decimal.
pub fn decimal_text(n: u64) -> (r: String)
    ensures
        r@ == decimal(n as nat),
    decreases n,
{
    let mut r = if n < 10 {
        String::new()
    } else {
        decimal_text(n / 10)
    };
    r.push(digit(n % 10));
    proof {
        assert(r@ =~= decimal(n as nat));
    }
    r
}

// ---------------------------------------------------------------------------
// Lines
// ---------------------------------------------------------------------------

/// The line for an added version: its hash and its identifier.
pub open spec fn added_line(r: AddResult) -> Seq<char> {
    hash::hex_text(r.hash@) + "  "@ + uuid::hyphenated(r.uuid@)
}

/// The line for what a folder holds.
pub open spec fn listed_line(e: Listed) -> Seq<char> {
    match e {
        Listed::CommonPrefix(path) => "d  "@ + path + "/"@,
        Listed::Path(row) => "f  "@ + row.path + "  "@ + hash::hex_text(row.hash),
    }
}

/// The line for a path: the path, and the hash and the identifier of its latest
/// version.
pub open spec fn path_line(row: index::Row) -> Seq<char> {
    row.path + "  "@ + hash::hex_text(row.hash) + "  "@ + uuid::hyphenated(row.uuid)
}

/// The line for a version; the latest has the number one.
pub open spec fn version_line(number: int, v: index::Version) -> Seq<char> {
    decimal(number as nat) + "  "@ + hash::hex_text(v.hash) + "  "@ + uuid::hyphenated(v.uuid)
}

/// The line for what was copied.
pub open spec fn copied_line(n: u64) -> Seq<char> {
    decimal(n as nat) + " bytes"@
}

/// The hashes, each once.
pub open spec fn distinct(hashes: Seq<Seq<u8>>) -> Set<Seq<u8>> {
    hashes.to_set()
}

/// The lines of the summary: where the store is and how it is laid out, and how
/// many paths, versions and blobs there are.
pub open spec fn info_lines(store: Seq<char>, paths: nat, hashes: Seq<Seq<u8>>) -> Seq<Seq<char>> {
    seq![
        "store:    "@ + store,
        "objects:  "@ + store + "/objects"@,
        "index:    "@ + store + "/index.db"@,
        "paths:    "@ + decimal(paths),
        "versions: "@ + decimal(hashes.len()),
        "blobs:    "@ + decimal(distinct(hashes).len()),
    ]
}

/// The line for an added version.
pub fn format_added(r: &AddResult) -> (s: String)
    ensures
        s@ == added_line(*r),
{
    r.hash.to_hex().concat("  ").concat(r.uuid.to_text().as_str())
}

/// The line for what a folder holds.
pub fn format_listed(e: &CommonPrefixEntry) -> (s: String)
    ensures
        s@ == listed_line(e@),
{
    match e {
        CommonPrefixEntry::CommonPrefix { path } => "d  ".to_owned().concat(path.as_str()).concat(
            "/",
        ),
        CommonPrefixEntry::Path(entry) => "f  ".to_owned().concat(entry.path.as_str()).concat(
            "  ",
        ).concat(entry.hash.to_hex().as_str()),
    }
}

/// The line for a path.
pub fn format_path(e: &PathEntry) -> (s: String)
    ensures
        s@ == path_line(e@),
{
    e.path.clone().concat("  ").concat(e.hash.to_hex().as_str()).concat("  ").concat(
        e.uuid.to_text().as_str(),
    )
}

/// The line for a version.
pub fn format_version(number: u64, v: &VersionInfo) -> (s: String)
    ensures
        s@ == version_line(number as int, v@),
{
    decimal_text(number).concat("  ").concat(v.hash.to_hex().as_str()).concat("  ").concat(
        v.uuid.to_text().as_str(),
    )
}

/// How many different hashes there are.
fn count_distinct(hashes: &Vec<hash::Hash>) -> (r: u64)
    ensures
        r == distinct(index::hash_views(hashes@)).len(),
{
    let ghost views = index::hash_views(hashes@);
    let mut n: u64 = 0;
    let mut i: usize = 0;
    let len: usize = hashes.len();
    proof {
        assert(views.take(0).to_set() =~= Set::<Seq<u8>>::empty());
    }
    while i < len
        invariant
            i <= len,
            len == hashes@.len(),
            views == index::hash_views(hashes@),
            n <= i,
            views.take(i as int).to_set().finite(),
            n == views.take(i as int).to_set().len(),
        decreases len - i,
    {
        let mut seen: bool = false;
        let mut j: usize = 0;
        while j < i
            invariant
                j <= i,
                i < hashes@.len(),
                views == index::hash_views(hashes@),
                seen == views.take(j as int).contains(views[i as int]),
            decreases i - j,
        {
            let same = hashes[j].equals(&hashes[i]);
            proof {
                let a = views.take(j as int);
                let b = views.take(j as int + 1);
                let x = views[i as int];
                assert(b =~= a.push(views[j as int]));
                assert(views[j as int] == hashes@[j as int]@);
                assert(x == hashes@[i as int]@);
                if a.contains(x) {
                    let k = choose|k: int| 0 <= k < a.len() && a[k] == x;
                    assert(b[k] == x);
                }
                if b.contains(x) {
                    let k = choose|k: int| 0 <= k < b.len() && b[k] == x;
                    if k < j {
                        assert(a[k] == x);
                    }
                }
                if same {
                    assert(b[j as int] == x);
                }
            }
            if same {
                seen = true;
            }
            j += 1;
        }
        proof {
            let a = views.take(i as int);
            let b = views.take(i as int + 1);
            let x = views[i as int];
            assert(b =~= a.push(x));
            assert forall|y: Seq<u8>| b.contains(y) <==> a.contains(y) || y == x by {
                if a.contains(y) {
                    let k = choose|k: int| 0 <= k < a.len() && a[k] == y;
                    assert(b[k] == y);
                }
                if b.contains(y) {
                    let k = choose|k: int| 0 <= k < b.len() && b[k] == y;
                    if k < i {
                        assert(a[k] == y);
                    }
                }
                assert(b[i as int] == x);
            }
            assert(b.to_set() =~= a.to_set().insert(x));
            assert(a.contains(x) <==> a.to_set().contains(x));
        }
        if !seen {
            n = n + 1;
        }
        i += 1;
    }
    proof {
        assert(views.take(len as int) =~= views);
    }
    n
}

/// The lines of the summary.
pub fn format_info(store: &str, paths: u64, hashes: &Vec<hash::Hash>) -> (r: Vec<String>)
    ensures
        index::texts(r@) == info_lines(store@, paths as nat, index::hash_views(hashes@)),
{
    let versions: u64 = hashes.len() as u64;
    let blobs = count_distinct(hashes);
    let mut r: Vec<String> = Vec::new();
    r.push("store:    ".to_owned().concat(store));
    r.push("objects:  ".to_owned().concat(store).concat("/objects"));
    r.push("index:    ".to_owned().concat(store).concat("/index.db"));
    r.push("paths:    ".to_owned().concat(decimal_text(paths).as_str()));
    r.push("versions: ".to_owned().concat(decimal_text(versions).as_str()));
    r.push("blobs:    ".to_owned().concat(decimal_text(blobs).as_str()));
    proof {
        assert(index::texts(r@) =~= info_lines(
            store@,
            paths as nat,
            index::hash_views(hashes@),
        ));
    }
    r
}

/// Reads a hash argument.
pub fn parse_hash(hex: &str) -> (r: Result<hash::Hash, CliError>)
    ensures
        match r {
            Ok(h) => hash::is_hex(hex@, 32) && h@ == hash::hex_bytes(hex@),
            Err(e) => !hash::is_hex(hex@, 32) && e is BadArgument && e.text()
                == "invalid hex hash: "@ + hex@,
        },
{
    match hash::Hash::from_hex(hex) {
        Some(h) => Ok(h),
        None => Err(CliError::BadArgument("invalid hex hash: ".to_owned().concat(hex))),
    }
}

// ---------------------------------------------------------------------------
// Dispatch
// ---------------------------------------------------------------------------

/// The command ends with an error that has this message.
pub open spec fn ends_badly(step: CliStep, message: Seq<char>) -> bool {
    step matches CliStep::Done(Err(e)) && e.text() == message && e is BadArgument
}

/// The command is refused with this message.
pub open spec fn is_refused(step: CliStep, message: Seq<char>) -> bool {
    step matches CliStep::Done(Err(e)) && e.text() == message && e is Usage
}

/// The command ends with an error of the store.
pub open spec fn is_failed(step: CliStep, e: Error) -> bool {
    step == CliStep::Done(Err(CliError::Core(e)))
}

/// The command ends and prints these lines.
pub open spec fn prints(step: CliStep, stdout: Seq<Seq<char>>, stderr: Seq<Seq<char>>) -> bool {
    &&& step matches CliStep::Done(Ok(out))
    &&& index::texts(out.stdout@) == stdout
    &&& index::texts(out.stderr@) == stderr
}

/// The first step of a command. `store` is the root of the store, as it is shown
/// to the user.
pub open spec fn command_starts(
    command: Command,
    quiet: bool,
    store: Seq<char>,
    step: CliStep,
) -> bool {
    match command {
        Command::Add { paths, file } => {
            &&& step matches CliStep::Ask(
                CliRequest::Add { paths: p, file: f },
                Run::Adding { file: g, quiet: q },
            )
            &&& p == paths
            &&& f == file
            &&& g == file
            &&& q == quiet
        },
        Command::Get { path, hash: Some(hex) } => if hash::is_hex(hex@, 32) {
            &&& step matches CliStep::Ask(
                CliRequest::Versions { path: p },
                Run::FindingVersion { path: o, hex: x, hash: h, quiet: q },
            )
            &&& p == path
            &&& o == path
            &&& x == hex
            &&& h@ == hash::hex_bytes(hex@)
            &&& q == quiet
        } else {
            ends_badly(step, "invalid hex hash: "@ + hex@)
        },
        Command::Get { path, hash: None } => {
            &&& step matches CliStep::Ask(
                CliRequest::OpenPath { path: p },
                Run::OpeningPath { path: o, quiet: q },
            )
            &&& p == path
            &&& o == path
            &&& q == quiet
        },
        Command::Remove { path, hash: Some(hex) } => if hash::is_hex(hex@, 32) {
            &&& step matches CliStep::Ask(
                CliRequest::Remove { path: p, version: Some(h) },
                Run::Finishing,
            )
            &&& p == path
            &&& h@ == hash::hex_bytes(hex@)
        } else {
            ends_badly(step, "invalid hex hash: "@ + hex@)
        },
        Command::Remove { path, hash: None } => step == CliStep::Ask(
            CliRequest::Remove { path, version: None },
            Run::Finishing,
        ),
        Command::Trim { path, max_versions } => step == CliStep::Ask(
            CliRequest::Trim { path, max_versions },
            Run::Finishing,
        ),
        Command::List { prefix } => {
            &&& step matches CliStep::Ask(CliRequest::Folder { prefix: p }, Run::ListingFolder)
            &&& match prefix {
                Some(given) => p == given,
                None => p@.len() == 0,
            }
        },
        Command::Paths => step == CliStep::Ask(CliRequest::Paths, Run::ListingPaths),
        Command::Versions { path } => step == CliStep::Ask(
            CliRequest::Versions { path },
            Run::ListingVersions,
        ),
        Command::Info => {
            &&& step matches CliStep::Ask(CliRequest::Paths, Run::Surveying { store: s })
            &&& s@ == store
        },
    }
}

/// The step that counts the versions of `paths[next]`, or prints the summary.
pub open spec fn counts_on(
    step: CliStep,
    store: Seq<char>,
    paths: Seq<Seq<char>>,
    next: int,
    hashes: Seq<Seq<u8>>,
) -> bool {
    if next < paths.len() {
        &&& step matches CliStep::Ask(
            CliRequest::Versions { path: p },
            Run::Counting { store: s, paths: q, next: n, hashes: h },
        )
        &&& p@ == paths[next]
        &&& s@ == store
        &&& index::texts(q@) == paths
        &&& n == next
        &&& index::hash_views(h@) == hashes
    } else {
        prints(step, info_lines(store, paths.len(), hashes), Seq::empty())
    }
}

/// The hashes of some versions.
pub open spec fn hashes_of(versions: Seq<VersionInfo>) -> Seq<Seq<u8>> {
    versions.map_values(|v: VersionInfo| v.hash@)
}

/// The paths of a list.
pub open spec fn paths_in(list: Seq<PathEntry>) -> Seq<Seq<char>> {
    list.map_values(|e: PathEntry| e.path@)
}

/// The message when an input file cannot be opened.
pub open spec fn cannot_open(file: Option<String>, why: Seq<char>) -> Seq<char> {
    match file {
        Some(f) => "cannot open "@ + f@ + ": "@ + why,
        None => "cannot open "@ + "standard input"@ + ": "@ + why,
    }
}

/// The step of a command after a reply.
pub open spec fn command_resumes(task: Run, reply: CliReply, next: CliStep) -> bool {
    match (task, reply) {
        (Run::Adding { file, quiet }, CliReply::CannotOpen(why)) => is_refused(
            next,
            cannot_open(file, why@),
        ),
        (Run::Adding { quiet, .. }, CliReply::Added(Ok(r))) => prints(
            next,
            if quiet {
                Seq::empty()
            } else {
                seq![added_line(r)]
            },
            Seq::empty(),
        ),
        (Run::Adding { .. }, CliReply::Added(Err(e))) => is_failed(next, e),
        (Run::OpeningPath { path, quiet }, CliReply::Opened(Ok(there))) => if there {
            next == CliStep::Ask(CliRequest::CopyOut, Run::Copying { quiet })
        } else {
            is_refused(next, "path not found: "@ + path@)
        },
        (
            Run::FindingVersion { path, hex, hash, quiet },
            CliReply::Versions(Ok(v)),
        ) => if v@.len() == 0 {
            is_refused(next, "path not found: "@ + path@)
        } else if !hashes_of(v@).contains(hash@) {
            is_refused(next, "hash not found: "@ + hex@)
        } else {
            next == CliStep::Ask(
                CliRequest::OpenHash { hash },
                Run::OpeningHash { hex, quiet },
            )
        },
        (Run::FindingVersion { .. }, CliReply::Versions(Err(e))) => is_failed(next, e),
        (Run::OpeningHash { hex, quiet }, CliReply::Opened(Ok(there))) => if there {
            next == CliStep::Ask(CliRequest::CopyOut, Run::Copying { quiet })
        } else {
            is_refused(next, "hash not found: "@ + hex@)
        },
        (Run::OpeningPath { .. }, CliReply::Opened(Err(e))) => is_failed(next, e),
        (Run::OpeningHash { .. }, CliReply::Opened(Err(e))) => is_failed(next, e),
        (Run::Copying { quiet }, CliReply::Copied(Ok(n))) => prints(
            next,
            Seq::empty(),
            if quiet {
                Seq::empty()
            } else {
                seq![copied_line(n)]
            },
        ),
        (Run::Copying { .. }, CliReply::Copied(Err(m))) => next == CliStep::Done(
            Err(CliError::Io(m)),
        ),
        (Run::Finishing, CliReply::Finished(Ok(_))) => prints(next, Seq::empty(), Seq::empty()),
        (Run::Finishing, CliReply::Finished(Err(e))) => is_failed(next, e),
        (Run::ListingFolder, CliReply::Folder(Ok(v))) => prints(
            next,
            list::listed_views(v@).map_values(|e: Listed| listed_line(e)),
            Seq::empty(),
        ),
        (Run::ListingFolder, CliReply::Folder(Err(e))) => is_failed(next, e),
        (Run::ListingPaths, CliReply::Paths(Ok(v))) => prints(
            next,
            list::path_views(v@).map_values(|row: index::Row| path_line(row)),
            Seq::empty(),
        ),
        (Run::ListingPaths, CliReply::Paths(Err(e))) => is_failed(next, e),
        (Run::ListingVersions, CliReply::Versions(Ok(v))) => prints(
            next,
            Seq::new(v@.len(), |i: int| version_line(i + 1, v@[i]@)),
            Seq::empty(),
        ),
        (Run::ListingVersions, CliReply::Versions(Err(e))) => is_failed(next, e),
        (Run::Surveying { store }, CliReply::Paths(Ok(v))) => counts_on(
            next,
            store@,
            paths_in(v@),
            0,
            Seq::empty(),
        ),
        (Run::Surveying { .. }, CliReply::Paths(Err(e))) => is_failed(next, e),
        (Run::Counting { store, paths, next: n, hashes }, CliReply::Versions(r)) => if n
            < paths@.len() {
            counts_on(
                next,
                store@,
                index::texts(paths@),
                n + 1,
                match r {
                    Ok(v) => index::hash_views(hashes@) + hashes_of(v@),
                    Err(_) => index::hash_views(hashes@),
                },
            )
        } else {
            is_confused(next)
        },
        _ => is_confused(next),
    }
}

/// The command was handed a reply that answers another request.
pub open spec fn is_confused(step: CliStep) -> bool {
    step matches CliStep::Done(Err(CliError::Core(e))) && e@ == error::ErrorView::Other(
        "the reply does not answer the request"@,
    )
}

/// Ends a command that was handed a reply which answers another request.
fn confused() -> (r: CliStep)
    ensures
        is_confused(r),
{
    CliStep::Done(
        Err(CliError::Core(Error::Other("the reply does not answer the request".to_owned()))),
    )
}

/// Ends a command with the lines that it prints.
fn print(stdout: Vec<String>, stderr: Vec<String>) -> (r: CliStep)
    ensures
        prints(r, index::texts(stdout@), index::texts(stderr@)),
{
    CliStep::Done(Ok(Output { stdout, stderr }))
}

/// No lines.
fn no_lines() -> (r: Vec<String>)
    ensures
        index::texts(r@) == Seq::<Seq<char>>::empty(),
{
    let r: Vec<String> = Vec::new();
    proof {
        assert(index::texts(r@) =~= Seq::<Seq<char>>::empty());
    }
    r
}

/// One line.
fn one_line(line: String) -> (r: Vec<String>)
    ensures
        index::texts(r@) == seq![line@],
{
    let mut r: Vec<String> = Vec::new();
    r.push(line);
    proof {
        assert(index::texts(r@) =~= seq![line@]);
    }
    r
}

/// Counts the versions of `paths[next]`, or prints the summary.
fn count_on(store: String, paths: Vec<String>, next: usize, hashes: Vec<hash::Hash>) -> (r: CliStep)
    requires
        next <= paths@.len(),
    ensures
        counts_on(r, store@, index::texts(paths@), next as int, index::hash_views(hashes@)),
{
    if next < paths.len() {
        let path = paths[next].clone();
        CliStep::Ask(
            CliRequest::Versions { path },
            Run::Counting { store, paths, next, hashes },
        )
    } else {
        print(format_info(store.as_str(), paths.len() as u64, &hashes), no_lines())
    }
}

/// Starts a command: what it asks of the store first.
pub fn run_command(command: Command, quiet: bool, store: &str) -> (r: CliStep)
    ensures
        command_starts(command, quiet, store@, r),
{
    match command {
        Command::Add { paths, file } => {
            let shown = match &file {
                Some(f) => Some(f.clone()),
                None => None,
            };
            CliStep::Ask(CliRequest::Add { paths, file }, Run::Adding { file: shown, quiet })
        },
        Command::Get { path, hash } => match hash {
            Some(hex) => match parse_hash(hex.as_str()) {
                Ok(h) => CliStep::Ask(
                    CliRequest::Versions { path: path.clone() },
                    Run::FindingVersion { path, hex, hash: h, quiet },
                ),
                Err(e) => CliStep::Done(Err(e)),
            },
            None => CliStep::Ask(
                CliRequest::OpenPath { path: path.clone() },
                Run::OpeningPath { path, quiet },
            ),
        },
        Command::Remove { path, hash } => match hash {
            Some(hex) => match parse_hash(hex.as_str()) {
                Ok(h) => CliStep::Ask(
                    CliRequest::Remove { path, version: Some(h) },
                    Run::Finishing,
                ),
                Err(e) => CliStep::Done(Err(e)),
            },
            None => CliStep::Ask(CliRequest::Remove { path, version: None }, Run::Finishing),
        },
        Command::Trim { path, max_versions } => CliStep::Ask(
            CliRequest::Trim { path, max_versions },
            Run::Finishing,
        ),
        Command::List { prefix } => {
            let prefix = match prefix {
                Some(given) => given,
                None => String::new(),
            };
            CliStep::Ask(CliRequest::Folder { prefix }, Run::ListingFolder)
        },
        Command::Paths => CliStep::Ask(CliRequest::Paths, Run::ListingPaths),
        Command::Versions { path } => CliStep::Ask(
            CliRequest::Versions { path },
            Run::ListingVersions,
        ),
        Command::Info => CliStep::Ask(
            CliRequest::Paths,
            Run::Surveying { store: store.to_owned() },
        ),
    }
}

/// The lines of a folder listing.
fn listed_lines(v: &Vec<CommonPrefixEntry>) -> (r: Vec<String>)
    ensures
        index::texts(r@) == list::listed_views(v@).map_values(|e: Listed| listed_line(e)),
{
    let mut r: Vec<String> = Vec::new();
    let mut i: usize = 0;
    while i < v.len()
        invariant
            i <= v@.len(),
            r@.len() == i,
            forall|j: int| 0 <= j < i ==> (#[trigger] r@[j])@ == listed_line(v@[j]@),
        decreases v@.len() - i,
    {
        r.push(format_listed(&v[i]));
        i += 1;
    }
    proof {
        assert(index::texts(r@) =~= list::listed_views(v@).map_values(|e: Listed| listed_line(e)));
    }
    r
}

/// The lines of a list of paths.
fn path_lines(v: &Vec<PathEntry>) -> (r: Vec<String>)
    ensures
        index::texts(r@) == list::path_views(v@).map_values(|row: index::Row| path_line(row)),
{
    let mut r: Vec<String> = Vec::new();
    let mut i: usize = 0;
    while i < v.len()
        invariant
            i <= v@.len(),
            r@.len() == i,
            forall|j: int| 0 <= j < i ==> (#[trigger] r@[j])@ == path_line(v@[j]@),
        decreases v@.len() - i,
    {
        r.push(format_path(&v[i]));
        i += 1;
    }
    proof {
        assert(index::texts(r@) =~= list::path_views(v@).map_values(
            |row: index::Row| path_line(row),
        ));
    }
    r
}

/// The lines of a list of versions.
fn version_lines(v: &Vec<VersionInfo>) -> (r: Vec<String>)
    ensures
        index::texts(r@) == Seq::new(v@.len(), |i: int| version_line(i + 1, v@[i]@)),
{
    let mut r: Vec<String> = Vec::new();
    let mut i: usize = 0;
    while i < v.len()
        invariant
            i <= v@.len(),
            r@.len() == i,
            forall|j: int| 0 <= j < i ==> (#[trigger] r@[j])@ == version_line(j + 1, v@[j]@),
        decreases v@.len() - i,
    {
        r.push(format_version(i as u64 + 1, &v[i]));
        i += 1;
    }
    proof {
        assert(index::texts(r@) =~= Seq::new(v@.len(), |i: int| version_line(i + 1, v@[i]@)));
    }
    r
}

/// Whether some version has the hash.
fn has_hash(versions: &Vec<VersionInfo>, hash: &hash::Hash) -> (r: bool)
    ensures
        r == hashes_of(versions@).contains(hash@),
{
    let ghost hashes = hashes_of(versions@);
    let mut i: usize = 0;
    while i < versions.len()
        invariant
            i <= versions@.len(),
            hashes == hashes_of(versions@),
            forall|j: int| 0 <= j < i ==> #[trigger] hashes[j] != hash@,
        decreases versions@.len() - i,
    {
        proof {
            assert(hashes[i as int] == versions@[i as int].hash@);
        }
        if versions[i].hash.equals(hash) {
            return true;
        }
        i += 1;
    }
    false
}

impl Run {
    /// Goes on with the reply.
    pub fn resume(self, reply: CliReply) -> (r: CliStep)
        ensures
            command_resumes(self, reply, r),
    {
        match (self, reply) {
            (Run::Adding { file, .. }, CliReply::CannotOpen(why)) => {
                let name = match file {
                    Some(f) => f,
                    None => "standard input".to_owned(),
                };
                let m = "cannot open ".to_owned().concat(name.as_str()).concat(": ").concat(
                    why.as_str(),
                );
                CliStep::Done(Err(CliError::Usage(m)))
            },
            (Run::Adding { quiet, .. }, CliReply::Added(Ok(r))) => if quiet {
                print(no_lines(), no_lines())
            } else {
                print(one_line(format_added(&r)), no_lines())
            },
            (Run::Adding { .. }, CliReply::Added(Err(e))) => CliStep::Done(Err(CliError::Core(e))),
            (Run::OpeningPath { path, quiet }, CliReply::Opened(Ok(there))) => if there {
                CliStep::Ask(CliRequest::CopyOut, Run::Copying { quiet })
            } else {
                CliStep::Done(
                    Err(CliError::Usage("path not found: ".to_owned().concat(path.as_str()))),
                )
            },
            (
                Run::FindingVersion { path, hex, hash, quiet },
                CliReply::Versions(Ok(v)),
            ) => if v.len() == 0 {
                CliStep::Done(
                    Err(CliError::Usage("path not found: ".to_owned().concat(path.as_str()))),
                )
            } else if !has_hash(&v, &hash) {
                CliStep::Done(
                    Err(CliError::Usage("hash not found: ".to_owned().concat(hex.as_str()))),
                )
            } else {
                CliStep::Ask(CliRequest::OpenHash { hash }, Run::OpeningHash { hex, quiet })
            },
            (Run::FindingVersion { .. }, CliReply::Versions(Err(e))) => CliStep::Done(
                Err(CliError::Core(e)),
            ),
            (Run::OpeningHash { hex, quiet }, CliReply::Opened(Ok(there))) => if there {
                CliStep::Ask(CliRequest::CopyOut, Run::Copying { quiet })
            } else {
                CliStep::Done(
                    Err(CliError::Usage("hash not found: ".to_owned().concat(hex.as_str()))),
                )
            },
            (Run::OpeningPath { .. }, CliReply::Opened(Err(e))) => CliStep::Done(
                Err(CliError::Core(e)),
            ),
            (Run::OpeningHash { .. }, CliReply::Opened(Err(e))) => CliStep::Done(
                Err(CliError::Core(e)),
            ),
            (Run::Copying { quiet }, CliReply::Copied(Ok(n))) => if quiet {
                print(no_lines(), no_lines())
            } else {
                print(no_lines(), one_line(decimal_text(n).concat(" bytes")))
            },
            (Run::Copying { .. }, CliReply::Copied(Err(m))) => CliStep::Done(Err(CliError::Io(m))),
            (Run::Finishing, CliReply::Finished(Ok(_))) => print(no_lines(), no_lines()),
            (Run::Finishing, CliReply::Finished(Err(e))) => CliStep::Done(Err(CliError::Core(e))),
            (Run::ListingFolder, CliReply::Folder(Ok(v))) => print(listed_lines(&v), no_lines()),
            (Run::ListingFolder, CliReply::Folder(Err(e))) => CliStep::Done(
                Err(CliError::Core(e)),
            ),
            (Run::ListingPaths, CliReply::Paths(Ok(v))) => print(path_lines(&v), no_lines()),
            (Run::ListingPaths, CliReply::Paths(Err(e))) => CliStep::Done(Err(CliError::Core(e))),
            (Run::ListingVersions, CliReply::Versions(Ok(v))) => print(
                version_lines(&v),
                no_lines(),
            ),
            (Run::ListingVersions, CliReply::Versions(Err(e))) => CliStep::Done(
                Err(CliError::Core(e)),
            ),
            (Run::Surveying { store }, CliReply::Paths(Ok(v))) => {
                let mut paths: Vec<String> = Vec::new();
                let mut i: usize = 0;
                while i < v.len()
                    invariant
                        i <= v@.len(),
                        paths@.len() == i,
                        forall|j: int| 0 <= j < i ==> (#[trigger] paths@[j])@ == v@[j].path@,
                    decreases v@.len() - i,
                {
                    paths.push(v[i].path.clone());
                    i += 1;
                }
                let hashes: Vec<hash::Hash> = Vec::new();
                proof {
                    assert(index::texts(paths@) =~= paths_in(v@));
                    assert(index::hash_views(hashes@) =~= Seq::<Seq<u8>>::empty());
                }
                count_on(store, paths, 0, hashes)
            },
            (Run::Surveying { .. }, CliReply::Paths(Err(e))) => CliStep::Done(
                Err(CliError::Core(e)),
            ),
            (Run::Counting { store, paths, next, hashes }, CliReply::Versions(r)) => {
                if next >= paths.len() {
                    return confused();
                }
                let ghost before = index::hash_views(hashes@);
                let mut hashes = hashes;
                if let Ok(v) = r {
                    let mut i: usize = 0;
                    proof {
                        assert(before + hashes_of(v@).take(0) =~= before);
                    }
                    while i < v.len()
                        invariant
                            i <= v@.len(),
                            index::hash_views(hashes@) == before + hashes_of(v@).take(i as int),
                        decreases v@.len() - i,
                    {
                        let ghost prior = hashes@;
                        hashes.push(v[i].hash);
                        proof {
                            assert(index::hash_views(hashes@) =~= index::hash_views(prior).push(
                                v@[i as int].hash@,
                            ));
                            assert(hashes_of(v@).take(i as int + 1) =~= hashes_of(v@).take(
                                i as int,
                            ).push(v@[i as int].hash@));
                            assert(index::hash_views(hashes@) =~= before + hashes_of(v@).take(
                                i as int + 1,
                            ));
                        }
                        i += 1;
                    }
                    proof {
                        assert(hashes_of(v@).take(v@.len() as int) =~= hashes_of(v@));
                    }
                }
                count_on(store, paths, next + 1, hashes)
            },
            _ => confused(),
        }
    }
}

// ---------------------------------------------------------------------------
// The store root
// ---------------------------------------------------------------------------

/// The name of the default store in the user's data directory.
pub const DEFAULT_STORE: &'static str = "bloxtree";

/// Where the store root comes from.
#[derive(Clone, Copy, Debug, PartialEq, Eq, Structural)]
pub enum Origin {
    /// It was given on the command line.
    Argument,
    /// It was given in the environment.
    Environment,
    /// It is the default.
    Default,
}

/// The store root: the argument, else the environment, else the default, if
/// there is one.
pub fn resolve_store<P>(argument: Option<P>, environment: Option<P>, default: Option<P>) -> (r:
    Option<(P, Origin)>)
    ensures
        r == (match (argument, environment, default) {
            (Some(p), _, _) => Some((p, Origin::Argument)),
            (None, Some(p), _) => Some((p, Origin::Environment)),
            (None, None, Some(p)) => Some((p, Origin::Default)),
            (None, None, None) => None,
        }),
{
    match argument {
        Some(p) => Some((p, Origin::Argument)),
        None => match environment {
            Some(p) => Some((p, Origin::Environment)),
            None => match default {
                Some(p) => Some((p, Origin::Default)),
                None => None,
            },
        },
    }
}

/// Whether the user is asked to create the root: only the default is offered,
/// and only where it is missing.
pub fn offers_to_create(origin: Origin, exists: bool) -> (r: bool)
    ensures
        r == (origin == Origin::Default && !exists),
{
    match origin {
        Origin::Default => !exists,
        _ => false,
    }
}

/// Whether an answer means yes: it begins with a `y`.
pub fn is_yes(answer: &str) -> (r: bool)
    ensures
        r == (answer@.len() > 0 && (answer@[0] == 'y' || answer@[0] == 'Y')),
{
    let chars = chars_of(answer);
    chars.len() > 0 && (chars[0] == 'y' || chars[0] == 'Y')
}

} // verus!
