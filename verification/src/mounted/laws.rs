//! What the filesystem's operations do to the files.

use vstd::prelude::*;

use crate::index;
use crate::laws;
use crate::list;
use crate::list::Listed;
use crate::mounted::dir;
use crate::mounted::dir::{DirSlot, Link, ReadDir};
use crate::mounted::file;
use crate::mounted::file::{ChoosePath, Create, ReadFile, Release, Rename, SetAttr, Unlink};
use crate::mounted::find;
use crate::mounted::find::{GetAttr, Lookup, MakeDir, RemoveDir, ResolveChild};
use crate::mounted::state;
use crate::mounted::state::{Errno, FsStep, FsView, TreeReply, TreeRequest};
use crate::node;
use crate::node::{FileAttr, FileKind};
use crate::path;
use crate::pathset;
use crate::text;

verus! {

// ---------------------------------------------------------------------------
// The store as files
// ---------------------------------------------------------------------------

/// The store, as the filesystem sees it: the content of the latest version of
/// each path, and what the reader gives that is held, if one is.
#[verifier::ext_equal]
pub struct Files {
    pub contents: Map<Seq<char>, Seq<u8>>,
    pub opened: Option<Seq<u8>>,
}

/// Some file lies below the folder; the empty name is the root.
pub open spec fn has_file_below(f: Files, folder: Seq<char>) -> bool {
    exists|p: Seq<char>|
        #![trigger f.contents.contains_key(p)]
        f.contents.contains_key(p) && text::has_prefix(p, list::folder_prefix(folder))
}

/// The first bytes of the content, no more than the limit.
pub open spec fn limited(content: Seq<u8>, limit: Option<u64>) -> Seq<u8> {
    match limit {
        None => content,
        Some(n) => if content.len() <= n {
            content
        } else {
            content.take(n as int)
        },
    }
}

/// No path has two slashes in a row.
pub open spec fn files_are_clean(f: Files) -> bool {
    forall|p: Seq<char>| #[trigger]
        f.contents.contains_key(p) ==> path::is_valid(p) && laws::is_clean(p)
}

/// The listing of a folder holds what lies directly in it, in order and each name
/// once: a common prefix where files lie below, and else a file. Every file below
/// the folder is at or below a path of the listing.
pub open spec fn is_tree_listing(f: Files, folder: Seq<char>, listed: Seq<Listed>) -> bool {
    &&& list::is_ascending(listed)
    &&& forall|i: int|
        0 <= i < listed.len() ==> dir::is_child((#[trigger] listed[i]).name(), folder)
            && match listed[i] {
            Listed::CommonPrefix(p) => has_file_below(f, p),
            Listed::Path(row) => f.contents.contains_key(row.path) && !has_file_below(f, row.path),
        }
    &&& forall|p: Seq<char>|
        #![trigger f.contents.contains_key(p)]
        f.contents.contains_key(p) && text::has_prefix(p, list::folder_prefix(folder)) ==> exists|
            i: int,
        |
            0 <= i < listed.len() && ((#[trigger] listed[i]).name() == p || text::has_prefix(
                p,
                listed[i].name().push('/'),
            ))
}

/// The reply is what the store gives. It refuses a text that is no path.
pub open spec fn tree_honest(f: Files, request: TreeRequest, reply: TreeReply) -> bool {
    match request {
        TreeRequest::Versions { path } => reply matches TreeReply::Versions(r) && if path::is_valid(
            path@,
        ) {
            r matches Ok(v) && (v@.len() > 0 <==> f.contents.contains_key(path@))
        } else {
            r is Err
        },
        TreeRequest::Folder { path } => reply matches TreeReply::Folder(r) && if path@.len() == 0
            || path::is_valid(path@) {
            &&& r matches Ok(v)
            &&& v@.len() > 0 <==> has_file_below(f, path@)
            &&& files_are_clean(f) ==> is_tree_listing(f, path@, list::listed_views(v@))
        } else {
            r is Err
        },
        TreeRequest::Stat { path } => reply matches TreeReply::Stat(r) && if path::is_valid(path@) {
            if f.contents.contains_key(path@) {
                r matches Ok(Some(st)) && st.size == f.contents[path@].len()
            } else {
                r matches Ok(None)
            }
        } else {
            r is Err
        },
        TreeRequest::Bytes { path } => reply matches TreeReply::Bytes(r) && if path::is_valid(
            path@,
        ) {
            if f.contents.contains_key(path@) {
                r matches Ok(Some(b)) && b@ == f.contents[path@]
            } else {
                r matches Ok(None)
            }
        } else {
            r is Err
        },
        TreeRequest::Add { path, .. } => reply matches TreeReply::Added(r) && (r is Ok
            <==> path::is_valid(path@)),
        TreeRequest::Remove { path } => reply matches TreeReply::Removed(r) && (r is Ok
            <==> path::is_valid(path@)),
        TreeRequest::OpenReader { path } => reply matches TreeReply::Opened(r) && if path::is_valid(
            path@,
        ) {
            r matches Ok(there) && there == f.contents.contains_key(path@)
        } else {
            r is Err
        },
        TreeRequest::AddFromReader { path, .. } => reply matches TreeReply::Added(r) && (r is Ok
            <==> path::is_valid(path@) && f.opened is Some),
    }
}

/// The store after a request.
pub open spec fn tree_effect(f: Files, request: TreeRequest) -> Files {
    match request {
        TreeRequest::Add { path, data } => if path::is_valid(path@) {
            Files { contents: f.contents.insert(path@, data@), ..f }
        } else {
            f
        },
        TreeRequest::Remove { path } => if path::is_valid(path@) {
            Files { contents: f.contents.remove(path@), ..f }
        } else {
            f
        },
        TreeRequest::OpenReader { path } => if !path::is_valid(path@) {
            f
        } else if f.contents.contains_key(path@) {
            Files { opened: Some(f.contents[path@]), ..f }
        } else {
            Files { opened: None, ..f }
        },
        TreeRequest::AddFromReader { path, limit } => if path::is_valid(path@) && f.opened is Some {
            Files {
                contents: f.contents.insert(path@, limited(f.opened->0, limit)),
                opened: None,
            }
        } else {
            Files { opened: None, ..f }
        },
        _ => f,
    }
}

/// One moment of an operation: the files, the state, where the operation stands,
/// and the reply that it is about to get.
pub struct FsTurn<T, R> {
    pub files: Files,
    pub state: FsView,
    pub step: FsStep<T, R>,
    pub reply: TreeReply,
}

/// Turn `i` leads to the next.
pub open spec fn leads_on<T, R>(
    resumes: spec_fn(T, FsView, FsView, TreeReply, FsStep<T, R>) -> bool,
    turns: Seq<FsTurn<T, R>>,
    i: int,
) -> bool {
    match turns[i].step {
        FsStep::Done(_) => false,
        FsStep::Ask(request, task) => {
            &&& tree_honest(turns[i].files, request, turns[i].reply)
            &&& turns[i + 1].files == tree_effect(turns[i].files, request)
            &&& resumes(
                task,
                turns[i].state,
                turns[i + 1].state,
                turns[i].reply,
                turns[i + 1].step,
            )
        },
    }
}

/// A run of an operation. `resumes` is what it promises of the state and its
/// step after a reply.
pub open spec fn is_run<T, R>(
    resumes: spec_fn(T, FsView, FsView, TreeReply, FsStep<T, R>) -> bool,
    turns: Seq<FsTurn<T, R>>,
) -> bool {
    &&& turns.len() > 0
    &&& forall|i: int| 0 <= i < turns.len() - 1 ==> #[trigger] leads_on(resumes, turns, i)
}

/// `inv` survives every turn.
pub open spec fn is_kept<T, R>(
    resumes: spec_fn(T, FsView, FsView, TreeReply, FsStep<T, R>) -> bool,
    inv: spec_fn(Files, FsView, FsStep<T, R>) -> bool,
) -> bool {
    forall|
        f: Files,
        request: TreeRequest,
        task: T,
        s: FsView,
        after: FsView,
        reply: TreeReply,
        next: FsStep<T, R>,
    |
        #![trigger inv(f, s, FsStep::Ask(request, task)), resumes(task, s, after, reply, next)]
        inv(f, s, FsStep::Ask(request, task)) && tree_honest(f, request, reply) && resumes(
            task,
            s,
            after,
            reply,
            next,
        ) ==> inv(tree_effect(f, request), after, next)
}

/// What holds at the start and survives every turn holds throughout.
pub proof fn run_keeps<T, R>(
    resumes: spec_fn(T, FsView, FsView, TreeReply, FsStep<T, R>) -> bool,
    inv: spec_fn(Files, FsView, FsStep<T, R>) -> bool,
    turns: Seq<FsTurn<T, R>>,
    k: int,
)
    requires
        is_run(resumes, turns),
        is_kept(resumes, inv),
        inv(turns[0].files, turns[0].state, turns[0].step),
        0 <= k < turns.len(),
    ensures
        inv(turns[k].files, turns[k].state, turns[k].step),
    decreases k,
{
    if k > 0 {
        run_keeps(resumes, inv, turns, k - 1);
        assert(leads_on(resumes, turns, k - 1));
        match turns[k - 1].step {
            FsStep::Done(_) => {},
            FsStep::Ask(request, task) => {
                let a = turns[k - 1];
                let b = turns[k];
                assert(inv(a.files, a.state, FsStep::Ask(request, task)));
                assert(resumes(task, a.state, b.state, a.reply, b.step));
            },
        }
    }
}

// ---------------------------------------------------------------------------
// Reading and writing
// ---------------------------------------------------------------------------

/// `b` are the bytes of the content from `offset` on: as many as asked for, or as
/// many as there are.
pub open spec fn is_range(content: Seq<u8>, offset: int, size: int, b: Seq<u8>) -> bool {
    &&& b.len() == (if offset >= content.len() {
        0
    } else if content.len() - offset < size {
        content.len() - offset
    } else {
        size
    })
    &&& forall|i: int| 0 <= i < b.len() ==> #[trigger] b[i] == content[offset + i]
}

/// A part of the content is the range asked for.
pub proof fn part_is_range(content: Seq<u8>, offset: u64, size: u32)
    ensures
        is_range(content, offset as int, size as int, file::part_of(content, offset, size)),
{
}

/// Reading on where a read ended gives what one longer read gives.
pub proof fn reads_in_a_row(content: Seq<u8>, offset: u64, first: u32, second: u32)
    requires
        offset + first <= u64::MAX,
        first + second <= u32::MAX,
    ensures
        file::part_of(content, offset, first) + file::part_of(
            content,
            (offset + first) as u64,
            second,
        ) == file::part_of(content, offset, (first + second) as u32),
{
    let a = file::part_of(content, offset, first);
    let b = file::part_of(content, (offset + first) as u64, second);
    part_is_range(content, offset, first);
    part_is_range(content, (offset + first) as u64, second);
    part_is_range(content, offset, (first + second) as u32);
    assert(a + b =~= file::part_of(content, offset, (first + second) as u32));
}

/// Reading gives the part asked for of the content of the latest version.
pub proof fn read_law(ino: u64, offset: u64, size: u32, turns: Seq<FsTurn<ReadFile, Vec<u8>>>)
    requires
        is_run(|t, s: FsView, z: FsView, r, n| s == z && file::read_resumes(t, r, n), turns),
        file::read_starts(turns[0].state, ino, offset, size, turns[0].step),
        turns[0].state.inodes.contains_key(ino),
        turns[0].state.inodes[ino].kind == FileKind::RegularFile,
        path::is_valid(turns[0].state.inodes[ino].path),
    ensures
        turns.last().step matches FsStep::Done(r) ==> {
            let path = turns[0].state.inodes[ino].path;
            let f = turns[0].files;
            if f.contents.contains_key(path) {
                &&& r matches Ok(b) && b@ == file::part_of(f.contents[path], offset, size)
                &&& is_range(f.contents[path], offset as int, size as int, (r->Ok_0)@)
            } else {
                r == Err::<Vec<u8>, Errno>(Errno::Io)
            }
        },
        turns.last().files == turns[0].files,
        turns.last().state == turns[0].state,
{
    let resumes = |t: ReadFile, s: FsView, z: FsView, r: TreeReply, n: FsStep<ReadFile, Vec<u8>>|
        s == z && file::read_resumes(t, r, n);
    let first = turns[0];
    let path = first.state.inodes[ino].path;
    let inv = |f: Files, s: FsView, step: FsStep<ReadFile, Vec<u8>>|
        f == first.files && s == first.state && match step {
            FsStep::Ask(request, t) => {
                &&& request matches TreeRequest::Bytes { path: p }
                &&& p@ == path
                &&& t == ReadFile { offset, size }
            },
            FsStep::Done(r) => if f.contents.contains_key(path) {
                r matches Ok(b) && b@ == file::part_of(f.contents[path], offset, size)
            } else {
                r == Err::<Vec<u8>, Errno>(Errno::Io)
            },
        };
    run_keeps(resumes, inv, turns, turns.len() - 1);
    part_is_range(first.files.contents[path], offset, size);
}

/// After a write the buffer reaches as far as it did, or as far as the write, if
/// that is farther. The bytes written are there; every other byte that was there is
/// there still, and between them are zeros.
pub proof fn write_law(data: Seq<u8>, offset: int, bytes: Seq<u8>)
    requires
        0 <= offset,
    ensures
        ({
            let after = file::written(data, offset, bytes);
            let end = offset + bytes.len();
            &&& after.len() == (if data.len() < end {
                end
            } else {
                data.len() as int
            })
            &&& forall|i: int| offset <= i < end ==> #[trigger] after[i] == bytes[i - offset]
            &&& forall|i: int|
                0 <= i < data.len() && !(offset <= i < end) ==> i < after.len()
                    && #[trigger] after[i] == data[i]
            &&& forall|i: int| data.len() <= i < offset ==> #[trigger] after[i] == 0
        }),
{
}

/// What the buffer of a handle holds; nothing where it has none.
pub open spec fn buffered(s: FsView, fh: u64) -> Seq<u8> {
    if s.buffers.contains_key(fh) {
        s.buffers[fh].data
    } else {
        Seq::empty()
    }
}

/// A write through a handle changes the buffer of that handle and nothing else. A
/// handle that has none gets one, of the inode that is written to.
pub proof fn write_changes_one_buffer(
    s: FsView,
    ino: u64,
    fh: u64,
    offset: int,
    bytes: Seq<u8>,
)
    requires
        0 <= offset,
    ensures
        ({
            let after = file::wrote(s, ino, fh, offset, bytes);
            &&& after.inodes == s.inodes && after.dirs == s.dirs && after.next_fh == s.next_fh
            &&& after.buffers.contains_key(fh)
            &&& after.buffers[fh].ino == (if s.buffers.contains_key(fh) {
                s.buffers[fh].ino
            } else {
                ino
            })
            &&& forall|h: u64|
                h != fh ==> (#[trigger] after.buffers.contains_key(h) <==> s.buffers.contains_key(
                    h,
                )) && (s.buffers.contains_key(h) ==> after.buffers[h] == s.buffers[h])
            &&& is_overwritten(buffered(s, fh), offset, bytes, buffered(after, fh))
        }),
{
}

/// The bytes are put over `before` at the offset; nothing that was there goes, and a
/// gap is zeros.
pub open spec fn is_overwritten(
    before: Seq<u8>,
    offset: int,
    bytes: Seq<u8>,
    after: Seq<u8>,
) -> bool {
    &&& after.len() >= before.len() && after.len() >= offset + bytes.len()
    &&& after.len() == before.len() || after.len() == offset + bytes.len()
    &&& forall|i: int|
        0 <= i < after.len() ==> #[trigger] after[i] == (if offset <= i < offset + bytes.len() {
            bytes[i - offset]
        } else if i < before.len() {
            before[i]
        } else {
            0
        })
}

/// Write `k` puts a byte at position `i`.
pub open spec fn covers(writes: Seq<(int, Seq<u8>)>, k: int, i: int) -> bool {
    writes[k].0 <= i < writes[k].0 + writes[k].1.len()
}

/// Writes through one handle, one after another: state `k` is that before write `k`.
pub open spec fn are_writes(
    states: Seq<FsView>,
    ino: u64,
    fh: u64,
    writes: Seq<(int, Seq<u8>)>,
) -> bool {
    &&& states.len() == writes.len() + 1
    &&& forall|k: int|
        0 <= k < writes.len() ==> 0 <= (#[trigger] writes[k]).0 && states[k + 1] == file::wrote(
            states[k],
            ino,
            fh,
            writes[k].0,
            writes[k].1,
        )
}

/// What writes through a handle make up that began with an empty buffer: at every
/// position the byte of the last write there, and zero where none was. It reaches as
/// far as the farthest write.
pub proof fn writes_law(
    states: Seq<FsView>,
    ino: u64,
    fh: u64,
    writes: Seq<(int, Seq<u8>)>,
    n: int,
)
    requires
        are_writes(states, ino, fh, writes),
        !states[0].buffers.contains_key(fh) || states[0].buffers[fh].data.len() == 0,
        0 <= n <= writes.len(),
    ensures
        ({
            let data = buffered(states[n], fh);
            &&& n > 0 ==> states[n].buffers.contains_key(fh)
            &&& forall|k: int|
                0 <= k < n ==> (#[trigger] writes[k]).0 + writes[k].1.len() <= data.len()
            &&& data.len() > 0 ==> exists|k: int|
                0 <= k < n && (#[trigger] writes[k]).0 + writes[k].1.len() == data.len()
            &&& forall|k: int, i: int|
                #![trigger covers(writes, k, i)]
                0 <= k < n && covers(writes, k, i) && (forall|m: int|
                    k < m < n ==> !#[trigger] covers(writes, m, i)) ==> data[i]
                    == writes[k].1[i - writes[k].0]
            &&& forall|i: int|
                0 <= i < data.len() && (forall|m: int|
                    0 <= m < n ==> !#[trigger] covers(writes, m, i)) ==> #[trigger] data[i] == 0
        }),
    decreases n,
{
    if n > 0 {
        writes_law(states, ino, fh, writes, n - 1);
        let m = n - 1;
        let (offset, bytes) = writes[m];
        write_changes_one_buffer(states[m], ino, fh, offset, bytes);
        let had = buffered(states[m], fh);
        let data = buffered(states[n], fh);
        assert(is_overwritten(had, offset, bytes, data));
        assert(writes[m].0 + writes[m].1.len() <= data.len());
        assert forall|k: int, i: int|
            #![trigger covers(writes, k, i)]
            0 <= k < n && covers(writes, k, i) && (forall|j: int|
                k < j < n ==> !#[trigger] covers(writes, j, i)) implies data[i]
            == writes[k].1[i - writes[k].0] by {
            if k < m {
                assert(!covers(writes, m, i));
                assert(writes[k].0 + writes[k].1.len() <= had.len());
                assert(0 <= writes[k].0);
            }
        }
        assert forall|i: int|
            0 <= i < data.len() && (forall|j: int|
                0 <= j < n ==> !#[trigger] covers(writes, j, i)) implies #[trigger] data[i]
            == 0 by {
            assert(!covers(writes, m, i));
            if i < had.len() {
                assert forall|j: int| 0 <= j < m implies !#[trigger] covers(writes, j, i) by {}
                assert(had[i] == 0);
            }
        }
    }
}

/// What was written last at an offset is read back from there; the bytes after
/// it stay.
pub proof fn read_back(data: Seq<u8>, offset: int, bytes: Seq<u8>, i: int)
    requires
        0 <= offset,
        0 <= i < file::written(data, offset, bytes).len(),
    ensures
        file::written(data, offset, bytes).subrange(offset, offset + bytes.len()) == bytes,
        i < data.len() && !(offset <= i < offset + bytes.len()) ==> file::written(
            data,
            offset,
            bytes,
        )[i] == data[i],
        i >= data.len() && !(offset <= i < offset + bytes.len()) ==> file::written(
            data,
            offset,
            bytes,
        )[i] == 0,
{
    assert(file::written(data, offset, bytes).subrange(offset, offset + bytes.len()) =~= bytes);
}

/// Writes in a row from the start make up the file.
pub proof fn write_in_a_row(data: Seq<u8>, bytes: Seq<u8>)
    ensures
        file::written(data, data.len() as int, bytes) == data + bytes,
{
    assert(file::written(data, data.len() as int, bytes) =~= data + bytes);
}

/// Releasing a handle commits what its buffer holds as the new content of the
/// file, and only that. A handle without a buffer commits nothing.
pub proof fn release_law(ino: u64, fh: u64, before: FsView, turns: Seq<FsTurn<Release, ()>>)
    requires
        is_run(|t, s: FsView, z: FsView, r, n| s == z && file::release_resumes(t, r, n), turns),
        file::release_starts(before, turns[0].state, ino, fh, turns[0].step),
    ensures
        turns.last().step matches FsStep::Done(r) ==> {
            let f = turns[0].files;
            let path = before.inodes[ino].path;
            &&& r == Ok::<(), Errno>(())
            &&& !turns.last().state.buffers.contains_key(fh)
            &&& turns.last().files.contents == (if before.buffers.contains_key(fh)
                && before.inodes.contains_key(ino) && path::is_valid(path) {
                f.contents.insert(path, before.buffers[fh].data)
            } else {
                f.contents
            })
        },
{
    let resumes = |t: Release, s: FsView, z: FsView, r: TreeReply, n: FsStep<Release, ()>|
        s == z && file::release_resumes(t, r, n);
    let first = turns[0];
    let path = before.inodes[ino].path;
    let inv = |f: Files, s: FsView, step: FsStep<Release, ()>|
        s == first.state && match step {
            FsStep::Ask(request, t) => {
                &&& f == first.files
                &&& request matches TreeRequest::Add { path: p, data }
                &&& p@ == path
                &&& data@ == before.buffers[fh].data
                &&& before.buffers.contains_key(fh) && before.inodes.contains_key(ino)
            },
            FsStep::Done(r) => {
                &&& r == Ok::<(), Errno>(())
                &&& f.contents == (if before.buffers.contains_key(fh) && before.inodes.contains_key(
                    ino,
                ) && path::is_valid(path) {
                    first.files.contents.insert(path, before.buffers[fh].data)
                } else {
                    first.files.contents
                })
            },
        };
    run_keeps(resumes, inv, turns, turns.len() - 1);
}

// ---------------------------------------------------------------------------
// Removing and renaming
// ---------------------------------------------------------------------------

/// The path that a name stands for where a file is made, removed or renamed: its
/// own, unless that is nothing and the name is an alias of a directory.
pub open spec fn target(
    f: Files,
    dirs: Seq<Seq<char>>,
    at: Seq<char>,
    name: Seq<char>,
) -> Seq<char> {
    let literal = state::joined(at, name);
    let shadowed = state::joined(at, state::looked_up(name));
    if file::leaves_choice(name) && kind_at(f, dirs, literal) is None && is_folder(
        f,
        dirs,
        shadowed,
    ) {
        shadowed
    } else {
        literal
    }
}

/// Where choosing the path of a name stands.
pub open spec fn choose_state(
    f: Files,
    dirs: Seq<Seq<char>>,
    at: Seq<char>,
    name: Seq<char>,
    step: FsStep<ChoosePath, String>,
) -> bool {
    let literal = state::joined(at, name);
    match step {
        FsStep::Ask(request, ChoosePath::Leaf { choice }) => {
            &&& file::leaves_choice(name)
            &&& file::is_choice(choice, at, name)
            &&& request matches TreeRequest::Versions { path: p }
            &&& p@ == literal
        },
        FsStep::Ask(request, ChoosePath::Children { choice }) => {
            &&& file::leaves_choice(name)
            &&& file::is_choice(choice, at, name)
            &&& !is_leaf(f, literal)
            &&& request matches TreeRequest::Folder { path: p }
            &&& p@ == literal
        },
        FsStep::Ask(request, ChoosePath::Shadow { choice }) => {
            &&& file::leaves_choice(name)
            &&& file::is_choice(choice, at, name)
            &&& kind_at(f, dirs, literal) is None
            &&& request matches TreeRequest::Folder { path: p }
            &&& p@ == choice.shadowed@
        },
        FsStep::Done(Ok(path)) => path@ == target(f, dirs, at, name),
        FsStep::Done(Err(_)) => false,
    }
}

/// An honest reply takes choosing a path on.
proof fn choose_step(
    f: Files,
    dirs: Seq<Seq<char>>,
    at: Seq<char>,
    name: Seq<char>,
    request: TreeRequest,
    task: ChoosePath,
    reply: TreeReply,
    next: FsStep<ChoosePath, String>,
)
    requires
        choose_state(f, dirs, at, name, FsStep::Ask(request, task)),
        tree_honest(f, request, reply),
        file::choosing_resumes(task, dirs, reply, next),
    ensures
        choose_state(f, dirs, at, name, next),
        tree_effect(f, request) == f,
{
}

/// A name that looks a file up stands for that file where it is made, removed or
/// renamed.
pub proof fn target_is_found(f: Files, dirs: Seq<Seq<char>>, at: Seq<char>, name: Seq<char>)
    requires
        found(f, dirs, at, name) matches Some((_, kind)) && kind == FileKind::RegularFile,
    ensures
        found(f, dirs, at, name) == Some((target(f, dirs, at, name), FileKind::RegularFile)),
{
    let path = state::joined(at, state::looked_up(name));
    if kind_at(f, dirs, state::joined(at, name)) is None && !file::leaves_choice(name) {
        assert(path.len() == 0 || path.last() == '/');
    }
}

/// A name that stands for nothing stands for the file that is made under it: it
/// is found under the name, and nothing else has changed its meaning.
pub proof fn made_file_is_found(
    f: Files,
    dirs: Seq<Seq<char>>,
    at: Seq<char>,
    name: Seq<char>,
    content: Seq<u8>,
)
    requires
        found(f, dirs, at, name) is None,
        path::is_valid(target(f, dirs, at, name)),
    ensures
        ({
            let path = target(f, dirs, at, name);
            found(
                Files { contents: f.contents.insert(path, content), ..f },
                dirs,
                at,
                name,
            ) == Some((path, FileKind::RegularFile))
        }),
{
    let literal = state::joined(at, name);
    let shadowed = state::joined(at, state::looked_up(name));
    let path = target(f, dirs, at, name);
    let after = Files { contents: f.contents.insert(path, content), ..f };
    assert(path.len() <= literal.len());
    assert(has_file_below(after, literal) ==> has_file_below(f, literal)) by {
        if has_file_below(after, literal) {
            let p = choose|p: Seq<char>|
                #![trigger after.contents.contains_key(p)]
                after.contents.contains_key(p) && text::has_prefix(
                    p,
                    list::folder_prefix(literal),
                );
            if literal.len() > 0 {
                assert(p.len() > literal.len());
            }
            assert(f.contents.contains_key(p));
        }
    }
    if path == shadowed && path != literal {
        assert(has_file_below(f, shadowed) ==> has_file_below(after, shadowed)) by {
            if has_file_below(f, shadowed) {
                let p = choose|p: Seq<char>|
                    #![trigger f.contents.contains_key(p)]
                    f.contents.contains_key(p) && text::has_prefix(
                        p,
                        list::folder_prefix(shadowed),
                    );
                assert(after.contents.contains_key(p));
            }
        }
    }
}

/// Where making a file stands.
pub open spec fn create_state(
    f: Files,
    before: FsView,
    at: Seq<char>,
    name: Seq<char>,
    s: FsView,
    step: FsStep<Create, (FileAttr, u64)>,
) -> bool {
    let path = target(f, before.dirs, at, name);
    match step {
        FsStep::Ask(request, t) => s == before && choose_state(
            f,
            before.dirs,
            at,
            name,
            FsStep::Ask(request, t.choosing),
        ),
        FsStep::Done(r) => {
            &&& s == file::created(before, path)
            &&& r matches Ok((attr, fh))
            &&& fh == before.next_fh
            &&& node::is_file_attr(
                attr,
                state::ino_for(path, FileKind::RegularFile),
                0,
                node::epoch(),
            )
        },
    }
}

/// Making a file registers the path that its name stands for and opens it with an
/// empty buffer. No file changes before the handle is released.
pub proof fn create_law(
    parent: u64,
    name: Seq<char>,
    before: FsView,
    turns: Seq<FsTurn<Create, (FileAttr, u64)>>,
)
    requires
        is_run(|t, s, z, r, n| file::create_resumes(t, s, z, r, n), turns),
        file::create_starts(before, turns[0].state, parent, name, turns[0].step),
        state::directory_path(before, parent) is Some,
    ensures
        turns.last().step is Done ==> create_state(
            turns[0].files,
            before,
            state::directory_path(before, parent)->0,
            name,
            turns.last().state,
            turns.last().step,
        ),
        turns.last().files == turns[0].files,
{
    let resumes = |
        t: Create,
        s: FsView,
        z: FsView,
        r: TreeReply,
        n: FsStep<Create, (FileAttr, u64)>,
    |
        file::create_resumes(t, s, z, r, n);
    let first = turns[0].files;
    let at = state::directory_path(before, parent)->0;
    let inv = |f: Files, s: FsView, step: FsStep<Create, (FileAttr, u64)>|
        f == first && create_state(first, before, at, name, s, step);
    let c = choose|c: FsStep<ChoosePath, String>| #[trigger]
        file::choosing_starts(at, name, c) && file::create_goes_on(
            before,
            turns[0].state,
            c,
            turns[0].step,
        );
    assert(choose_state(first, before.dirs, at, name, c));
    assert forall|
        f: Files,
        request: TreeRequest,
        task: Create,
        s: FsView,
        after: FsView,
        reply: TreeReply,
        next: FsStep<Create, (FileAttr, u64)>,
    |
        #![trigger inv(f, s, FsStep::Ask(request, task)), resumes(task, s, after, reply, next)]
        inv(f, s, FsStep::Ask(request, task)) && tree_honest(f, request, reply) && resumes(
            task,
            s,
            after,
            reply,
            next,
        ) implies inv(tree_effect(f, request), after, next) by {
        let c = choose|c: FsStep<ChoosePath, String>| #[trigger]
            file::choosing_resumes(task.choosing, s.dirs, reply, c) && file::create_goes_on(
                s,
                after,
                c,
                next,
            );
        choose_step(first, before.dirs, at, name, request, task.choosing, reply, c);
    }
    run_keeps(resumes, inv, turns, turns.len() - 1);
}

/// Where a removal stands.
pub open spec fn unlink_state(
    first: Files,
    before: FsView,
    at: Seq<char>,
    name: Seq<char>,
    f: Files,
    s: FsView,
    step: FsStep<Unlink, ()>,
) -> bool {
    let path = target(first, before.dirs, at, name);
    match step {
        FsStep::Ask(request, Unlink::Choosing(t)) => {
            &&& f == first
            &&& s == before
            &&& choose_state(first, before.dirs, at, name, FsStep::Ask(request, t))
        },
        FsStep::Ask(request, Unlink::Removing { path: q }) => {
            &&& f == first
            &&& s == before
            &&& request matches TreeRequest::Remove { path: p }
            &&& p@ == path
            &&& q@ == path
        },
        FsStep::Done(r) => if path::is_valid(path) {
            &&& r == Ok::<(), Errno>(())
            &&& f.contents == first.contents.remove(path)
            &&& s == state::unregistered(before, path, FileKind::RegularFile)
        } else {
            &&& r == Err::<(), Errno>(Errno::Io)
            &&& f == first
            &&& s == before
        },
    }
}

/// An honest reply takes a removal on.
pub proof fn unlink_step(
    first: Files,
    before: FsView,
    at: Seq<char>,
    name: Seq<char>,
    f: Files,
    s: FsView,
    request: TreeRequest,
    task: Unlink,
    after: FsView,
    reply: TreeReply,
    next: FsStep<Unlink, ()>,
)
    requires
        unlink_state(first, before, at, name, f, s, FsStep::Ask(request, task)),
        tree_honest(f, request, reply),
        file::unlink_resumes(task, s, after, reply, next),
    ensures
        unlink_state(first, before, at, name, tree_effect(f, request), after, next),
{
    if let Unlink::Choosing(t) = task {
        let c = choose|c: FsStep<ChoosePath, String>| #[trigger]
            file::choosing_resumes(t, s.dirs, reply, c) && file::unlink_goes_on(c, next);
        choose_step(first, before.dirs, at, name, request, t, reply, c);
    }
}

/// The first step of a removal is where it should be.
pub proof fn unlink_begins(
    first: Files,
    before: FsView,
    parent: u64,
    name: Seq<char>,
    step: FsStep<Unlink, ()>,
)
    requires
        file::unlink_starts(before, parent, name, step),
        state::directory_path(before, parent) is Some,
    ensures
        unlink_state(
            first,
            before,
            state::directory_path(before, parent)->0,
            name,
            first,
            before,
            step,
        ),
        !(step is Done),
{
    let at = state::directory_path(before, parent)->0;
    let c = choose|c: FsStep<ChoosePath, String>| #[trigger]
        file::choosing_starts(at, name, c) && file::unlink_goes_on(c, step);
    assert(choose_state(first, before.dirs, at, name, c));
}

/// Removing a file removes exactly the file that its name stands for, with all
/// its versions. What lies below its path stays.
pub proof fn unlink_law(parent: u64, name: Seq<char>, turns: Seq<FsTurn<Unlink, ()>>)
    requires
        is_run(|t, s, z, r, n| file::unlink_resumes(t, s, z, r, n), turns),
        file::unlink_starts(turns[0].state, parent, name, turns[0].step),
        state::directory_path(turns[0].state, parent) is Some,
    ensures
        turns.last().step is Done ==> {
            let at = state::directory_path(turns[0].state, parent)->0;
            unlink_state(
                turns[0].files,
                turns[0].state,
                at,
                name,
                turns.last().files,
                turns.last().state,
                turns.last().step,
            )
        },
{
    let resumes = |t: Unlink, s: FsView, z: FsView, r: TreeReply, n: FsStep<Unlink, ()>|
        file::unlink_resumes(t, s, z, r, n);
    let first = turns[0].files;
    let before = turns[0].state;
    let at = state::directory_path(before, parent)->0;
    let inv = |f: Files, s: FsView, step: FsStep<Unlink, ()>|
        unlink_state(first, before, at, name, f, s, step);
    unlink_begins(first, before, parent, name, turns[0].step);
    assert forall|
        f: Files,
        request: TreeRequest,
        task: Unlink,
        s: FsView,
        after: FsView,
        reply: TreeReply,
        next: FsStep<Unlink, ()>,
    |
        #![trigger inv(f, s, FsStep::Ask(request, task)), resumes(task, s, after, reply, next)]
        inv(f, s, FsStep::Ask(request, task)) && tree_honest(f, request, reply) && resumes(
            task,
            s,
            after,
            reply,
            next,
        ) implies inv(tree_effect(f, request), after, next) by {
        unlink_step(first, before, at, name, f, s, request, task, after, reply, next);
    }
    run_keeps(resumes, inv, turns, turns.len() - 1);
}

/// Where a renaming stands.
pub open spec fn rename_state(
    first: Files,
    before: FsView,
    at: Seq<char>,
    name: Seq<char>,
    to: Seq<char>,
    new_name: Seq<char>,
    f: Files,
    s: FsView,
    step: FsStep<Rename, ()>,
) -> bool {
    let old_path = target(first, before.dirs, at, name);
    let new_path = target(first, before.dirs, to, new_name);
    match step {
        FsStep::Ask(request, Rename::ChoosingOld { choosing, parent: q, name: n }) => {
            &&& f == first
            &&& s == before
            &&& q@ == to
            &&& n@ == new_name
            &&& choose_state(first, before.dirs, at, name, FsStep::Ask(request, choosing))
        },
        FsStep::Ask(request, Rename::ChoosingNew { old_path: a, choosing }) => {
            &&& f == first
            &&& s == before
            &&& a@ == old_path
            &&& choose_state(first, before.dirs, to, new_name, FsStep::Ask(request, choosing))
        },
        FsStep::Ask(request, Rename::Opening { old_path: a, new_path: b }) => {
            &&& f == first
            &&& s == before
            &&& a@ == old_path
            &&& b@ == new_path
            &&& request matches TreeRequest::OpenReader { path: p }
            &&& p@ == old_path
        },
        FsStep::Ask(request, Rename::Adding { old_path: a }) => {
            &&& f.contents == first.contents
            &&& s == before
            &&& path::is_valid(old_path)
            &&& first.contents.contains_key(old_path)
            &&& f.opened == Some(first.contents[old_path])
            &&& a@ == old_path
            &&& request matches TreeRequest::AddFromReader { path: p, limit }
            &&& p@ == new_path
            &&& limit is None
        },
        FsStep::Ask(request, Rename::Removing { old_path: a }) => {
            &&& path::is_valid(old_path) && path::is_valid(new_path)
            &&& first.contents.contains_key(old_path)
            &&& f.contents == first.contents.insert(new_path, first.contents[old_path])
            &&& s == before
            &&& a@ == old_path
            &&& request matches TreeRequest::Remove { path: p }
            &&& p@ == old_path
        },
        FsStep::Done(r) => if !(path::is_valid(old_path) && first.contents.contains_key(old_path)) {
            &&& r == Err::<(), Errno>(Errno::NoEntry)
            &&& f.contents == first.contents
            &&& s == before
        } else if !path::is_valid(new_path) {
            &&& r == Err::<(), Errno>(Errno::Io)
            &&& f.contents == first.contents
            &&& s == before
        } else {
            &&& r == Ok::<(), Errno>(())
            &&& f.contents == first.contents.insert(
                new_path,
                first.contents[old_path],
            ).remove(old_path)
            &&& s == state::unregistered(before, old_path, FileKind::RegularFile)
        },
    }
}

/// A renaming whose new path is being chosen is where it should be.
proof fn rename_to_is_placed(
    first: Files,
    before: FsView,
    at: Seq<char>,
    name: Seq<char>,
    to: Seq<char>,
    new_name: Seq<char>,
    c: FsStep<ChoosePath, String>,
    step: FsStep<Rename, ()>,
)
    requires
        choose_state(first, before.dirs, to, new_name, c),
        file::rename_to(c, target(first, before.dirs, at, name), step),
    ensures
        rename_state(first, before, at, name, to, new_name, first, before, step),
{
}

/// A renaming whose old path is being chosen is where it should be.
proof fn rename_from_is_placed(
    first: Files,
    before: FsView,
    at: Seq<char>,
    name: Seq<char>,
    to: Seq<char>,
    new_name: Seq<char>,
    c: FsStep<ChoosePath, String>,
    step: FsStep<Rename, ()>,
)
    requires
        choose_state(first, before.dirs, at, name, c),
        file::rename_from(c, to, new_name, step),
    ensures
        rename_state(first, before, at, name, to, new_name, first, before, step),
{
    if let FsStep::Done(Ok(from)) = c {
        let d = choose|d: FsStep<ChoosePath, String>| #[trigger]
            file::choosing_starts(to, new_name, d) && file::rename_to(d, from@, step);
        assert(choose_state(first, before.dirs, to, new_name, d));
        rename_to_is_placed(first, before, at, name, to, new_name, d, step);
    }
}

/// An honest reply takes a renaming on.
pub proof fn rename_step(
    first: Files,
    before: FsView,
    at: Seq<char>,
    name: Seq<char>,
    to: Seq<char>,
    new_name: Seq<char>,
    f: Files,
    s: FsView,
    request: TreeRequest,
    task: Rename,
    after: FsView,
    reply: TreeReply,
    next: FsStep<Rename, ()>,
)
    requires
        rename_state(first, before, at, name, to, new_name, f, s, FsStep::Ask(request, task)),
        tree_honest(f, request, reply),
        file::rename_resumes(task, s, after, reply, next),
    ensures
        rename_state(
            first,
            before,
            at,
            name,
            to,
            new_name,
            tree_effect(f, request),
            after,
            next,
        ),
{
    match task {
        Rename::ChoosingOld { choosing: t, parent: q, name: n } => {
            let c = choose|c: FsStep<ChoosePath, String>| #[trigger]
                file::choosing_resumes(t, s.dirs, reply, c) && file::rename_from(c, q@, n@, next);
            choose_step(first, before.dirs, at, name, request, t, reply, c);
            rename_from_is_placed(first, before, at, name, to, new_name, c, next);
        },
        Rename::ChoosingNew { old_path: a, choosing: t } => {
            let c = choose|c: FsStep<ChoosePath, String>| #[trigger]
                file::choosing_resumes(t, s.dirs, reply, c) && file::rename_to(c, a@, next);
            choose_step(first, before.dirs, to, new_name, request, t, reply, c);
            rename_to_is_placed(first, before, at, name, to, new_name, c, next);
        },
        _ => {},
    }
}

/// The first step of a renaming is where it should be.
pub proof fn rename_begins(
    first: Files,
    before: FsView,
    parent: u64,
    name: Seq<char>,
    new_parent: u64,
    new_name: Seq<char>,
    step: FsStep<Rename, ()>,
)
    requires
        file::rename_starts(before, parent, name, new_parent, new_name, step),
        state::directory_path(before, parent) is Some,
        state::directory_path(before, new_parent) is Some,
    ensures
        rename_state(
            first,
            before,
            state::directory_path(before, parent)->0,
            name,
            state::directory_path(before, new_parent)->0,
            new_name,
            first,
            before,
            step,
        ),
{
    let at = state::directory_path(before, parent)->0;
    let to = state::directory_path(before, new_parent)->0;
    let c = choose|c: FsStep<ChoosePath, String>| #[trigger]
        file::choosing_starts(at, name, c) && file::rename_from(c, to, new_name, step);
    assert(choose_state(first, before.dirs, at, name, c));
    rename_from_is_placed(first, before, at, name, to, new_name, c, step);
}

/// A renaming is at every turn where it should be.
pub proof fn rename_turn(
    parent: u64,
    name: Seq<char>,
    new_parent: u64,
    new_name: Seq<char>,
    turns: Seq<FsTurn<Rename, ()>>,
    k: int,
)
    requires
        is_run(|t, s, z, r, n| file::rename_resumes(t, s, z, r, n), turns),
        file::rename_starts(turns[0].state, parent, name, new_parent, new_name, turns[0].step),
        state::directory_path(turns[0].state, parent) is Some,
        state::directory_path(turns[0].state, new_parent) is Some,
        0 <= k < turns.len(),
    ensures
        rename_state(
            turns[0].files,
            turns[0].state,
            state::directory_path(turns[0].state, parent)->0,
            name,
            state::directory_path(turns[0].state, new_parent)->0,
            new_name,
            turns[k].files,
            turns[k].state,
            turns[k].step,
        ),
{
    let resumes = |t: Rename, s: FsView, z: FsView, r: TreeReply, n: FsStep<Rename, ()>|
        file::rename_resumes(t, s, z, r, n);
    let first = turns[0].files;
    let before = turns[0].state;
    let at = state::directory_path(before, parent)->0;
    let to = state::directory_path(before, new_parent)->0;
    let inv = |f: Files, s: FsView, step: FsStep<Rename, ()>|
        rename_state(first, before, at, name, to, new_name, f, s, step);
    rename_begins(first, before, parent, name, new_parent, new_name, turns[0].step);
    assert forall|
        f: Files,
        request: TreeRequest,
        task: Rename,
        s: FsView,
        after: FsView,
        reply: TreeReply,
        next: FsStep<Rename, ()>,
    |
        #![trigger inv(f, s, FsStep::Ask(request, task)), resumes(task, s, after, reply, next)]
        inv(f, s, FsStep::Ask(request, task)) && tree_honest(f, request, reply) && resumes(
            task,
            s,
            after,
            reply,
            next,
        ) implies inv(tree_effect(f, request), after, next) by {
        rename_step(first, before, at, name, to, new_name, f, s, request, task, after, reply, next);
    }
    run_keeps(resumes, inv, turns, k);
}

/// Renaming a file gives its content to the new path and removes the old path.
/// A file that is not there is refused, and nothing changes.
pub proof fn rename_law(
    parent: u64,
    name: Seq<char>,
    new_parent: u64,
    new_name: Seq<char>,
    turns: Seq<FsTurn<Rename, ()>>,
)
    requires
        is_run(|t, s, z, r, n| file::rename_resumes(t, s, z, r, n), turns),
        file::rename_starts(turns[0].state, parent, name, new_parent, new_name, turns[0].step),
        state::directory_path(turns[0].state, parent) is Some,
        state::directory_path(turns[0].state, new_parent) is Some,
    ensures
        turns.last().step is Done ==> {
            let at = state::directory_path(turns[0].state, parent)->0;
            let to = state::directory_path(turns[0].state, new_parent)->0;
            rename_state(
                turns[0].files,
                turns[0].state,
                at,
                name,
                to,
                new_name,
                turns.last().files,
                turns.last().state,
                turns.last().step,
            )
        },
{
    rename_turn(parent, name, new_parent, new_name, turns, turns.len() - 1);
}

/// Where the truncation of a file stands.
pub open spec fn truncate_state(
    first: Files,
    ino: u64,
    path: Seq<char>,
    size: u64,
    f: Files,
    step: FsStep<SetAttr, FileAttr>,
) -> bool {
    let cut = limited(first.contents[path], Some(size));
    match step {
        FsStep::Ask(request, SetAttr::Opening { ino: i, path: q, kind, size: z }) => {
            &&& f == first
            &&& i == ino
            &&& q@ == path
            &&& kind == FileKind::RegularFile
            &&& z == size
            &&& request matches TreeRequest::OpenReader { path: p }
            &&& p@ == path
        },
        FsStep::Ask(request, SetAttr::Adding { ino: i, path: q, kind }) => {
            &&& f.contents == first.contents
            &&& first.contents.contains_key(path)
            &&& f.opened == Some(first.contents[path])
            &&& i == ino
            &&& q@ == path
            &&& kind == FileKind::RegularFile
            &&& request matches TreeRequest::AddFromReader { path: p, limit }
            &&& p@ == path
            &&& limit == Some(size)
        },
        FsStep::Ask(request, SetAttr::Attr(t)) => {
            &&& first.contents.contains_key(path)
            &&& f.contents == first.contents.insert(path, cut)
            &&& t.ino == ino
            &&& request matches TreeRequest::Stat { path: p }
            &&& p@ == path
        },
        FsStep::Done(r) => if first.contents.contains_key(path) {
            &&& f.contents == first.contents.insert(path, cut)
            &&& r matches Ok(attr)
            &&& attr.ino == ino
            &&& attr.kind == FileKind::RegularFile
            &&& attr.size == cut.len()
        } else {
            &&& r == Err::<FileAttr, Errno>(Errno::Io)
            &&& f.contents == first.contents
        },
    }
}

/// An honest reply takes a truncation on.
pub proof fn truncate_step(
    first: Files,
    ino: u64,
    path: Seq<char>,
    size: u64,
    f: Files,
    request: TreeRequest,
    task: SetAttr,
    reply: TreeReply,
    next: FsStep<SetAttr, FileAttr>,
)
    requires
        truncate_state(first, ino, path, size, f, FsStep::Ask(request, task)),
        path::is_valid(path),
        tree_honest(f, request, reply),
        file::setattr_resumes(task, reply, next),
    ensures
        truncate_state(first, ino, path, size, tree_effect(f, request), next),
{
}

/// Truncating a file is at every turn where it should be.
pub proof fn truncate_turn(
    ino: u64,
    size: u64,
    turns: Seq<FsTurn<SetAttr, FileAttr>>,
    k: int,
)
    requires
        is_run(|t, s: FsView, z: FsView, r, n| s == z && file::setattr_resumes(t, r, n), turns),
        file::setattr_starts(turns[0].state, ino, Some(size), turns[0].step),
        turns[0].state.inodes.contains_key(ino),
        turns[0].state.inodes[ino].kind == FileKind::RegularFile,
        path::is_valid(turns[0].state.inodes[ino].path),
        0 <= k < turns.len(),
    ensures
        truncate_state(
            turns[0].files,
            ino,
            turns[0].state.inodes[ino].path,
            size,
            turns[k].files,
            turns[k].step,
        ),
        turns[k].state == turns[0].state,
{
    let resumes = |t: SetAttr, s: FsView, z: FsView, r: TreeReply, n: FsStep<SetAttr, FileAttr>|
        s == z && file::setattr_resumes(t, r, n);
    let first = turns[0].files;
    let before = turns[0].state;
    let path = before.inodes[ino].path;
    let inv = |f: Files, s: FsView, step: FsStep<SetAttr, FileAttr>|
        s == before && truncate_state(first, ino, path, size, f, step);
    assert forall|
        f: Files,
        request: TreeRequest,
        task: SetAttr,
        s: FsView,
        after: FsView,
        reply: TreeReply,
        next: FsStep<SetAttr, FileAttr>,
    |
        #![trigger inv(f, s, FsStep::Ask(request, task)), resumes(task, s, after, reply, next)]
        inv(f, s, FsStep::Ask(request, task)) && tree_honest(f, request, reply) && resumes(
            task,
            s,
            after,
            reply,
            next,
        ) implies inv(tree_effect(f, request), after, next) by {
        truncate_step(first, ino, path, size, f, request, task, reply, next);
    }
    run_keeps(resumes, inv, turns, k);
}

/// The attributes given at the end of a run are those of a file, by the metadata
/// of its path, which came back last.
pub open spec fn has_stat_attr<T>(
    turns: Seq<FsTurn<T, FileAttr>>,
    attr: FileAttr,
    ino: u64,
    path: Seq<char>,
    size: nat,
) -> bool {
    &&& turns.len() >= 2
    &&& turns[turns.len() - 2].step matches FsStep::Ask(TreeRequest::Stat { path: p }, _)
    &&& p@ == path
    &&& turns[turns.len() - 2].reply matches TreeReply::Stat(Ok(Some(st)))
    &&& st.size == size
    &&& node::is_file_attr(attr, ino, st.size, node::time_of(st.created_at))
}

/// Truncating a file keeps its first bytes, as many as asked for, as the content
/// of a new version, and gives the attributes of the cut file.
pub proof fn truncate_law(ino: u64, size: u64, turns: Seq<FsTurn<SetAttr, FileAttr>>)
    requires
        is_run(|t, s: FsView, z: FsView, r, n| s == z && file::setattr_resumes(t, r, n), turns),
        file::setattr_starts(turns[0].state, ino, Some(size), turns[0].step),
        turns[0].state.inodes.contains_key(ino),
        turns[0].state.inodes[ino].kind == FileKind::RegularFile,
        path::is_valid(turns[0].state.inodes[ino].path),
    ensures
        turns.last().step matches FsStep::Done(r) ==> {
            let path = turns[0].state.inodes[ino].path;
            let f = turns[0].files;
            let cut = limited(f.contents[path], Some(size));
            if f.contents.contains_key(path) {
                &&& turns.last().files.contents == f.contents.insert(path, cut)
                &&& r matches Ok(attr)
                &&& has_stat_attr(turns, attr, ino, path, cut.len())
            } else {
                &&& r == Err::<FileAttr, Errno>(Errno::Io)
                &&& turns.last().files.contents == f.contents
            }
        },
        turns.last().state == turns[0].state,
{
    let resumes = |t: SetAttr, s: FsView, z: FsView, r: TreeReply, n: FsStep<SetAttr, FileAttr>|
        s == z && file::setattr_resumes(t, r, n);
    let k = turns.len() - 1;
    truncate_turn(ino, size, turns, k);
    if turns[k].step is Done {
        truncate_turn(ino, size, turns, k - 1);
        assert(leads_on(resumes, turns, k - 1));
    }
}

/// Setting attributes without a size changes nothing, whatever else is given: the
/// attributes are those that finding them out gives.
pub proof fn setattr_law(ino: u64, turns: Seq<FsTurn<SetAttr, FileAttr>>)
    requires
        is_run(|t, s: FsView, z: FsView, r, n| s == z && file::setattr_resumes(t, r, n), turns),
        file::setattr_starts(turns[0].state, ino, None, turns[0].step),
        turns[0].state.inodes.contains_key(ino),
    ensures
        turns.last().files == turns[0].files,
        turns.last().state == turns[0].state,
        turns.last().step matches FsStep::Done(r) ==> match turns[0].state.inodes[ino].kind {
            FileKind::Directory => r matches Ok(attr) && node::is_dir_attr(attr, ino),
            FileKind::RegularFile => {
                &&& r matches Ok(attr)
                &&& turns.len() == 2
                &&& turns[0].reply matches TreeReply::Stat(m)
                &&& state::is_stat_attr(attr, ino, m)
                &&& turns[0].step matches FsStep::Ask(TreeRequest::Stat { path: p }, _)
                &&& p@ == turns[0].state.inodes[ino].path
            },
        },
{
    let resumes = |t: SetAttr, s: FsView, z: FsView, r: TreeReply, n: FsStep<SetAttr, FileAttr>|
        s == z && file::setattr_resumes(t, r, n);
    let path = turns[0].state.inodes[ino].path;
    let kind = turns[0].state.inodes[ino].kind;
    let a = choose|a: FsStep<GetAttr, FileAttr>| #[trigger]
        find::gives_attr(a, ino, path, kind) && turns[0].step == file::after_setting(a);
    assert(find::gives_attr(a, ino, path, kind));
    if turns.len() > 1 {
        assert(leads_on(resumes, turns, 0));
    }
    if turns.len() > 2 {
        assert(leads_on(resumes, turns, 1));
    }
}

// ---------------------------------------------------------------------------
// Finding
// ---------------------------------------------------------------------------

/// The path is a file.
pub open spec fn is_leaf(f: Files, path: Seq<char>) -> bool {
    path::is_valid(path) && f.contents.contains_key(path)
}

/// The path is a directory: files lie below it, or `mkdir` made it.
pub open spec fn is_folder(f: Files, dirs: Seq<Seq<char>>, path: Seq<char>) -> bool {
    ((path.len() == 0 || path::is_valid(path)) && has_file_below(f, path)) || dirs.contains(path)
}

/// What a path is.
pub open spec fn kind_at(f: Files, dirs: Seq<Seq<char>>, path: Seq<char>) -> Option<FileKind> {
    if is_folder(f, dirs, path) {
        Some(FileKind::Directory)
    } else if is_leaf(f, path) {
        Some(FileKind::RegularFile)
    } else {
        None
    }
}

/// The path and the kind that a name in a directory stands for.
pub open spec fn found(
    f: Files,
    dirs: Seq<Seq<char>>,
    at: Seq<char>,
    name: Seq<char>,
) -> Option<(Seq<char>, FileKind)> {
    let literal = state::joined(at, name);
    match kind_at(f, dirs, literal) {
        Some(kind) => Some((literal, kind)),
        None => {
            let path = state::joined(at, state::looked_up(name));
            if state::is_alias(name) && is_leaf(f, path) && is_folder(f, dirs, path) {
                Some((path, FileKind::RegularFile))
            } else {
                None
            }
        },
    }
}

/// Where resolving a name stands.
pub open spec fn resolve_state(
    f: Files,
    dirs: Seq<Seq<char>>,
    at: Seq<char>,
    name: Seq<char>,
    step: FsStep<ResolveChild, Option<(String, FileKind)>>,
) -> bool {
    match step {
        FsStep::Ask(request, ResolveChild::Leaf { search }) => {
            &&& is_search(f, dirs, at, name, search)
            &&& request matches TreeRequest::Versions { path: p }
            &&& p@ == search.path@
        },
        FsStep::Ask(request, ResolveChild::Children { search, leaf }) => {
            &&& is_search(f, dirs, at, name, search)
            &&& leaf == is_leaf(f, search.path@)
            &&& request matches TreeRequest::Folder { path: p }
            &&& p@ == search.path@
        },
        FsStep::Done(Ok(None)) => found(f, dirs, at, name) is None,
        FsStep::Done(Ok(Some((path, kind)))) => found(f, dirs, at, name) == Some((path@, kind)),
        FsStep::Done(Err(_)) => false,
    }
}

/// The path looked for is the one that the name is, or, where that is nothing,
/// the one that it is an alias of.
pub open spec fn is_search(
    f: Files,
    dirs: Seq<Seq<char>>,
    at: Seq<char>,
    name: Seq<char>,
    search: find::Search,
) -> bool {
    let literal = state::joined(at, name);
    let path = state::joined(at, state::looked_up(name));
    if search.alias {
        &&& state::is_alias(name)
        &&& kind_at(f, dirs, literal) is None
        &&& search.path@ == path
        &&& search.after is None
    } else {
        &&& search.path@ == literal
        &&& match search.after {
            Some(p) => state::is_alias(name) && p@ == path,
            None => !state::is_alias(name),
        }
    }
}

/// An honest reply takes resolving a name on.
proof fn resolve_step(
    f: Files,
    dirs: Seq<Seq<char>>,
    at: Seq<char>,
    name: Seq<char>,
    request: TreeRequest,
    task: ResolveChild,
    reply: TreeReply,
    next: FsStep<ResolveChild, Option<(String, FileKind)>>,
)
    requires
        resolve_state(f, dirs, at, name, FsStep::Ask(request, task)),
        tree_honest(f, request, reply),
        find::resolving_resumes(task, dirs, reply, next),
    ensures
        resolve_state(f, dirs, at, name, next),
        tree_effect(f, request) == f,
{
}

/// Where looking up a name stands.
pub open spec fn lookup_state(
    f: Files,
    before: FsView,
    at: Seq<char>,
    name: Seq<char>,
    s: FsView,
    step: FsStep<Lookup, FileAttr>,
) -> bool {
    let target = found(f, before.dirs, at, name);
    match step {
        FsStep::Ask(request, Lookup::Resolving(t)) => s == before && resolve_state(
            f,
            before.dirs,
            at,
            name,
            FsStep::Ask(request, t),
        ),
        FsStep::Ask(request, Lookup::Attr(t)) => {
            &&& target matches Some((path, kind))
            &&& kind == FileKind::RegularFile
            &&& s == state::registered(before, path, kind)
            &&& t.ino == state::ino_for(path, kind)
            &&& request matches TreeRequest::Stat { path: p }
            &&& p@ == path
        },
        FsStep::Done(r) => match target {
            None => r == Err::<FileAttr, Errno>(Errno::NoEntry) && s == before,
            Some((path, kind)) => {
                &&& s == state::registered(before, path, kind)
                &&& r matches Ok(attr)
                &&& kind == FileKind::Directory ==> node::is_dir_attr(
                    attr,
                    state::ino_for(path, kind),
                )
            },
        },
    }
}

/// Looking up a name is at every turn where it should be.
pub proof fn lookup_turn(
    parent: u64,
    name: Seq<char>,
    turns: Seq<FsTurn<Lookup, FileAttr>>,
    k: int,
)
    requires
        is_run(|t, s, z, r, n| find::lookup_resumes(t, s, z, r, n), turns),
        find::lookup_starts(turns[0].state, parent, name, turns[0].step),
        state::directory_path(turns[0].state, parent) is Some,
        0 <= k < turns.len(),
    ensures
        lookup_state(
            turns[0].files,
            turns[0].state,
            state::directory_path(turns[0].state, parent)->0,
            name,
            turns[k].state,
            turns[k].step,
        ),
        turns[k].files == turns[0].files,
{
    let resumes = |t: Lookup, s: FsView, z: FsView, r: TreeReply, n: FsStep<Lookup, FileAttr>|
        find::lookup_resumes(t, s, z, r, n);
    let first = turns[0].files;
    let before = turns[0].state;
    let at = state::directory_path(before, parent)->0;
    let inv = |f: Files, s: FsView, step: FsStep<Lookup, FileAttr>|
        f == first && lookup_state(first, before, at, name, s, step);
    assert forall|
        f: Files,
        request: TreeRequest,
        task: Lookup,
        s: FsView,
        after: FsView,
        reply: TreeReply,
        next: FsStep<Lookup, FileAttr>,
    |
        #![trigger inv(f, s, FsStep::Ask(request, task)), resumes(task, s, after, reply, next)]
        inv(f, s, FsStep::Ask(request, task)) && tree_honest(f, request, reply) && resumes(
            task,
            s,
            after,
            reply,
            next,
        ) implies inv(tree_effect(f, request), after, next) by {
        match task {
            Lookup::Resolving(t) => {
                let r = choose|r: FsStep<ResolveChild, Option<(String, FileKind)>>| #[trigger]
                    find::resolving_resumes(t, s.dirs, reply, r) && find::lookup_goes_on(
                        s,
                        after,
                        r,
                        next,
                    );
                resolve_step(first, before.dirs, at, name, request, t, reply, r);
            },
            Lookup::Attr(t) => {},
        }
    }
    run_keeps(resumes, inv, turns, k);
}

/// A looked up name gives the attributes of what it stands for, and registers it:
/// those of a directory, or those of a file by the metadata of its path. A name
/// that stands for nothing is refused, and so is one in an unknown directory.
pub proof fn lookup_law(parent: u64, name: Seq<char>, turns: Seq<FsTurn<Lookup, FileAttr>>)
    requires
        is_run(|t, s, z, r, n| find::lookup_resumes(t, s, z, r, n), turns),
        find::lookup_starts(turns[0].state, parent, name, turns[0].step),
    ensures
        turns.last().step matches FsStep::Done(r) ==> match state::directory_path(
            turns[0].state,
            parent,
        ) {
            None => {
                &&& r == Err::<FileAttr, Errno>(Errno::NoEntry)
                &&& turns.last().state == turns[0].state
            },
            Some(at) => match found(turns[0].files, turns[0].state.dirs, at, name) {
                None => {
                    &&& r == Err::<FileAttr, Errno>(Errno::NoEntry)
                    &&& turns.last().state == turns[0].state
                },
                Some((path, kind)) => {
                    let ino = state::ino_for(path, kind);
                    &&& turns.last().state == state::registered(turns[0].state, path, kind)
                    &&& r matches Ok(attr)
                    &&& match kind {
                        FileKind::Directory => node::is_dir_attr(attr, ino),
                        FileKind::RegularFile => has_stat_attr(
                            turns,
                            attr,
                            ino,
                            path,
                            turns[0].files.contents[path].len(),
                        ),
                    }
                },
            },
        },
        turns.last().files == turns[0].files,
{
    let resumes = |t: Lookup, s: FsView, z: FsView, r: TreeReply, n: FsStep<Lookup, FileAttr>|
        find::lookup_resumes(t, s, z, r, n);
    let k = turns.len() - 1;
    match state::directory_path(turns[0].state, parent) {
        None => {
            if turns.len() > 1 {
                assert(leads_on(resumes, turns, 0));
            }
        },
        Some(at) => {
            lookup_turn(parent, name, turns, k);
            if turns[k].step is Done {
                lookup_turn(parent, name, turns, k - 1);
                assert(leads_on(resumes, turns, k - 1));
            }
        },
    }
}

/// Where a path is a file and has files below it, its name stands for the
/// directory. The name with an underscore in front stands for the file, unless
/// it is itself something, and then the name with two underscores does.
pub proof fn conflict_law(f: Files, dirs: Seq<Seq<char>>, at: Seq<char>, name: Seq<char>)
    requires
        !state::is_alias(name),
        is_leaf(f, state::joined(at, name)),
        is_folder(f, dirs, state::joined(at, name)),
    ensures
        found(f, dirs, at, name) == Some((state::joined(at, name), FileKind::Directory)),
        kind_at(f, dirs, state::joined(at, seq!['_'] + name)) is None ==> found(
            f,
            dirs,
            at,
            seq!['_'] + name,
        ) == Some((state::joined(at, name), FileKind::RegularFile)),
        kind_at(f, dirs, state::joined(at, seq!['_', '_'] + name)) is None ==> found(
            f,
            dirs,
            at,
            seq!['_', '_'] + name,
        ) == Some((state::joined(at, name), FileKind::RegularFile)),
{
    let once = seq!['_'] + name;
    let twice = seq!['_', '_'] + name;
    assert(once.skip(1) =~= name);
    assert(twice.skip(2) =~= name);
    assert(twice.skip(1) =~= once);
}

/// Every file has a name in its directory: unless it is hidden by its own
/// directory, its name stands for it.
pub proof fn file_is_found(f: Files, dirs: Seq<Seq<char>>, at: Seq<char>, name: Seq<char>)
    requires
        is_leaf(f, state::joined(at, name)),
        !is_folder(f, dirs, state::joined(at, name)),
    ensures
        found(f, dirs, at, name) == Some((state::joined(at, name), FileKind::RegularFile)),
{
}

// ---------------------------------------------------------------------------
// Directories
// ---------------------------------------------------------------------------

/// Where making a directory stands.
pub open spec fn mkdir_state(
    f: Files,
    before: FsView,
    at: Seq<char>,
    name: Seq<char>,
    s: FsView,
    step: FsStep<MakeDir, FileAttr>,
) -> bool {
    let path = state::joined(at, name);
    match step {
        FsStep::Ask(request, t) => {
            &&& s == before
            &&& t.path@ == path
            &&& resolve_state(f, before.dirs, at, name, FsStep::Ask(request, t.resolving))
        },
        FsStep::Done(r) => if found(f, before.dirs, at, name) is Some {
            &&& r == Err::<FileAttr, Errno>(Errno::Exists)
            &&& s == before
        } else {
            &&& r matches Ok(attr)
            &&& node::is_dir_attr(attr, state::ino_for(path, FileKind::Directory))
            &&& pathset::is_ascending(s.dirs)
            &&& forall|x: Seq<char>| #[trigger]
                s.dirs.contains(x) <==> before.dirs.contains(x) || x == path
            &&& found(f, s.dirs, at, name) == Some((path, FileKind::Directory))
        },
    }
}

/// A directory is made exactly if its name stands for nothing; from then on it
/// stands for the directory. No file changes.
pub proof fn mkdir_law(parent: u64, name: Seq<char>, turns: Seq<FsTurn<MakeDir, FileAttr>>)
    requires
        is_run(|t, s, z, r, n| find::mkdir_resumes(t, s, z, r, n), turns),
        find::mkdir_starts(turns[0].state, parent, name, turns[0].step),
        state::directory_path(turns[0].state, parent) is Some,
    ensures
        turns.last().step is Done ==> {
            let at = state::directory_path(turns[0].state, parent)->0;
            mkdir_state(
                turns[0].files,
                turns[0].state,
                at,
                name,
                turns.last().state,
                turns.last().step,
            )
        },
        turns.last().files == turns[0].files,
{
    let resumes = |t: MakeDir, s: FsView, z: FsView, r: TreeReply, n: FsStep<MakeDir, FileAttr>|
        find::mkdir_resumes(t, s, z, r, n);
    let first = turns[0].files;
    let before = turns[0].state;
    let at = state::directory_path(before, parent)->0;
    let inv = |f: Files, s: FsView, step: FsStep<MakeDir, FileAttr>|
        f == first && mkdir_state(first, before, at, name, s, step);
    assert forall|
        f: Files,
        request: TreeRequest,
        task: MakeDir,
        s: FsView,
        after: FsView,
        reply: TreeReply,
        next: FsStep<MakeDir, FileAttr>,
    |
        #![trigger inv(f, s, FsStep::Ask(request, task)), resumes(task, s, after, reply, next)]
        inv(f, s, FsStep::Ask(request, task)) && tree_honest(f, request, reply) && resumes(
            task,
            s,
            after,
            reply,
            next,
        ) implies inv(tree_effect(f, request), after, next) by {
        let r = choose|r: FsStep<ResolveChild, Option<(String, FileKind)>>| #[trigger]
            find::resolving_resumes(task.resolving, s.dirs, reply, r) && find::mkdir_goes_on(
                task.path,
                s,
                after,
                r,
                next,
            );
        resolve_step(first, before.dirs, at, name, request, task.resolving, reply, r);
        if r matches FsStep::Done(Ok(None)) {
            assert(after.dirs.contains(task.path@));
        }
    }
    run_keeps(resumes, inv, turns, turns.len() - 1);
}

/// Where removing a directory stands.
pub open spec fn rmdir_state(
    f: Files,
    before: FsView,
    path: Seq<char>,
    s: FsView,
    step: FsStep<RemoveDir, ()>,
) -> bool {
    match step {
        FsStep::Ask(request, t) => {
            &&& s == before
            &&& before.dirs.contains(path)
            &&& !pathset::any_below(before.dirs, path)
            &&& t.path@ == path
            &&& request matches TreeRequest::Folder { path: p }
            &&& p@ == path
        },
        FsStep::Done(r) => if !before.dirs.contains(path) {
            &&& r == Err::<(), Errno>(Errno::NoEntry)
            &&& s == before
        } else if pathset::any_below(before.dirs, path) || ((path.len() == 0 || path::is_valid(
            path,
        )) && has_file_below(f, path)) {
            &&& r == Err::<(), Errno>(Errno::NotEmpty)
            &&& s == before
        } else {
            &&& r == Ok::<(), Errno>(())
            &&& pathset::is_ascending(s.dirs)
            &&& forall|x: Seq<char>| #[trigger]
                s.dirs.contains(x) <==> before.dirs.contains(x) && x != path
        },
    }
}

/// A directory is removed exactly if `mkdir` made it and nothing is below it,
/// neither a directory nor a file. No file changes.
pub proof fn rmdir_law(parent: u64, name: Seq<char>, turns: Seq<FsTurn<RemoveDir, ()>>)
    requires
        is_run(|t, s, z, r, n| find::rmdir_resumes(t, s, z, r, n), turns),
        find::rmdir_starts(turns[0].state, parent, name, turns[0].step),
        state::directory_path(turns[0].state, parent) is Some,
    ensures
        turns.last().step is Done ==> {
            let at = state::directory_path(turns[0].state, parent)->0;
            rmdir_state(
                turns[0].files,
                turns[0].state,
                state::joined(at, name),
                turns.last().state,
                turns.last().step,
            )
        },
        turns.last().files == turns[0].files,
{
    let resumes = |t: RemoveDir, s: FsView, z: FsView, r: TreeReply, n: FsStep<RemoveDir, ()>|
        find::rmdir_resumes(t, s, z, r, n);
    let first = turns[0].files;
    let before = turns[0].state;
    let path = state::joined(state::directory_path(before, parent)->0, name);
    let inv = |f: Files, s: FsView, step: FsStep<RemoveDir, ()>|
        f == first && rmdir_state(first, before, path, s, step);
    run_keeps(resumes, inv, turns, turns.len() - 1);
}

/// A directory that was made and removed again leaves the directories as they
/// were.
pub proof fn rmdir_undoes_mkdir(
    parent: u64,
    name: Seq<char>,
    making: Seq<FsTurn<MakeDir, FileAttr>>,
    removing: Seq<FsTurn<RemoveDir, ()>>,
)
    requires
        is_run(|t, s, z, r, n| find::mkdir_resumes(t, s, z, r, n), making),
        find::mkdir_starts(making[0].state, parent, name, making[0].step),
        state::directory_path(making[0].state, parent) is Some,
        pathset::is_ascending(making[0].state.dirs),
        making.last().step matches FsStep::Done(Ok(_)),
        is_run(|t, s, z, r, n| find::rmdir_resumes(t, s, z, r, n), removing),
        find::rmdir_starts(removing[0].state, parent, name, removing[0].step),
        removing[0].state.dirs == making.last().state.dirs,
        state::directory_path(removing[0].state, parent) == state::directory_path(
            making[0].state,
            parent,
        ),
        removing.last().step matches FsStep::Done(Ok(_)),
    ensures
        removing.last().state.dirs == making[0].state.dirs,
{
    mkdir_law(parent, name, making);
    rmdir_law(parent, name, removing);
    let a = making[0].state.dirs;
    let b = removing.last().state.dirs;
    let at = state::directory_path(making[0].state, parent)->0;
    let path = state::joined(at, name);
    assert forall|x: Seq<char>| #[trigger] a.contains(x) <==> b.contains(x) by {
        assert(making.last().state.dirs.contains(x) <==> a.contains(x) || x == path);
        assert(b.contains(x) <==> making.last().state.dirs.contains(x) && x != path);
        if a.contains(path) {
            assert(is_folder(making[0].files, a, path));
            assert(kind_at(making[0].files, a, path) is Some);
        }
    }
    pathset::ascending_is_unique(a, b);
}

// ---------------------------------------------------------------------------
// Reading directories
// ---------------------------------------------------------------------------

/// Which of the listed paths, and then of the made directories, hide a file.
pub open spec fn leaves_of(f: Files, listed: Seq<Listed>, made: Seq<Seq<char>>) -> Seq<bool> {
    Seq::new(
        listed.len() + made.len(),
        |i: int|
            if i < listed.len() {
                listed[i] is CommonPrefix && is_leaf(f, listed[i].name())
            } else {
                is_leaf(f, made[i - listed.len()])
            },
    )
}

/// Where reading a directory stands.
pub open spec fn readdir_state(
    f: Files,
    before: FsView,
    parent: Seq<char>,
    offset: u64,
    s: FsView,
    step: FsStep<ReadDir, Vec<DirSlot>>,
) -> bool {
    let made = dir::made_in(before.dirs, parent);
    &&& s == before
    &&& match step {
        FsStep::Ask(request, ReadDir::Listing { parent: q, offset: o }) => {
            &&& q@ == parent
            &&& o == offset
            &&& request matches TreeRequest::Folder { path: p }
            &&& p@ == parent
        },
        FsStep::Ask(
            request,
            ReadDir::Asking { parent: q, offset: o, entries, made: m, leaves },
        ) => {
            let listed = list::listed_views(entries@);
            let n = leaves@.len() as int;
            &&& q@ == parent
            &&& o == offset
            &&& is_tree_listing(f, parent, listed)
            &&& index::texts(m@) == made
            &&& n < listed.len() + made.len()
            &&& n < listed.len() ==> listed[n] is CommonPrefix
            &&& leaves@ == leaves_of(f, listed, made).take(n)
            &&& request matches TreeRequest::Versions { path: p }
            &&& dir::question(listed, made, n) == Some(p@)
        },
        FsStep::Done(r) => {
            &&& r matches Ok(slots)
            &&& exists|listed: Seq<Listed>| #[trigger]
                is_tree_listing(f, parent, listed) && dir::are_slots(
                    slots@,
                    dir::directory(parent, listed, made, leaves_of(f, listed, made)),
                    offset,
                )
        },
    }
}

/// The answers that need no question are right.
proof fn answered_is_right(f: Files, listed: Seq<Listed>, made: Seq<Seq<char>>, leaves: Seq<bool>)
    requires
        leaves.len() <= listed.len() + made.len(),
        leaves == leaves_of(f, listed, made).take(leaves.len() as int),
    ensures
        ({
            let known = dir::answered(listed, leaves);
            &&& known.len() <= listed.len() + made.len()
            &&& known == leaves_of(f, listed, made).take(known.len() as int)
            &&& known.len() < listed.len() ==> listed[known.len() as int] is CommonPrefix
        }),
    decreases listed.len() - leaves.len(),
{
    let n = leaves.len() as int;
    if n < listed.len() && listed[n] is Path {
        let all = leaves_of(f, listed, made);
        assert(leaves.push(false) =~= all.take(n + 1));
        answered_is_right(f, listed, made, leaves.push(false));
    }
}

/// Reading a directory that goes on is where it should be.
proof fn readdir_goes_on(
    f: Files,
    before: FsView,
    parent: Seq<char>,
    offset: u64,
    listed: Seq<Listed>,
    leaves: Seq<bool>,
    step: FsStep<ReadDir, Vec<DirSlot>>,
)
    requires
        is_tree_listing(f, parent, listed),
        leaves.len() <= listed.len() + dir::made_in(before.dirs, parent).len(),
        leaves == leaves_of(f, listed, dir::made_in(before.dirs, parent)).take(leaves.len() as int),
        dir::asks_on(
            step,
            parent,
            offset,
            listed,
            dir::made_in(before.dirs, parent),
            leaves,
        ),
    ensures
        readdir_state(f, before, parent, offset, before, step),
{
    let made = dir::made_in(before.dirs, parent);
    answered_is_right(f, listed, made, leaves);
    let known = dir::answered(listed, leaves);
    let all = leaves_of(f, listed, made);
    if known.len() == listed.len() + made.len() {
        assert(all.take(known.len() as int) =~= all);
    }
}

/// Reading a directory lists itself, the one above, and what the store and
/// `mkdir` put into it, from the offset on, every entry once. Nothing changes.
pub proof fn readdir_law(ino: u64, offset: u64, turns: Seq<FsTurn<ReadDir, Vec<DirSlot>>>)
    requires
        is_run(|t, s: FsView, z: FsView, r, n| s == z && dir::readdir_resumes(t, s, r, n), turns),
        dir::readdir_starts(turns[0].state, ino, offset, turns[0].step),
        state::directory_path(turns[0].state, ino) matches Some(p) && (p.len() == 0
            || path::is_valid(p)),
        files_are_clean(turns[0].files),
    ensures
        turns.last().step is Done ==> readdir_state(
            turns[0].files,
            turns[0].state,
            state::directory_path(turns[0].state, ino)->0,
            offset,
            turns.last().state,
            turns.last().step,
        ),
        turns.last().step matches FsStep::Done(Ok(slots)) ==> forall|i: int, j: int|
            0 <= i < j < slots@.len() ==> (#[trigger] slots@[i]).entry@ != (
            #[trigger] slots@[j]).entry@,
        turns.last().files == turns[0].files,
{
    let resumes = |
        t: ReadDir,
        s: FsView,
        z: FsView,
        r: TreeReply,
        n: FsStep<ReadDir, Vec<DirSlot>>,
    |
        s == z && dir::readdir_resumes(t, s, r, n);
    let first = turns[0].files;
    let before = turns[0].state;
    let parent = state::directory_path(before, ino)->0;
    let made = dir::made_in(before.dirs, parent);
    let inv = |f: Files, s: FsView, step: FsStep<ReadDir, Vec<DirSlot>>|
        f == first && readdir_state(first, before, parent, offset, s, step);
    assert forall|
        f: Files,
        request: TreeRequest,
        task: ReadDir,
        s: FsView,
        after: FsView,
        reply: TreeReply,
        next: FsStep<ReadDir, Vec<DirSlot>>,
    |
        #![trigger inv(f, s, FsStep::Ask(request, task)), resumes(task, s, after, reply, next)]
        inv(f, s, FsStep::Ask(request, task)) && tree_honest(f, request, reply) && resumes(
            task,
            s,
            after,
            reply,
            next,
        ) implies inv(tree_effect(f, request), after, next) by {
        match task {
            ReadDir::Listing { .. } => {
                let listed = list::listed_views(reply->Folder_0->Ok_0@);
                assert(Seq::<bool>::empty() =~= leaves_of(first, listed, made).take(0));
                readdir_goes_on(first, before, parent, offset, listed, Seq::empty(), next);
            },
            ReadDir::Asking { entries, leaves, .. } => {
                let listed = list::listed_views(entries@);
                let n = leaves@.len() as int;
                let all = leaves_of(first, listed, made);
                let more = leaves@.push(state::leaf_in(reply->Versions_0));
                assert(more =~= all.take(n + 1));
                readdir_goes_on(first, before, parent, offset, listed, more, next);
            },
        }
    }
    run_keeps(resumes, inv, turns, turns.len() - 1);
    if let FsStep::Done(Ok(slots)) = turns.last().step {
        let listed = choose|listed: Seq<Listed>| #[trigger]
            is_tree_listing(first, parent, listed) && dir::are_slots(
                slots@,
                dir::directory(parent, listed, made, leaves_of(first, listed, made)),
                offset,
            );
        entries_come_once(first, before.dirs, parent, listed);
        let links = dir::directory(parent, listed, made, leaves_of(first, listed, made));
        assert forall|i: int, j: int| 0 <= i < j < slots@.len() implies (
        #[trigger] slots@[i]).entry@ != (#[trigger] slots@[j]).entry@ by {
            assert(links[offset + i] != links[offset + j]);
        }
    }
}

/// The entries of the store come from the listed paths, and each listed path
/// gives its entries.
pub proof fn stored_come_from(f: Files, listed: Seq<Listed>, leaves: Seq<bool>)
    requires
        leaves.len() == listed.len(),
    ensures
        forall|link: Link| #[trigger]
            dir::stored_links(listed, leaves).contains(link) <==> exists|i: int|
                0 <= i < listed.len() && #[trigger] dir::links_of(listed[i], leaves[i]).contains(
                    link,
                ),
    decreases listed.len(),
{
    if listed.len() > 0 {
        let n = listed.len() - 1;
        let head = listed.drop_last();
        let known = leaves.drop_last();
        let a = dir::stored_links(head, known);
        let b = dir::links_of(listed.last(), leaves.last());
        stored_come_from(f, head, known);
        assert forall|link: Link| #[trigger] (a + b).contains(link) <==> exists|i: int|
            0 <= i < listed.len() && #[trigger] dir::links_of(listed[i], leaves[i]).contains(
                link,
            ) by {
            if (a + b).contains(link) {
                let k = choose|k: int| 0 <= k < (a + b).len() && (a + b)[k] == link;
                if k < a.len() {
                    assert(a[k] == link);
                    assert(a.contains(link));
                    let i = choose|i: int|
                        0 <= i < head.len() && #[trigger] dir::links_of(
                            head[i],
                            known[i],
                        ).contains(link);
                    assert(dir::links_of(listed[i], leaves[i]).contains(link));
                } else {
                    assert(b[k - a.len()] == link);
                    assert(dir::links_of(listed[n], leaves[n]).contains(link));
                }
            }
            if exists|i: int|
                0 <= i < listed.len() && #[trigger] dir::links_of(listed[i], leaves[i]).contains(
                    link,
                ) {
                let i = choose|i: int|
                    0 <= i < listed.len() && #[trigger] dir::links_of(
                        listed[i],
                        leaves[i],
                    ).contains(link);
                if i < n {
                    assert(dir::links_of(head[i], known[i]).contains(link));
                    assert(a.contains(link));
                    let k = choose|k: int| 0 <= k < a.len() && a[k] == link;
                    assert((a + b)[k] == link);
                } else {
                    let k = choose|k: int| 0 <= k < b.len() && b[k] == link;
                    assert((a + b)[a.len() + k] == link);
                }
            }
        }
    } else {
        assert forall|link: Link| !dir::stored_links(listed, leaves).contains(link) by {}
    }
}

/// The entries with made directories hold those without, and else only entries
/// of the made directories.
pub proof fn made_come_from(links: Seq<Link>, made: Seq<Seq<char>>, leaves: Seq<bool>, link: Link)
    requires
        leaves.len() == made.len(),
    ensures
        links.contains(link) ==> dir::with_all_made(links, made, leaves).contains(link),
        dir::with_all_made(links, made, leaves).contains(link) ==> links.contains(link) || exists|
            j: int,
        |
            0 <= j < made.len() && (link == dir::dir_link(#[trigger] made[j]) || (link
                == dir::hidden_link(made[j]) && leaves[j])),
    decreases made.len(),
{
    if made.len() > 0 {
        let n = made.len() - 1;
        let head = made.drop_last();
        let known = leaves.drop_last();
        made_come_from(links, head, known, link);
        let a = dir::with_all_made(links, head, known);
        let path = made.last();
        let more = a.push(dir::dir_link(path));
        let out = dir::with_all_made(links, made, leaves);
        if a.contains(link) {
            let k = choose|k: int| 0 <= k < a.len() && a[k] == link;
            assert(out[k] == link);
        }
        if out.contains(link) {
            let k = choose|k: int| 0 <= k < out.len() && out[k] == link;
            if k < a.len() {
                assert(a[k] == link);
                assert(a.contains(link));
                if !links.contains(link) {
                    let j = choose|j: int|
                        0 <= j < head.len() && (link == dir::dir_link(#[trigger] head[j]) || (link
                            == dir::hidden_link(head[j]) && known[j]));
                    assert(made[j] == head[j] && leaves[j] == known[j]);
                }
            } else {
                assert(made[n] == path && leaves[n] == leaves.last());
            }
        }
    }
}

/// What the store puts into a directory comes once.
proof fn stored_come_once(listed: Seq<Listed>, leaves: Seq<bool>)
    requires
        list::is_ascending(listed),
        leaves.len() == listed.len(),
    ensures
        dir::stored_links(listed, leaves).no_duplicates(),
        forall|k: int|
            0 <= k < dir::stored_links(listed, leaves).len() ==> exists|i: int|
                0 <= i < listed.len() && (#[trigger] listed[i]).name() == (
                #[trigger] dir::stored_links(listed, leaves)[k]).path,
    decreases listed.len(),
{
    if listed.len() > 0 {
        let n = listed.len() - 1;
        let head = listed.drop_last();
        let a = dir::stored_links(head, leaves.drop_last());
        let b = dir::links_of(listed.last(), leaves.last());
        assert forall|i: int, j: int| 0 <= i < j < head.len() implies text::text_before(
            (#[trigger] head[i]).name(),
            (#[trigger] head[j]).name(),
        ) by {
            assert(text::text_before(listed[i].name(), listed[j].name()));
        }
        stored_come_once(head, leaves.drop_last());
        let all = dir::stored_links(listed, leaves);
        assert(all == a + b);
        assert forall|k: int| 0 <= k < all.len() implies exists|i: int|
            0 <= i < listed.len() && (#[trigger] listed[i]).name() == (#[trigger] all[k]).path by {
            if k < a.len() {
                assert(all[k] == a[k]);
                let i = choose|i: int|
                    0 <= i < head.len() && (#[trigger] head[i]).name() == a[k].path;
                assert(listed[i] == head[i]);
            } else {
                assert(all[k] == b[k - a.len()]);
                assert(listed[n].name() == all[k].path);
            }
        }
        assert forall|i: int, j: int| 0 <= i < all.len() && 0 <= j < all.len() && i
            != j implies all[i] != all[j] by {
            let x = if i < j { i } else { j };
            let y = if i < j { j } else { i };
            if y < a.len() {
                assert(a[x] != a[y]);
            } else if x >= a.len() {
                assert(b[x - a.len()] != b[y - a.len()]);
            } else {
                assert(all[x] == a[x] && all[y] == b[y - a.len()]);
                let m = choose|m: int|
                    0 <= m < head.len() && (#[trigger] head[m]).name() == a[x].path;
                assert(text::text_before(listed[m].name(), listed[n].name()));
                text::before_irreflexive(text::codes(listed[n].name()));
            }
        }
    }
}

/// What `mkdir` made adds no entry twice.
proof fn made_come_once(links: Seq<Link>, made: Seq<Seq<char>>, leaves: Seq<bool>)
    requires
        links.no_duplicates(),
        leaves.len() == made.len(),
    ensures
        dir::with_all_made(links, made, leaves).no_duplicates(),
    decreases made.len(),
{
    if made.len() > 0 {
        made_come_once(links, made.drop_last(), leaves.drop_last());
        let a = dir::with_all_made(links, made.drop_last(), leaves.drop_last());
        let path = made.last();
        let more = a.push(dir::dir_link(path));
        if !dir::is_taken(a, dir::last_part(path)) {
            assert forall|i: int, j: int| 0 <= i < more.len() && 0 <= j < more.len() && i
                != j implies more[i] != more[j] by {
                let x = if i < j { i } else { j };
                assert(more[x] == a[x]);
                assert(a[x].name != dir::last_part(path));
            }
            let hidden = dir::hidden_link(path);
            if leaves.last() && !dir::is_taken(more, hidden.name) {
                let last = more.push(hidden);
                assert forall|i: int, j: int| 0 <= i < last.len() && 0 <= j < last.len() && i
                    != j implies last[i] != last[j] by {
                    let x = if i < j { i } else { j };
                    assert(last[x] == more[x]);
                    assert(more[x].name != hidden.name);
                }
            }
        }
    }
}

/// A directory has every entry once.
pub proof fn entries_come_once(
    f: Files,
    dirs: Seq<Seq<char>>,
    parent: Seq<char>,
    listed: Seq<Listed>,
)
    requires
        is_tree_listing(f, parent, listed),
    ensures
        ({
            let made = dir::made_in(dirs, parent);
            dir::directory(parent, listed, made, leaves_of(f, listed, made)).no_duplicates()
        }),
{
    let made = dir::made_in(dirs, parent);
    let leaves = leaves_of(f, listed, made);
    let n = listed.len() as int;
    let stored = dir::stored_links(listed, leaves.take(n));
    let rest = dir::with_all_made(stored, made, leaves.skip(n));
    let all = dir::directory(parent, listed, made, leaves);
    stored_come_once(listed, leaves.take(n));
    made_come_once(stored, made, leaves.skip(n));
    assert forall|k: int| 0 <= k < rest.len() implies dir::is_child(
        (#[trigger] rest[k]).path,
        parent,
    ) by {
        let link = rest[k];
        assert(rest.contains(link));
        made_come_from(stored, made, leaves.skip(n), link);
        if stored.contains(link) {
            let m = choose|m: int| 0 <= m < stored.len() && stored[m] == link;
            let i = choose|i: int|
                0 <= i < listed.len() && (#[trigger] listed[i]).name() == stored[m].path;
            assert(dir::is_child(listed[i].name(), parent));
        } else {
            let j = choose|j: int|
                0 <= j < made.len() && (link == dir::dir_link(#[trigger] made[j]) || (link
                    == dir::hidden_link(made[j]) && leaves.skip(n)[j]));
            assert(made.contains(made[j]));
            filter_member(dirs, |d: Seq<char>| dir::is_child(d, parent), made[j]);
        }
    }
    reveal_strlit(".");
    reveal_strlit("..");
    assert(all[0].name.len() == 1 && all[1].name.len() == 2);
    assert forall|i: int, j: int| 0 <= i < all.len() && 0 <= j < all.len() && i != j implies all[i]
        != all[j] by {
        let x = if i < j { i } else { j };
        let y = if i < j { j } else { i };
        if y >= 2 {
            assert(all[y] == rest[y - 2]);
            assert(dir::is_child(rest[y - 2].path, parent));
            if x >= 2 {
                assert(all[x] == rest[x - 2]);
            }
        }
    }
}

/// A reading of a directory, whatever is replied: every step but the last asks,
/// and is followed by what the reply to it gives.
pub open spec fn is_reading(
    s: FsView,
    steps: Seq<FsStep<ReadDir, Vec<DirSlot>>>,
    replies: Seq<TreeReply>,
) -> bool {
    &&& steps.len() == replies.len() + 1
    &&& forall|i: int| 0 <= i < replies.len() ==> #[trigger] reads_on(s, steps, replies, i)
}

/// Step `i` of a reading leads to the next.
pub open spec fn reads_on(
    s: FsView,
    steps: Seq<FsStep<ReadDir, Vec<DirSlot>>>,
    replies: Seq<TreeReply>,
    i: int,
) -> bool {
    steps[i] matches FsStep::Ask(_, task) && dir::readdir_resumes(
        task,
        s,
        replies[i],
        steps[i + 1],
    )
}

/// The slots of `part` are those of `all` from slot `k` on.
pub open spec fn goes_on_from(all: Seq<DirSlot>, part: Seq<DirSlot>, k: u64) -> bool {
    &&& part.len() == (if k <= all.len() {
        all.len() - k
    } else {
        0
    })
    &&& forall|i: int|
        0 <= i < part.len() ==> (#[trigger] part[i]).entry@ == all[k + i].entry@ && part[i].next
            == all[k + i].next
}

/// Two readings of a directory stand at the same place, one from its start and
/// one from slot `k` on.
pub open spec fn are_alike(
    a: FsStep<ReadDir, Vec<DirSlot>>,
    b: FsStep<ReadDir, Vec<DirSlot>>,
    k: u64,
) -> bool {
    match (a, b) {
        (
            FsStep::Ask(TreeRequest::Folder { path: x }, ReadDir::Listing { parent: p, offset: o }),
            FsStep::Ask(TreeRequest::Folder { path: y }, ReadDir::Listing { parent: q, offset: u }),
        ) => x@ == y@ && p@ == q@ && o == 0 && u == k,
        (
            FsStep::Ask(
                TreeRequest::Versions { path: x },
                ReadDir::Asking { parent: p, offset: o, entries: e, made: m, leaves: l },
            ),
            FsStep::Ask(
                TreeRequest::Versions { path: y },
                ReadDir::Asking { parent: q, offset: u, entries: f, made: n, leaves: h },
            ),
        ) => {
            &&& x@ == y@
            &&& p@ == q@
            &&& o == 0
            &&& u == k
            &&& list::listed_views(e@) == list::listed_views(f@)
            &&& index::texts(m@) == index::texts(n@)
            &&& l@ == h@
        },
        (FsStep::Done(Ok(all)), FsStep::Done(Ok(part))) => goes_on_from(all@, part@, k),
        (FsStep::Done(Err(d)), FsStep::Done(Err(e))) => d == e,
        _ => false,
    }
}

/// Two readings that ask on are alike.
proof fn asking_on_is_alike(
    a: FsStep<ReadDir, Vec<DirSlot>>,
    b: FsStep<ReadDir, Vec<DirSlot>>,
    k: u64,
    parent: Seq<char>,
    entries: Seq<Listed>,
    made: Seq<Seq<char>>,
    leaves: Seq<bool>,
)
    requires
        dir::asks_on(a, parent, 0, entries, made, leaves),
        dir::asks_on(b, parent, k, entries, made, leaves),
    ensures
        are_alike(a, b, k),
{
    if let FsStep::Done(Ok(all)) = a {
        if let FsStep::Done(Ok(part)) = b {
            let links = dir::directory(parent, entries, made, dir::answered(entries, leaves));
            assert forall|i: int| 0 <= i < part@.len() implies (#[trigger] part@[i]).entry@
                == all@[k + i].entry@ && part@[i].next == all@[k + i].next by {
                assert(all@[k + i].entry@ == links[0 + (k + i)]);
            }
        }
    }
}

/// Two readings of one directory with the same replies, from its start and from
/// an offset, end alike.
proof fn readings_are_alike(
    s: FsView,
    ino: u64,
    k: u64,
    whole: Seq<FsStep<ReadDir, Vec<DirSlot>>>,
    part: Seq<FsStep<ReadDir, Vec<DirSlot>>>,
    replies: Seq<TreeReply>,
    n: int,
)
    requires
        dir::readdir_starts(s, ino, 0, whole[0]),
        dir::readdir_starts(s, ino, k, part[0]),
        is_reading(s, whole, replies),
        is_reading(s, part, replies),
        0 <= n <= replies.len(),
    ensures
        are_alike(whole[n], part[n], k),
    decreases n,
{
    if n > 0 {
        readings_are_alike(s, ino, k, whole, part, replies, n - 1);
        assert(reads_on(s, whole, replies, n - 1));
        assert(reads_on(s, part, replies, n - 1));
        match (whole[n - 1], part[n - 1]) {
            (FsStep::Ask(_, ReadDir::Listing { parent, .. }), _) => {
                if let TreeReply::Folder(Ok(entries)) = replies[n - 1] {
                    asking_on_is_alike(
                        whole[n],
                        part[n],
                        k,
                        parent@,
                        list::listed_views(entries@),
                        dir::made_in(s.dirs, parent@),
                        Seq::empty(),
                    );
                }
            },
            (
                FsStep::Ask(_, ReadDir::Asking { parent, entries, made, leaves, .. }),
                FsStep::Ask(_, ReadDir::Asking { entries: e, made: m, .. }),
            ) => {
                assert(entries@.len() == list::listed_views(entries@).len());
                assert(e@.len() == list::listed_views(e@).len());
                assert(made@.len() == index::texts(made@).len());
                assert(m@.len() == index::texts(m@).len());
                if let TreeReply::Versions(r) = replies[n - 1] {
                    if leaves@.len() < entries@.len() + made@.len() {
                        asking_on_is_alike(
                            whole[n],
                            part[n],
                            k,
                            parent@,
                            list::listed_views(entries@),
                            index::texts(made@),
                            leaves@.push(state::leaf_in(r)),
                        );
                    }
                }
            },
            _ => {},
        }
    }
}

/// Reading a directory from an offset on gives what reading it from its start gives
/// from there on, where the replies are the same: going on at the offset after an
/// entry leaves out none and repeats none. Where the one is refused, so is the
/// other.
pub proof fn readdir_goes_on_at_offset(
    s: FsView,
    ino: u64,
    k: u64,
    whole: Seq<FsStep<ReadDir, Vec<DirSlot>>>,
    part: Seq<FsStep<ReadDir, Vec<DirSlot>>>,
    replies: Seq<TreeReply>,
)
    requires
        dir::readdir_starts(s, ino, 0, whole[0]),
        dir::readdir_starts(s, ino, k, part[0]),
        is_reading(s, whole, replies),
        is_reading(s, part, replies),
    ensures
        match whole.last() {
            FsStep::Ask(..) => part.last() is Ask,
            FsStep::Done(Ok(all)) => part.last() matches FsStep::Done(Ok(some)) && goes_on_from(
                all@,
                some@,
                k,
            ),
            FsStep::Done(Err(e)) => part.last() == FsStep::<ReadDir, Vec<DirSlot>>::Done(Err(e)),
        },
{
    readings_are_alike(s, ino, k, whole, part, replies, replies.len() as int);
}

/// The name of a direct child, put to its directory, is its path.
proof fn child_is_joined(p: Seq<char>, parent: Seq<char>)
    requires
        dir::is_child(p, parent),
    ensures
        state::joined(parent, dir::last_part(p)) == p,
{
    if parent.len() == 0 {
        assert forall|j: int| 0 <= j < p.len() implies p[j] != '/' by {
            assert(p.contains(p[j]));
        }
        dir::last_part_from(p, 0);
        assert(p.take(0) =~= Seq::<char>::empty());
        assert(dir::last_part(p) =~= p);
    } else {
        let prefix = parent.push('/');
        let n = prefix.len() as int;
        let rest = p.skip(n);
        assert forall|j: int| n <= j < p.len() implies p[j] != '/' by {
            assert(rest[j - n] == p[j]);
            assert(rest.contains(rest[j - n]));
        }
        dir::last_part_from(p, n);
        assert(p.take(n) == prefix);
        assert(prefix.last() == '/');
        assert(dir::last_part(p) =~= rest);
        assert(p =~= prefix + rest);
    }
}

/// A name that a directory lists stands for the path that it is listed for, as
/// the kind that it is listed as. Left out are a path that the store refuses, a
/// file whose path `mkdir` made a directory too, and the entry of a hidden file
/// whose listed name is itself something or whose own name begins with an
/// underscore.
pub proof fn listed_name_is_found(
    f: Files,
    dirs: Seq<Seq<char>>,
    parent: Seq<char>,
    listed: Seq<Listed>,
    link: Link,
    i: int,
)
    requires
        is_tree_listing(f, parent, listed),
        ({
            let made = dir::made_in(dirs, parent);
            let all = dir::directory(parent, listed, made, leaves_of(f, listed, made));
            2 <= i < all.len() && link == all[i]
        }),
        path::is_valid(link.path),
        link.name == dir::last_part(link.path) && link.kind == FileKind::RegularFile
            ==> !dirs.contains(link.path),
        link.name != dir::last_part(link.path) ==> kind_at(
            f,
            dirs,
            state::joined(parent, link.name),
        ) is None && !state::is_alias(dir::last_part(link.path)),
    ensures
        found(f, dirs, parent, link.name) == Some((link.path, link.kind)),
{
    let made = dir::made_in(dirs, parent);
    let leaves = leaves_of(f, listed, made);
    let n = listed.len() as int;
    let stored = dir::stored_links(listed, leaves.take(n));
    let rest = dir::with_all_made(stored, made, leaves.skip(n));
    assert(link == rest[i - 2]);
    assert(rest.contains(link));
    made_come_from(stored, made, leaves.skip(n), link);
    stored_come_from(f, listed, leaves.take(n));
    let path = link.path;
    if stored.contains(link) {
        let k = choose|k: int|
            0 <= k < n && #[trigger] dir::links_of(listed[k], leaves.take(n)[k]).contains(link);
        assert(leaves.take(n)[k] == leaves[k]);
        assert(dir::is_child(listed[k].name(), parent));
        child_is_joined(listed[k].name(), parent);
        let from = dir::links_of(listed[k], leaves[k]);
        let m = choose|m: int| 0 <= m < from.len() && from[m] == link;
        if link.name == seq!['_'] + dir::last_part(path) && link.name != dir::last_part(path) {
            hidden_is_found(f, dirs, parent, path);
        }
    } else {
        let j = choose|j: int|
            0 <= j < made.len() && (link == dir::dir_link(#[trigger] made[j]) || (link
                == dir::hidden_link(made[j]) && leaves.skip(n)[j]));
        let test = |d: Seq<char>| dir::is_child(d, parent);
        assert(made.contains(made[j]));
        filter_member(dirs, test, made[j]);
        child_is_joined(made[j], parent);
        assert(leaves.skip(n)[j] == leaves[n + j]);
        if link == dir::hidden_link(made[j]) && link != dir::dir_link(made[j]) {
            hidden_is_found(f, dirs, parent, path);
        }
    }
}

/// What a filter keeps is there and passes the test.
pub proof fn filter_member(list: Seq<Seq<char>>, test: spec_fn(Seq<char>) -> bool, x: Seq<char>)
    requires
        list.filter(test).contains(x),
    ensures
        list.contains(x),
        test(x),
    decreases list.len(),
{
    reveal(Seq::filter);
    let out = list.filter(test);
    let i = choose|i: int| 0 <= i < out.len() && out[i] == x;
    let head = list.drop_last();
    if i < head.filter(test).len() {
        assert(head.filter(test)[i] == x);
        filter_member(head, test, x);
        let j = choose|j: int| 0 <= j < head.len() && head[j] == x;
        assert(list[j] == x);
    } else {
        assert(list[list.len() - 1] == x);
    }
}

/// The name of a hidden file stands for it.
proof fn hidden_is_found(f: Files, dirs: Seq<Seq<char>>, parent: Seq<char>, p: Seq<char>)
    requires
        dir::is_child(p, parent),
        is_leaf(f, p),
        is_folder(f, dirs, p),
        kind_at(f, dirs, state::joined(parent, dir::hidden_link(p).name)) is None,
    ensures
        !state::is_alias(dir::last_part(p)) ==> found(
            f,
            dirs,
            parent,
            dir::hidden_link(p).name,
        ) == Some((p, FileKind::RegularFile)),
{
    child_is_joined(p, parent);
    let name = dir::last_part(p);
    if !state::is_alias(name) {
        conflict_law(f, dirs, parent, name);
    }
}

/// Every file directly in a directory is listed as a file.
pub proof fn every_file_is_listed(
    f: Files,
    dirs: Seq<Seq<char>>,
    parent: Seq<char>,
    listed: Seq<Listed>,
    p: Seq<char>,
)
    requires
        is_tree_listing(f, parent, listed),
        is_leaf(f, p),
        dir::is_child(p, parent),
    ensures
        ({
            let made = dir::made_in(dirs, parent);
            let all = dir::directory(parent, listed, made, leaves_of(f, listed, made));
            exists|i: int|
                0 <= i < all.len() && (#[trigger] all[i]).path == p && all[i].kind
                    == FileKind::RegularFile
        }),
{
    let made = dir::made_in(dirs, parent);
    let leaves = leaves_of(f, listed, made);
    let n = listed.len() as int;
    let prefix = list::folder_prefix(parent);
    assert(text::has_prefix(p, prefix)) by {
        if parent.len() == 0 {
            assert(p.take(0) =~= prefix);
        }
    }
    assert(f.contents.contains_key(p));
    let k = choose|k: int|
        0 <= k < listed.len() && ((#[trigger] listed[k]).name() == p || text::has_prefix(
            p,
            listed[k].name().push('/'),
        ));
    let name = listed[k].name();
    assert(dir::is_child(name, parent));
    assert(name == p) by {
        if name != p {
            let longer = name.push('/');
            let m = name.len() as int;
            assert(p.take(longer.len() as int)[m] == '/');
            assert(p[m] == '/');
            if parent.len() == 0 {
                assert(p.contains(p[m]));
            } else {
                let at = parent.push('/').len() as int;
                assert(p.skip(at)[m - at] == '/');
                assert(p.skip(at).contains(p.skip(at)[m - at]));
            }
        }
    }
    let link = match listed[k] {
        Listed::CommonPrefix(_) => dir::hidden_link(p),
        Listed::Path(_) => Link { name: dir::last_part(p), path: p, kind: FileKind::RegularFile },
    };
    let from = dir::links_of(listed[k], leaves[k]);
    assert(from.contains(link)) by {
        match listed[k] {
            Listed::CommonPrefix(_) => {
                assert(from[1] == link);
            },
            Listed::Path(_) => {
                assert(from[0] == link);
            },
        }
    }
    let stored = dir::stored_links(listed, leaves.take(n));
    stored_come_from(f, listed, leaves.take(n));
    assert(leaves.take(n)[k] == leaves[k]);
    assert(stored.contains(link));
    made_come_from(stored, made, leaves.skip(n), link);
    let rest = dir::with_all_made(stored, made, leaves.skip(n));
    let j = choose|j: int| 0 <= j < rest.len() && rest[j] == link;
    let all = dir::directory(parent, listed, made, leaves);
    assert(all[j + 2] == rest[j]);
}

} // verus!
