//! Reading directories.

use vstd::prelude::*;
use vstd::string::*;

use crate::index;
use crate::list;
use crate::list::{CommonPrefixEntry, Listed};
use crate::mounted::state;
use crate::mounted::state::{has_leaf, Errno, FsState, FsStep, FsView, TreeReply, TreeRequest};
use crate::node::FileKind;
use crate::pathset::PathSet;
use crate::text;
use crate::text::{begins_with, chars_of, holds, same_text, slice_of, text_of};

verus! {

// ---------------------------------------------------------------------------
// Paths in directories
// ---------------------------------------------------------------------------

/// The path lies directly in the directory: it is the directory's path, a slash
/// and a name. In the root directory it is a name.
pub open spec fn is_child(candidate: Seq<char>, parent: Seq<char>) -> bool {
    if parent.len() == 0 {
        candidate.len() > 0 && !candidate.contains('/')
    } else {
        let prefix = parent.push('/');
        &&& text::has_prefix(candidate, prefix)
        &&& candidate.len() > prefix.len()
        &&& !candidate.skip(prefix.len() as int).contains('/')
    }
}

/// Whether a path lies directly in a directory.
pub fn is_direct_child(candidate: &str, parent: &str) -> (r: bool)
    ensures
        r == is_child(candidate@, parent@),
{
    let chars = chars_of(candidate);
    let mut prefix = chars_of(parent);
    if prefix.len() == 0 {
        return chars.len() > 0 && !holds(&chars, '/');
    }
    prefix.push('/');
    if !begins_with(&chars, &prefix) || chars.len() == prefix.len() {
        return false;
    }
    let rest = slice_of(&chars, prefix.len(), chars.len());
    proof {
        assert(rest@ =~= candidate@.skip(prefix@.len() as int));
    }
    !holds(&rest, '/')
}

/// What follows the last slash of a path, or all of it.
pub open spec fn last_part(path: Seq<char>) -> Seq<char>
    decreases path.len(),
{
    if path.len() == 0 || path.last() == '/' {
        Seq::empty()
    } else {
        last_part(path.drop_last()).push(path.last())
    }
}

/// The last part ends with what holds no slash.
pub proof fn last_part_from(path: Seq<char>, i: int)
    requires
        0 <= i <= path.len(),
        forall|j: int| i <= j < path.len() ==> path[j] != '/',
    ensures
        last_part(path) == last_part(path.take(i)) + path.skip(i),
    decreases path.len() - i,
{
    if i == path.len() {
        assert(path.take(i) =~= path);
        assert(last_part(path) + path.skip(i) =~= last_part(path));
    } else {
        let head = path.drop_last();
        last_part_from(head, i);
        assert(head.take(i) =~= path.take(i));
        assert(path.skip(i) =~= head.skip(i).push(path.last()));
        assert(last_part(path) =~= last_part(path.take(i)) + path.skip(i));
    }
}

/// The name of a path in its directory.
pub fn name_in(path: &str) -> (r: String)
    ensures
        r@ == last_part(path@),
{
    let chars = chars_of(path);
    let mut i: usize = chars.len();
    while i > 0 && chars[i - 1] != '/'
        invariant
            i <= chars@.len(),
            forall|j: int| i <= j < chars@.len() ==> chars@[j] != '/',
        decreases i,
    {
        i -= 1;
    }
    let s = text_of(&slice_of(&chars, i, chars.len()));
    proof {
        last_part_from(path@, i as int);
        assert(s@ =~= path@.skip(i as int));
        assert(last_part(path@.take(i as int)) =~= Seq::<char>::empty());
        assert(last_part(path@) =~= s@);
    }
    s
}

// ---------------------------------------------------------------------------
// The listing
// ---------------------------------------------------------------------------

/// An entry of a directory.
#[derive(Debug)]
pub struct DirEntry {
    pub name: String,
    pub path: String,
    pub kind: FileKind,
}

/// An entry of a directory, over mathematical values.
pub struct Link {
    pub name: Seq<char>,
    pub path: Seq<char>,
    pub kind: FileKind,
}

impl View for DirEntry {
    type V = Link;

    open spec fn view(&self) -> Link {
        Link { name: self.name@, path: self.path@, kind: self.kind }
    }
}

/// The views of a list of entries.
pub open spec fn link_views(entries: Seq<DirEntry>) -> Seq<Link> {
    entries.map_values(|e: DirEntry| e@)
}

/// The directory entry of a path.
pub open spec fn dir_link(path: Seq<char>) -> Link {
    Link { name: last_part(path), path, kind: FileKind::Directory }
}

/// The entry of a file that its own directory hides: an underscore in front of
/// its name.
pub open spec fn hidden_link(path: Seq<char>) -> Link {
    Link { name: seq!['_'] + last_part(path), path, kind: FileKind::RegularFile }
}

/// The entries that a listed path gives: a directory, with the file that it
/// hides where it has a version, or a file.
pub open spec fn links_of(entry: Listed, leaf: bool) -> Seq<Link> {
    match entry {
        Listed::CommonPrefix(path) => if leaf {
            seq![dir_link(path), hidden_link(path)]
        } else {
            seq![dir_link(path)]
        },
        Listed::Path(row) => seq![
            Link { name: last_part(row.path), path: row.path, kind: FileKind::RegularFile },
        ],
    }
}

/// The entries that a folder listing gives; `leaves` says which of the paths
/// have a version.
pub open spec fn stored_links(entries: Seq<Listed>, leaves: Seq<bool>) -> Seq<Link>
    decreases entries.len(),
{
    if entries.len() == 0 {
        Seq::empty()
    } else {
        stored_links(entries.drop_last(), leaves.drop_last()) + links_of(
            entries.last(),
            leaves.last(),
        )
    }
}

/// Some entry has the name.
pub open spec fn is_taken(links: Seq<Link>, name: Seq<char>) -> bool {
    exists|i: int| 0 <= i < links.len() && (#[trigger] links[i]).name == name
}

/// The entries with a directory made by `mkdir`, and the file that it hides,
/// where their names are not taken.
pub open spec fn with_made(links: Seq<Link>, path: Seq<char>, leaf: bool) -> Seq<Link> {
    if is_taken(links, last_part(path)) {
        links
    } else {
        let more = links.push(dir_link(path));
        if leaf && !is_taken(more, hidden_link(path).name) {
            more.push(hidden_link(path))
        } else {
            more
        }
    }
}

/// The entries with all directories made by `mkdir`, one after another.
pub open spec fn with_all_made(
    links: Seq<Link>,
    made: Seq<Seq<char>>,
    leaves: Seq<bool>,
) -> Seq<Link>
    decreases made.len(),
{
    if made.len() == 0 {
        links
    } else {
        with_made(
            with_all_made(links, made.drop_last(), leaves.drop_last()),
            made.last(),
            leaves.last(),
        )
    }
}

/// All entries of a directory: itself, the one above, what the store holds, and
/// what `mkdir` made. `leaves` says of each listed path, and then of each made
/// directory, whether it has a version.
pub open spec fn directory(
    parent: Seq<char>,
    entries: Seq<Listed>,
    made: Seq<Seq<char>>,
    leaves: Seq<bool>,
) -> Seq<Link> {
    let dots = seq![
        Link { name: "."@, path: parent, kind: FileKind::Directory },
        Link { name: ".."@, path: Seq::empty(), kind: FileKind::Directory },
    ];
    let n = entries.len() as int;
    dots + with_all_made(stored_links(entries, leaves.take(n)), made, leaves.skip(n))
}

/// Whether some entry has the name.
fn taken(entries: &Vec<DirEntry>, name: &str) -> (r: bool)
    ensures
        r == is_taken(link_views(entries@), name@),
{
    let ghost links = link_views(entries@);
    let mut i: usize = 0;
    while i < entries.len()
        invariant
            i <= entries@.len(),
            links == link_views(entries@),
            forall|j: int| 0 <= j < i ==> (#[trigger] links[j]).name != name@,
        decreases entries@.len() - i,
    {
        proof {
            assert(links[i as int] == entries@[i as int]@);
        }
        if same_text(entries[i].name.as_str(), name) {
            return true;
        }
        i += 1;
    }
    false
}

/// The name of a hidden file.
fn hidden_name(name: &str) -> (r: String)
    ensures
        r@ == seq!['_'] + name@,
{
    let mut r = String::new();
    r.push('_');
    r.append(name);
    proof {
        assert(r@ =~= seq!['_'] + name@);
    }
    r
}

/// Adds an entry.
fn push_entry(entries: &mut Vec<DirEntry>, name: String, path: &str, kind: FileKind)
    ensures
        link_views(final(entries)@) == link_views(old(entries)@).push(
            Link { name: name@, path: path@, kind },
        ),
{
    entries.push(DirEntry { name, path: path.to_owned(), kind });
    proof {
        assert(link_views(entries@) =~= link_views(old(entries)@).push(
            Link { name: name@, path: path@, kind },
        ));
    }
}

/// Builds the entries of a directory.
pub fn build_directory(
    parent: &str,
    entries: &Vec<CommonPrefixEntry>,
    made: &Vec<String>,
    leaves: &Vec<bool>,
) -> (r: Vec<DirEntry>)
    requires
        leaves@.len() == entries@.len() + made@.len(),
    ensures
        link_views(r@) == directory(
            parent@,
            list::listed_views(entries@),
            index::texts(made@),
            leaves@,
        ),
{
    let ghost listed = list::listed_views(entries@);
    let ghost paths = index::texts(made@);
    let ghost n = entries@.len() as int;
    let mut links: Vec<DirEntry> = Vec::new();
    let mut i: usize = 0;
    proof {
        assert(listed.take(0) =~= Seq::<Listed>::empty());
        assert(link_views(links@) =~= Seq::<Link>::empty());
    }
    while i < entries.len()
        invariant
            i <= entries@.len(),
            n == entries@.len(),
            listed == list::listed_views(entries@),
            leaves@.len() == entries@.len() + made@.len(),
            link_views(links@) == stored_links(listed.take(i as int), leaves@.take(i as int)),
        decreases entries@.len() - i,
    {
        let ghost before = link_views(links@);
        proof {
            let k = i as int;
            assert(listed[k] == entries@[k]@);
            assert(listed.take(k + 1).drop_last() =~= listed.take(k));
            assert(leaves@.take(k + 1).drop_last() =~= leaves@.take(k));
            assert(listed.take(k + 1).last() == listed[k]);
            assert(leaves@.take(k + 1).last() == leaves@[k]);
        }
        match &entries[i] {
            CommonPrefixEntry::CommonPrefix { path } => {
                let name = name_in(path.as_str());
                let hidden = hidden_name(name.as_str());
                push_entry(&mut links, name, path.as_str(), FileKind::Directory);
                if leaves[i] {
                    push_entry(&mut links, hidden, path.as_str(), FileKind::RegularFile);
                }
                proof {
                    assert(link_views(links@) =~= before + links_of(
                        listed[i as int],
                        leaves@[i as int],
                    ));
                }
            },
            CommonPrefixEntry::Path(entry) => {
                let name = name_in(entry.path.as_str());
                push_entry(&mut links, name, entry.path.as_str(), FileKind::RegularFile);
                proof {
                    assert(link_views(links@) =~= before + links_of(
                        listed[i as int],
                        leaves@[i as int],
                    ));
                }
            },
        }
        i += 1;
    }
    proof {
        assert(listed.take(n) =~= listed);
        assert(paths.take(0) =~= Seq::<Seq<char>>::empty());
    }
    let ghost base = link_views(links@);
    let ghost rest = leaves@.skip(n);
    let total: usize = leaves.len();
    let mut j: usize = 0;
    while j < made.len()
        invariant
            j <= made@.len(),
            total == leaves@.len(),
            n == entries@.len(),
            paths == index::texts(made@),
            leaves@.len() == entries@.len() + made@.len(),
            rest == leaves@.skip(n),
            link_views(links@) == with_all_made(base, paths.take(j as int), rest.take(j as int)),
        decreases made@.len() - j,
    {
        proof {
            let k = j as int;
            assert(paths[k] == made@[k]@);
            assert(paths.take(k + 1).drop_last() =~= paths.take(k));
            assert(rest.take(k + 1).drop_last() =~= rest.take(k));
            assert(paths.take(k + 1).last() == paths[k]);
            assert(rest.take(k + 1).last() == leaves@[n + k]);
        }
        let path = made[j].as_str();
        let name = name_in(path);
        if !taken(&links, name.as_str()) {
            let hidden = hidden_name(name.as_str());
            push_entry(&mut links, name, path, FileKind::Directory);
            if leaves[entries.len() + j] && !taken(&links, hidden.as_str()) {
                push_entry(&mut links, hidden, path, FileKind::RegularFile);
            }
        }
        j += 1;
    }
    proof {
        assert(paths.take(paths.len() as int) =~= paths);
        assert(rest.take(paths.len() as int) =~= rest);
    }
    let ghost all = link_views(links@);
    let mut r: Vec<DirEntry> = Vec::new();
    push_entry(&mut r, ".".to_owned(), parent, FileKind::Directory);
    let root = String::new();
    push_entry(&mut r, "..".to_owned(), root.as_str(), FileKind::Directory);
    let ghost dots = link_views(r@);
    let ghost tail = links@;
    let ghost head = r@;
    r.append(&mut links);
    proof {
        assert(root@ =~= Seq::<char>::empty());
        assert(dots =~= seq![
            Link { name: "."@, path: parent@, kind: FileKind::Directory },
            Link { name: ".."@, path: Seq::empty(), kind: FileKind::Directory },
        ]);
        assert(r@ == head + tail);
        assert(link_views(r@) =~= dots + all);
    }
    r
}

// ---------------------------------------------------------------------------
// The conversation
// ---------------------------------------------------------------------------

/// An entry with the offset at which the listing goes on after it.
#[derive(Debug)]
pub struct DirSlot {
    pub entry: DirEntry,
    pub next: u64,
}

/// `slots` are the entries from `offset` on, each with the offset after it.
pub open spec fn are_slots(slots: Seq<DirSlot>, links: Seq<Link>, offset: u64) -> bool {
    &&& slots.len() == (if offset <= links.len() {
        links.len() - offset
    } else {
        0
    })
    &&& forall|i: int|
        0 <= i < slots.len() ==> (#[trigger] slots[i]).entry@ == links[offset + i] && slots[i].next
            == offset + i + 1
}

/// Reading a directory.
#[derive(Debug)]
pub enum ReadDir {
    /// What the store holds is being listed.
    Listing { parent: String, offset: u64 },
    /// It is being asked which of the paths have a version; `leaves` are the
    /// answers so far.
    Asking {
        parent: String,
        offset: u64,
        entries: Vec<CommonPrefixEntry>,
        made: Vec<String>,
        leaves: Vec<bool>,
    },
}

/// The answers with those that need no question: a listed path that is a file
/// hides nothing.
pub open spec fn answered(entries: Seq<Listed>, leaves: Seq<bool>) -> Seq<bool>
    decreases entries.len() - leaves.len(),
{
    if leaves.len() < entries.len() && entries[leaves.len() as int] is Path {
        answered(entries, leaves.push(false))
    } else {
        leaves
    }
}

/// The path that the next question is about, if one is left.
pub open spec fn question(
    entries: Seq<Listed>,
    made: Seq<Seq<char>>,
    n: int,
) -> Option<Seq<char>> {
    if n < entries.len() {
        Some(entries[n].name())
    } else if n < entries.len() + made.len() {
        Some(made[n - entries.len()])
    } else {
        None
    }
}

/// The step that asks the next question, or gives the entries.
pub open spec fn asks_on(
    step: FsStep<ReadDir, Vec<DirSlot>>,
    parent: Seq<char>,
    offset: u64,
    entries: Seq<Listed>,
    made: Seq<Seq<char>>,
    leaves: Seq<bool>,
) -> bool {
    let known = answered(entries, leaves);
    match question(entries, made, known.len() as int) {
        Some(path) => {
            &&& step matches FsStep::Ask(
                TreeRequest::Versions { path: p },
                ReadDir::Asking { parent: q, offset: o, entries: e, made: m, leaves: l },
            )
            &&& p@ == path
            &&& q@ == parent
            &&& o == offset
            &&& list::listed_views(e@) == entries
            &&& index::texts(m@) == made
            &&& l@ == known
        },
        None => step matches FsStep::Done(Ok(slots)) && are_slots(
            slots@,
            directory(parent, entries, made, known),
            offset,
        ),
    }
}

/// The directories made by `mkdir` that lie directly in the directory.
pub open spec fn made_in(dirs: Seq<Seq<char>>, parent: Seq<char>) -> Seq<Seq<char>> {
    dirs.filter(|d: Seq<char>| is_child(d, parent))
}

/// The first step of reading a directory.
pub open spec fn readdir_starts(
    s: FsView,
    ino: u64,
    offset: u64,
    step: FsStep<ReadDir, Vec<DirSlot>>,
) -> bool {
    match state::directory_path(s, ino) {
        None => state::fails(step, Errno::NoEntry),
        Some(path) => {
            &&& step matches FsStep::Ask(
                TreeRequest::Folder { path: p },
                ReadDir::Listing { parent, offset: o },
            )
            &&& p@ == path
            &&& parent@ == path
            &&& o == offset
        },
    }
}

/// The step of reading a directory after a reply.
pub open spec fn readdir_resumes(
    task: ReadDir,
    s: FsView,
    reply: TreeReply,
    next: FsStep<ReadDir, Vec<DirSlot>>,
) -> bool {
    match (task, reply) {
        (ReadDir::Listing { parent, offset }, TreeReply::Folder(Ok(entries))) => asks_on(
            next,
            parent@,
            offset,
            list::listed_views(entries@),
            made_in(s.dirs, parent@),
            Seq::empty(),
        ),
        (
            ReadDir::Asking { parent, offset, entries, made, leaves },
            TreeReply::Versions(r),
        ) => if leaves@.len() < entries@.len() + made@.len() {
            asks_on(
                next,
                parent@,
                offset,
                list::listed_views(entries@),
                index::texts(made@),
                leaves@.push(state::leaf_in(r)),
            )
        } else {
            state::fails(next, Errno::Io)
        },
        _ => state::fails(next, Errno::Io),
    }
}

/// The entries from an offset on, each with the offset after it.
fn slots_from(entries: &Vec<DirEntry>, offset: u64) -> (r: Vec<DirSlot>)
    ensures
        are_slots(r@, link_views(entries@), offset),
{
    let ghost links = link_views(entries@);
    let mut r: Vec<DirSlot> = Vec::new();
    if offset >= entries.len() as u64 {
        return r;
    }
    let start: usize = offset as usize;
    let mut i: usize = start;
    while i < entries.len()
        invariant
            start == offset,
            start <= i <= entries@.len(),
            links == link_views(entries@),
            r@.len() == i - start,
            forall|k: int|
                0 <= k < r@.len() ==> (#[trigger] r@[k]).entry@ == links[offset + k] && r@[k].next
                    == offset + k + 1,
        decreases entries@.len() - i,
    {
        let e = &entries[i];
        let entry = DirEntry { name: e.name.clone(), path: e.path.clone(), kind: e.kind };
        r.push(DirSlot { entry, next: i as u64 + 1 });
        i += 1;
    }
    r
}

/// The directories made by `mkdir` that lie directly in the directory.
fn made_below(dirs: &PathSet, parent: &str) -> (r: Vec<String>)
    ensures
        index::texts(r@) == made_in(dirs@, parent@),
{
    let ghost test = |d: Seq<char>| is_child(d, parent@);
    let mut r: Vec<String> = Vec::new();
    let mut i: usize = 0;
    let n: usize = dirs.len();
    proof {
        reveal(Seq::filter);
        assert(dirs@.take(0) =~= Seq::<Seq<char>>::empty());
        assert(index::texts(r@) =~= Seq::<Seq<char>>::empty());
    }
    while i < n
        invariant
            i <= n,
            n == dirs@.len(),
            test == (|d: Seq<char>| is_child(d, parent@)),
            index::texts(r@) == dirs@.take(i as int).filter(test),
        decreases n - i,
    {
        let path = dirs.at(i);
        proof {
            reveal(Seq::filter);
            assert(dirs@.take(i as int + 1).drop_last() =~= dirs@.take(i as int));
            assert(dirs@.take(i as int + 1).last() == path@);
        }
        if is_direct_child(path.as_str(), parent) {
            let ghost before = r@;
            r.push(path.clone());
            proof {
                assert(index::texts(r@) =~= index::texts(before).push(path@));
            }
        }
        i += 1;
    }
    proof {
        assert(dirs@.take(n as int) =~= dirs@);
    }
    r
}

/// Asks the next question, or gives the entries.
fn ask_on(
    parent: String,
    offset: u64,
    entries: Vec<CommonPrefixEntry>,
    made: Vec<String>,
    leaves: Vec<bool>,
) -> (r: FsStep<ReadDir, Vec<DirSlot>>)
    requires
        leaves@.len() <= entries@.len() + made@.len(),
    ensures
        asks_on(
            r,
            parent@,
            offset,
            list::listed_views(entries@),
            index::texts(made@),
            leaves@,
        ),
{
    let ghost listed = list::listed_views(entries@);
    let ghost first = leaves@;
    let mut leaves = leaves;
    let mut asked: Option<String> = None;
    while leaves.len() < entries.len() && asked.is_none()
        invariant
            listed == list::listed_views(entries@),
            leaves@.len() <= entries@.len() + made@.len(),
            answered(listed, leaves@) == answered(listed, first),
            asked matches Some(p) ==> leaves@.len() < entries@.len() && listed[leaves@.len() as int]
                is CommonPrefix && p@ == listed[leaves@.len() as int].name(),
        decreases entries@.len() - leaves@.len() + (if asked is None { 1int } else { 0int }),
    {
        proof {
            assert(listed[leaves@.len() as int] == entries@[leaves@.len() as int]@);
        }
        match &entries[leaves.len()] {
            CommonPrefixEntry::CommonPrefix { path } => {
                asked = Some(path.clone());
            },
            CommonPrefixEntry::Path(_) => {
                leaves.push(false);
            },
        }
    }
    match asked {
        Some(path) => FsStep::Ask(
            TreeRequest::Versions { path },
            ReadDir::Asking { parent, offset, entries, made, leaves },
        ),
        None => {
            let k: usize = leaves.len();
            if k - entries.len() < made.len() {
                let path = made[k - entries.len()].clone();
                FsStep::Ask(
                    TreeRequest::Versions { path },
                    ReadDir::Asking { parent, offset, entries, made, leaves },
                )
            } else {
                let links = build_directory(parent.as_str(), &entries, &made, &leaves);
                FsStep::Done(Ok(slots_from(&links, offset)))
            }
        },
    }
}

impl ReadDir {
    /// Starts to read a directory from an offset on.
    pub fn start(state: &FsState, ino: u64, offset: u64) -> (r: FsStep<ReadDir, Vec<DirSlot>>)
        ensures
            readdir_starts(state@, ino, offset, r),
    {
        match state.parent_path(ino) {
            None => FsStep::Done(Err(Errno::NoEntry)),
            Some(path) => FsStep::Ask(
                TreeRequest::Folder { path: path.clone() },
                ReadDir::Listing { parent: path, offset },
            ),
        }
    }

    /// Goes on with the reply.
    pub fn resume(self, state: &FsState, reply: TreeReply) -> (r: FsStep<ReadDir, Vec<DirSlot>>)
        ensures
            readdir_resumes(self, state@, reply, r),
    {
        match (self, reply) {
            (ReadDir::Listing { parent, offset }, TreeReply::Folder(Ok(entries))) => {
                let made = made_below(&state.ephemeral_dirs, parent.as_str());
                ask_on(parent, offset, entries, made, Vec::new())
            },
            (
                ReadDir::Asking { parent, offset, entries, made, leaves },
                TreeReply::Versions(r),
            ) => {
                let mut leaves = leaves;
                if leaves.len() >= entries.len() && leaves.len() - entries.len() >= made.len() {
                    return FsStep::Done(Err(Errno::Io));
                }
                leaves.push(has_leaf(&r));
                ask_on(parent, offset, entries, made, leaves)
            },
            _ => FsStep::Done(Err(Errno::Io)),
        }
    }
}

} // verus!
