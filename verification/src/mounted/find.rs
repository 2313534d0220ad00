//! Finding inodes: looking names up, attributes, and making and removing
//! directories.

use vstd::prelude::*;
use vstd::string::*;

use crate::mounted::state;
use crate::mounted::state::{
    file_attr_for_path, has_children, has_leaf, look_up_name, Errno, FsState, FsStep, FsView,
    TreeReply, TreeRequest,
};
use crate::node;
use crate::node::{dir_attr, FileAttr, FileKind};
use crate::pathset;
use crate::pathset::PathSet;

verus! {

broadcast use vstd::std_specs::hash::group_hash_axioms;

// ---------------------------------------------------------------------------
// Resolving a name
// ---------------------------------------------------------------------------

/// What a path is in the mounted tree: a directory where it has children, else a
/// file where it has a version, and else nothing. Under an alias it is the file
/// that its own directory hides.
pub open spec fn resolved(alias: bool, leaf: bool, children: bool) -> Option<FileKind> {
    if alias {
        if leaf && children {
            Some(FileKind::RegularFile)
        } else {
            None
        }
    } else if children {
        Some(FileKind::Directory)
    } else if leaf {
        Some(FileKind::RegularFile)
    } else {
        None
    }
}

/// What a path is in the mounted tree.
pub fn resolve(alias: bool, leaf: bool, children: bool) -> (r: Option<FileKind>)
    ensures
        r == resolved(alias, leaf, children),
{
    if !leaf && !children {
        return None;
    }
    if alias {
        if leaf && children {
            return Some(FileKind::RegularFile);
        }
        return None;
    }
    if children {
        Some(FileKind::Directory)
    } else {
        Some(FileKind::RegularFile)
    }
}

/// A path that is being looked for, and what to look for after it: the path that
/// the name is an alias of.
#[derive(Debug)]
pub struct Search {
    pub path: String,
    pub alias: bool,
    pub after: Option<String>,
}

/// Resolving a name in a directory.
#[derive(Debug)]
pub enum ResolveChild {
    /// The versions of the path are being asked for.
    Leaf { search: Search },
    /// What is below the path is being asked for.
    Children { search: Search, leaf: bool },
}

/// The step that looks for a path.
pub open spec fn searches(
    step: FsStep<ResolveChild, Option<(String, FileKind)>>,
    path: Seq<char>,
    alias: bool,
    after: Option<Seq<char>>,
) -> bool {
    &&& step matches FsStep::Ask(TreeRequest::Versions { path: p }, ResolveChild::Leaf { search })
    &&& p@ == path
    &&& search.path@ == path
    &&& search.alias == alias
    &&& match after {
        None => search.after is None,
        Some(a) => search.after matches Some(s) && s@ == a,
    }
}

/// The first step of resolving a name. A name with an underscore in front is
/// looked for as it is first, and then as an alias.
pub open spec fn resolving_starts(
    parent: Seq<char>,
    name: Seq<char>,
    step: FsStep<ResolveChild, Option<(String, FileKind)>>,
) -> bool {
    searches(
        step,
        state::joined(parent, name),
        false,
        if state::is_alias(name) {
            Some(state::joined(parent, state::looked_up(name)))
        } else {
            None
        },
    )
}

/// The step of resolving a name after a reply. `dirs` are the directories made
/// by `mkdir`.
pub open spec fn resolving_resumes(
    task: ResolveChild,
    dirs: Seq<Seq<char>>,
    reply: TreeReply,
    next: FsStep<ResolveChild, Option<(String, FileKind)>>,
) -> bool {
    match (task, reply) {
        (ResolveChild::Leaf { search }, TreeReply::Versions(r)) => {
            &&& next matches FsStep::Ask(
                TreeRequest::Folder { path: p },
                ResolveChild::Children { search: s, leaf },
            )
            &&& p@ == search.path@
            &&& s == search
            &&& leaf == state::leaf_in(r)
        },
        (ResolveChild::Children { search, leaf }, TreeReply::Folder(r)) => {
            let children = state::children_in(r) || dirs.contains(search.path@);
            match resolved(search.alias, leaf, children) {
                Some(kind) => next == FsStep::<ResolveChild, Option<(String, FileKind)>>::Done(
                    Ok(Some((search.path, kind))),
                ),
                None => match search.after {
                    Some(path) => searches(next, path@, true, None),
                    None => next == FsStep::<ResolveChild, Option<(String, FileKind)>>::Done(
                        Ok(None),
                    ),
                },
            }
        },
        _ => state::fails(next, Errno::Io),
    }
}

/// Looks for a path.
fn search_for(path: String, alias: bool, after: Option<String>) -> (r: FsStep<
    ResolveChild,
    Option<(String, FileKind)>,
>)
    ensures
        searches(
            r,
            path@,
            alias,
            match after {
                Some(s) => Some(s@),
                None => None,
            },
        ),
{
    FsStep::Ask(
        TreeRequest::Versions { path: path.clone() },
        ResolveChild::Leaf { search: Search { path, alias, after } },
    )
}

impl ResolveChild {
    /// Starts to resolve a name in a directory.
    pub fn start(parent: &str, name: &str) -> (r: FsStep<ResolveChild, Option<(String, FileKind)>>)
        ensures
            resolving_starts(parent@, name@, r),
    {
        let (plain, alias) = look_up_name(name);
        let path = FsState::child_path(parent, name);
        if alias {
            search_for(path, false, Some(FsState::child_path(parent, plain.as_str())))
        } else {
            search_for(path, false, None)
        }
    }

    /// Goes on with the reply.
    pub fn resume(self, dirs: &PathSet, reply: TreeReply) -> (r: FsStep<
        ResolveChild,
        Option<(String, FileKind)>,
    >)
        ensures
            resolving_resumes(self, dirs@, reply, r),
    {
        match (self, reply) {
            (ResolveChild::Leaf { search }, TreeReply::Versions(r)) => FsStep::Ask(
                TreeRequest::Folder { path: search.path.clone() },
                ResolveChild::Children { search, leaf: has_leaf(&r) },
            ),
            (ResolveChild::Children { search, leaf }, TreeReply::Folder(r)) => {
                let children = has_children(&r) || dirs.contains(search.path.as_str());
                match resolve(search.alias, leaf, children) {
                    Some(kind) => FsStep::Done(Ok(Some((search.path, kind)))),
                    None => match search.after {
                        Some(path) => search_for(path, true, None),
                        None => FsStep::Done(Ok(None)),
                    },
                }
            },
            _ => FsStep::Done(Err(Errno::Io)),
        }
    }
}

// ---------------------------------------------------------------------------
// Attributes
// ---------------------------------------------------------------------------

/// Finding out the attributes of an inode.
#[derive(Debug)]
pub struct GetAttr {
    pub ino: u64,
}

/// The step that gives the attributes of an inode: those of a directory are
/// known, those of a file need its metadata.
pub open spec fn gives_attr(
    step: FsStep<GetAttr, FileAttr>,
    ino: u64,
    path: Seq<char>,
    kind: FileKind,
) -> bool {
    match kind {
        FileKind::Directory => step matches FsStep::Done(Ok(attr)) && node::is_dir_attr(attr, ino),
        FileKind::RegularFile => {
            &&& step matches FsStep::Ask(TreeRequest::Stat { path: p }, t)
            &&& p@ == path
            &&& t.ino == ino
        },
    }
}

/// The first step of finding out the attributes of an inode.
pub open spec fn attr_starts(s: FsView, ino: u64, step: FsStep<GetAttr, FileAttr>) -> bool {
    if s.inodes.contains_key(ino) {
        gives_attr(step, ino, s.inodes[ino].path, s.inodes[ino].kind)
    } else {
        state::fails(step, Errno::NoEntry)
    }
}

/// The step of finding out the attributes of an inode after a reply.
pub open spec fn attr_resumes(
    task: GetAttr,
    reply: TreeReply,
    next: FsStep<GetAttr, FileAttr>,
) -> bool {
    match reply {
        TreeReply::Stat(r) => next matches FsStep::Done(Ok(attr)) && state::is_stat_attr(
            attr,
            task.ino,
            r,
        ),
        _ => state::fails(next, Errno::Io),
    }
}

/// Gives the attributes of an inode, or asks for what they need.
pub fn give_attr(ino: u64, path: &str, kind: FileKind) -> (r: FsStep<GetAttr, FileAttr>)
    ensures
        gives_attr(r, ino, path@, kind),
{
    match kind {
        FileKind::Directory => FsStep::Done(Ok(dir_attr(ino))),
        FileKind::RegularFile => FsStep::Ask(
            TreeRequest::Stat { path: path.to_owned() },
            GetAttr { ino },
        ),
    }
}

impl GetAttr {
    /// Starts to find out the attributes of an inode.
    pub fn start(state: &FsState, ino: u64) -> (r: FsStep<GetAttr, FileAttr>)
        ensures
            attr_starts(state@, ino, r),
    {
        match state.ino_info.get(&ino) {
            None => FsStep::Done(Err(Errno::NoEntry)),
            Some(info) => give_attr(ino, info.path.as_str(), info.kind),
        }
    }

    /// Goes on with the reply.
    pub fn resume(self, reply: TreeReply) -> (r: FsStep<GetAttr, FileAttr>)
        ensures
            attr_resumes(self, reply, r),
    {
        match reply {
            TreeReply::Stat(r) => FsStep::Done(Ok(file_attr_for_path(self.ino, &r))),
            _ => FsStep::Done(Err(Errno::Io)),
        }
    }
}

// ---------------------------------------------------------------------------
// Looking up
// ---------------------------------------------------------------------------

/// Looking up a name in a directory.
#[derive(Debug)]
pub enum Lookup {
    /// The name is being resolved.
    Resolving(ResolveChild),
    /// The attributes are being found out.
    Attr(GetAttr),
}

/// The first step of looking up a name.
pub open spec fn lookup_starts(
    s: FsView,
    parent: u64,
    name: Seq<char>,
    step: FsStep<Lookup, FileAttr>,
) -> bool {
    match state::directory_path(s, parent) {
        None => state::fails(step, Errno::NoEntry),
        Some(path) => exists|r: FsStep<ResolveChild, Option<(String, FileKind)>>|
            {
                &&& #[trigger] resolving_starts(path, name, r)
                &&& r matches FsStep::Ask(request, t)
                &&& step == FsStep::<Lookup, FileAttr>::Ask(request, Lookup::Resolving(t))
            },
    }
}

/// A step of finding out attributes as one of looking up.
pub open spec fn with_attr(step: FsStep<GetAttr, FileAttr>) -> FsStep<Lookup, FileAttr> {
    match step {
        FsStep::Ask(request, t) => FsStep::Ask(request, Lookup::Attr(t)),
        FsStep::Done(r) => FsStep::Done(r),
    }
}

/// The step of looking up after the name was resolved, or is still being. What
/// was found is registered.
pub open spec fn lookup_goes_on(
    s: FsView,
    after: FsView,
    r: FsStep<ResolveChild, Option<(String, FileKind)>>,
    next: FsStep<Lookup, FileAttr>,
) -> bool {
    match r {
        FsStep::Ask(request, t) => after == s && next == FsStep::<Lookup, FileAttr>::Ask(
            request,
            Lookup::Resolving(t),
        ),
        FsStep::Done(Err(e)) => after == s && state::fails(next, e),
        FsStep::Done(Ok(None)) => after == s && state::fails(next, Errno::NoEntry),
        FsStep::Done(Ok(Some((path, kind)))) => {
            &&& after == state::registered(s, path@, kind)
            &&& exists|a: FsStep<GetAttr, FileAttr>| #[trigger]
                gives_attr(a, state::ino_for(path@, kind), path@, kind) && next == with_attr(a)
        },
    }
}

/// The step of looking up after a reply, with the state before and after.
pub open spec fn lookup_resumes(
    task: Lookup,
    s: FsView,
    after: FsView,
    reply: TreeReply,
    next: FsStep<Lookup, FileAttr>,
) -> bool {
    match task {
        Lookup::Resolving(t) => exists|r: FsStep<ResolveChild, Option<(String, FileKind)>>|
            #[trigger] resolving_resumes(t, s.dirs, reply, r) && lookup_goes_on(s, after, r, next),
        Lookup::Attr(t) => {
            &&& after == s
            &&& exists|a: FsStep<GetAttr, FileAttr>| #[trigger]
                attr_resumes(t, reply, a) && next == with_attr(a)
        },
    }
}

/// A step of finding out attributes as one of looking up.
fn attr_in_lookup(step: FsStep<GetAttr, FileAttr>) -> (r: FsStep<Lookup, FileAttr>)
    ensures
        r == with_attr(step),
{
    match step {
        FsStep::Ask(request, t) => FsStep::Ask(request, Lookup::Attr(t)),
        FsStep::Done(r) => FsStep::Done(r),
    }
}

impl Lookup {
    /// Starts to look up a name in a directory.
    pub fn start(state: &FsState, parent: u64, name: &str) -> (r: FsStep<Lookup, FileAttr>)
        ensures
            lookup_starts(state@, parent, name@, r),
    {
        match state.parent_path(parent) {
            None => FsStep::Done(Err(Errno::NoEntry)),
            Some(path) => match ResolveChild::start(path.as_str(), name) {
                FsStep::Ask(request, t) => FsStep::Ask(request, Lookup::Resolving(t)),
                FsStep::Done(_) => FsStep::Done(Err(Errno::NoEntry)),
            },
        }
    }

    /// Goes on with the reply.
    pub fn resume(self, state: &mut FsState, reply: TreeReply) -> (r: FsStep<Lookup, FileAttr>)
        ensures
            lookup_resumes(self, old(state)@, final(state)@, reply, r),
    {
        match self {
            Lookup::Attr(t) => attr_in_lookup(t.resume(reply)),
            Lookup::Resolving(t) => {
                let ghost before = state@;
                let ghost task = t;
                let step = t.resume(&state.ephemeral_dirs, reply);
                assert(resolving_resumes(task, before.dirs, reply, step));
                match step {
                    FsStep::Ask(request, t) => FsStep::Ask(request, Lookup::Resolving(t)),
                    FsStep::Done(Err(e)) => FsStep::Done(Err(e)),
                    FsStep::Done(Ok(None)) => FsStep::Done(Err(Errno::NoEntry)),
                    FsStep::Done(Ok(Some((path, kind)))) => {
                        let ino = state.register_ino(path.as_str(), kind);
                        let a = give_attr(ino, path.as_str(), kind);
                        assert(gives_attr(a, state::ino_for(path@, kind), path@, kind));
                        attr_in_lookup(a)
                    },
                }
            },
        }
    }
}

// ---------------------------------------------------------------------------
// Making and removing directories
// ---------------------------------------------------------------------------

/// Making a directory.
#[derive(Debug)]
pub struct MakeDir {
    pub path: String,
    pub resolving: ResolveChild,
}

/// The first step of making a directory: the name must not be there.
pub open spec fn mkdir_starts(
    s: FsView,
    parent: u64,
    name: Seq<char>,
    step: FsStep<MakeDir, FileAttr>,
) -> bool {
    match state::directory_path(s, parent) {
        None => state::fails(step, Errno::NoEntry),
        Some(path) => {
            &&& step matches FsStep::Ask(request, t)
            &&& t.path@ == state::joined(path, name)
            &&& resolving_starts(
                path,
                name,
                FsStep::<ResolveChild, Option<(String, FileKind)>>::Ask(request, t.resolving),
            )
        },
    }
}

/// The step of making a directory after the name was resolved, or is still
/// being. A name that is there is refused; else the directory is remembered and
/// registered.
pub open spec fn mkdir_goes_on(
    path: String,
    s: FsView,
    after: FsView,
    r: FsStep<ResolveChild, Option<(String, FileKind)>>,
    next: FsStep<MakeDir, FileAttr>,
) -> bool {
    match r {
        FsStep::Ask(request, t) => after == s && next == FsStep::<MakeDir, FileAttr>::Ask(
            request,
            MakeDir { path, resolving: t },
        ),
        FsStep::Done(Err(e)) => after == s && state::fails(next, e),
        FsStep::Done(Ok(Some(_))) => after == s && state::fails(next, Errno::Exists),
        FsStep::Done(Ok(None)) => {
            let with = FsView { dirs: after.dirs, ..s };
            &&& after == state::registered(with, path@, FileKind::Directory)
            &&& pathset::is_ascending(after.dirs)
            &&& forall|x: Seq<char>| #[trigger]
                after.dirs.contains(x) <==> s.dirs.contains(x) || x == path@
            &&& next matches FsStep::Done(Ok(attr))
            &&& node::is_dir_attr(attr, state::ino_for(path@, FileKind::Directory))
        },
    }
}

/// The step of making a directory after a reply, with the state before and
/// after.
pub open spec fn mkdir_resumes(
    task: MakeDir,
    s: FsView,
    after: FsView,
    reply: TreeReply,
    next: FsStep<MakeDir, FileAttr>,
) -> bool {
    exists|r: FsStep<ResolveChild, Option<(String, FileKind)>>| #[trigger]
        resolving_resumes(task.resolving, s.dirs, reply, r) && mkdir_goes_on(
            task.path,
            s,
            after,
            r,
            next,
        )
}

impl MakeDir {
    /// Starts to make a directory.
    pub fn start(state: &FsState, parent: u64, name: &str) -> (r: FsStep<MakeDir, FileAttr>)
        ensures
            mkdir_starts(state@, parent, name@, r),
    {
        match state.parent_path(parent) {
            None => FsStep::Done(Err(Errno::NoEntry)),
            Some(path) => match ResolveChild::start(path.as_str(), name) {
                FsStep::Ask(request, resolving) => FsStep::Ask(
                    request,
                    MakeDir { path: FsState::child_path(path.as_str(), name), resolving },
                ),
                FsStep::Done(_) => FsStep::Done(Err(Errno::NoEntry)),
            },
        }
    }

    /// Goes on with the reply.
    pub fn resume(self, state: &mut FsState, reply: TreeReply) -> (r: FsStep<MakeDir, FileAttr>)
        ensures
            mkdir_resumes(self, old(state)@, final(state)@, reply, r),
    {
        let MakeDir { path, resolving } = self;
        let ghost before = state@;
        let step = resolving.resume(&state.ephemeral_dirs, reply);
        assert(resolving_resumes(resolving, before.dirs, reply, step));
        match step {
            FsStep::Ask(request, t) => FsStep::Ask(request, MakeDir { path, resolving: t }),
            FsStep::Done(Err(e)) => FsStep::Done(Err(e)),
            FsStep::Done(Ok(Some(_))) => FsStep::Done(Err(Errno::Exists)),
            FsStep::Done(Ok(None)) => {
                let mut dirs = PathSet::new();
                std::mem::swap(&mut dirs, &mut state.ephemeral_dirs);
                state.ephemeral_dirs = dirs.with(path.clone());
                let ino = state.register_ino(path.as_str(), FileKind::Directory);
                FsStep::Done(Ok(dir_attr(ino)))
            },
        }
    }
}

/// Removing a directory.
#[derive(Debug)]
pub struct RemoveDir {
    pub path: String,
}

/// The first step of removing a directory: it must have been made by `mkdir`,
/// and no other such directory may be below it.
pub open spec fn rmdir_starts(
    s: FsView,
    parent: u64,
    name: Seq<char>,
    step: FsStep<RemoveDir, ()>,
) -> bool {
    match state::directory_path(s, parent) {
        None => state::fails(step, Errno::NoEntry),
        Some(at) => {
            let path = state::joined(at, name);
            if !s.dirs.contains(path) {
                state::fails(step, Errno::NoEntry)
            } else if pathset::any_below(s.dirs, path) {
                state::fails(step, Errno::NotEmpty)
            } else {
                &&& step matches FsStep::Ask(TreeRequest::Folder { path: p }, t)
                &&& p@ == path
                &&& t.path@ == path
            }
        },
    }
}

/// The step of removing a directory after a reply, with the state before and
/// after. A directory that the store has paths in is kept.
pub open spec fn rmdir_resumes(
    task: RemoveDir,
    s: FsView,
    after: FsView,
    reply: TreeReply,
    next: FsStep<RemoveDir, ()>,
) -> bool {
    match reply {
        TreeReply::Folder(r) => if state::children_in(r) {
            after == s && state::fails(next, Errno::NotEmpty)
        } else {
            let without = FsView { dirs: after.dirs, ..s };
            &&& after == state::unregistered(without, task.path@, FileKind::Directory)
            &&& pathset::is_ascending(after.dirs)
            &&& forall|x: Seq<char>| #[trigger]
                after.dirs.contains(x) <==> s.dirs.contains(x) && x != task.path@
            &&& next == FsStep::<RemoveDir, ()>::Done(Ok(()))
        },
        _ => after == s && state::fails(next, Errno::Io),
    }
}

impl RemoveDir {
    /// Starts to remove a directory.
    pub fn start(state: &FsState, parent: u64, name: &str) -> (r: FsStep<RemoveDir, ()>)
        ensures
            rmdir_starts(state@, parent, name@, r),
    {
        match state.parent_path(parent) {
            None => FsStep::Done(Err(Errno::NoEntry)),
            Some(at) => {
                let path = FsState::child_path(at.as_str(), name);
                if !state.ephemeral_dirs.contains(path.as_str()) {
                    return FsStep::Done(Err(Errno::NoEntry));
                }
                if state.ephemeral_dirs.has_below(path.as_str()) {
                    return FsStep::Done(Err(Errno::NotEmpty));
                }
                FsStep::Ask(TreeRequest::Folder { path: path.clone() }, RemoveDir { path })
            },
        }
    }

    /// Goes on with the reply.
    pub fn resume(self, state: &mut FsState, reply: TreeReply) -> (r: FsStep<RemoveDir, ()>)
        ensures
            rmdir_resumes(self, old(state)@, final(state)@, reply, r),
    {
        match reply {
            TreeReply::Folder(r) => {
                if has_children(&r) {
                    return FsStep::Done(Err(Errno::NotEmpty));
                }
                let mut dirs = PathSet::new();
                std::mem::swap(&mut dirs, &mut state.ephemeral_dirs);
                state.ephemeral_dirs = dirs.without(self.path.as_str());
                state.remove_ino(self.path.as_str(), FileKind::Directory);
                FsStep::Done(Ok(()))
            },
            _ => FsStep::Done(Err(Errno::Io)),
        }
    }
}

} // verus!
