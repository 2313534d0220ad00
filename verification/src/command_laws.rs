//! What the commands do to the store, and what they print of it.

use vstd::prelude::*;
use vstd::string::*;

use crate::add;
use crate::add::{Add, AddResult};
use crate::cli;
use crate::cli::{CliReply, CliRequest, CliStep, Command, Output, Run};
use crate::cli_laws;
use crate::error::Error;
use crate::get;
use crate::get::GetReader;
use crate::hash;
use crate::index;
use crate::index::{Row, Version, VersionInfo};
use crate::insertion;
use crate::laws;
use crate::list;
use crate::list::{CommonPrefixEntry, ListFolder, ListPaths, ListVersions, Listed, PathEntry};
use crate::mounted::backing;
use crate::path;
use crate::pathset;
use crate::reader::BloxtreeReader;
use crate::removal_laws;
use crate::remove;
use crate::remove::{RemovePath, TrimPath};
use crate::rows;
use crate::store::Source;
use crate::store_laws;
use crate::talk::{Reply, Step};
use crate::text;
use crate::uuid;
use crate::world;
use crate::world::{Turn, World};

verus! {

// ---------------------------------------------------------------------------
// Commands over a store
// ---------------------------------------------------------------------------

/// What lies around a store: the files that can be opened, and the standard
/// input.
pub struct Around {
    pub files: Map<Seq<char>, Seq<u8>>,
    pub stdin: Seq<u8>,
}

/// A reader that is held: what it gives, and the hash that this should have.
pub struct Held {
    pub content: Seq<u8>,
    pub hash: Seq<u8>,
}

/// The store, the reader that is held, if one is, and what was copied out.
pub struct Scene {
    pub world: World,
    pub held: Option<Held>,
    pub out: Seq<u8>,
}

/// One moment of a command: the scene, where the command stands, and the reply
/// that it is about to get.
pub struct CommandTurn {
    pub scene: Scene,
    pub step: CliStep,
    pub reply: CliReply,
}

/// The content that an addition takes: that of the file, or of the standard input
/// where no file is given.
pub open spec fn input_of(o: Around, file: Option<String>) -> Option<Seq<u8>> {
    match file {
        None => Some(o.stdin),
        Some(f) => if o.files.contains_key(f@) {
            Some(o.files[f@])
        } else {
            None
        },
    }
}

/// Content was added under some paths.
pub open spec fn adds(
    w: World,
    paths: Seq<Seq<char>>,
    content: Seq<u8>,
    turns: Seq<Turn<Add, AddResult>>,
    r: Result<AddResult, Error>,
    end: World,
) -> bool {
    &&& add::add_starts(paths, Source::Reader, turns[0].step)
    &&& turns[0].world.input == content
    &&& backing::ran(w, |t, r, s| add::add_resumes(t, r, s), turns, r, end)
}

/// A blob was opened.
pub open spec fn opens_blob(
    w: World,
    hash: hash::Hash,
    turns: Seq<Turn<GetReader, Option<BloxtreeReader>>>,
    r: Result<Option<BloxtreeReader>, Error>,
    end: World,
) -> bool {
    &&& get::opens(turns[0].step, hash)
    &&& backing::ran(w, |t, r, s| get::get_resumes(t, r, s), turns, r, end)
}

/// A path, or one version of it, was removed.
pub open spec fn removes(
    w: World,
    path: Seq<char>,
    version: Option<hash::Hash>,
    turns: Seq<Turn<RemovePath, ()>>,
    r: Result<(), Error>,
    end: World,
) -> bool {
    &&& remove::removal_starts(path, version, turns[0].step)
    &&& backing::ran(w, |t, r, s| remove::removal_resumes(t, r, s), turns, r, end)
}

/// A path was trimmed.
pub open spec fn trims(
    w: World,
    path: Seq<char>,
    keep: u8,
    turns: Seq<Turn<TrimPath, ()>>,
    r: Result<(), Error>,
    end: World,
) -> bool {
    &&& remove::trim_starts(path, keep, turns[0].step)
    &&& backing::ran(w, |t, r, s| remove::trim_resumes(t, r, s), turns, r, end)
}

/// All paths were listed.
pub open spec fn lists_paths(
    w: World,
    turns: Seq<Turn<ListPaths, Vec<PathEntry>>>,
    r: Result<Vec<PathEntry>, Error>,
    end: World,
) -> bool {
    &&& list::path_listing_starts(turns[0].step)
    &&& backing::ran(w, |t, r, s| list::path_listing_resumes(t, r, s), turns, r, end)
}

/// What is held, and what comes back, when a blob was opened or was not.
pub open spec fn holds(
    a: Scene,
    r: Result<Option<BloxtreeReader>, Error>,
    reply: Result<bool, Error>,
    z: Scene,
) -> bool {
    match r {
        Ok(Some(reader)) => reply == Ok::<bool, Error>(true) && z.held == Some(
            Held { content: z.world.open, hash: reader.expected@ },
        ),
        Ok(None) => reply == Ok::<bool, Error>(false) && z.held is None,
        Err(e) => reply == Err::<bool, Error>(e) && z.held == a.held,
    }
}

/// The reply to a request of a command is what the operation of the store gave
/// that answers it, and `z` is the scene that this left. What is copied out must
/// have the hash that it is named by.
pub open spec fn answers(
    o: Around,
    a: Scene,
    request: CliRequest,
    reply: CliReply,
    z: Scene,
) -> bool {
    match request {
        CliRequest::Add { paths, file } => {
            &&& z.held == a.held && z.out == a.out
            &&& match input_of(o, file) {
                None => reply is CannotOpen && z.world == a.world,
                Some(content) => {
                    &&& reply matches CliReply::Added(r)
                    &&& exists|turns: Seq<Turn<Add, AddResult>>| #[trigger]
                        adds(a.world, index::texts(paths@), content, turns, r, z.world)
                },
            }
        },
        CliRequest::OpenPath { path } => {
            &&& z.out == a.out
            &&& reply matches CliReply::Opened(opened)
            &&& exists|
                turns: Seq<Turn<GetReader, Option<BloxtreeReader>>>,
                r: Result<Option<BloxtreeReader>, Error>,
            | #[trigger]
                backing::opens(a.world, path@, turns, r, z.world) && holds(a, r, opened, z)
        },
        CliRequest::OpenHash { hash } => {
            &&& z.out == a.out
            &&& reply matches CliReply::Opened(opened)
            &&& exists|
                turns: Seq<Turn<GetReader, Option<BloxtreeReader>>>,
                r: Result<Option<BloxtreeReader>, Error>,
            | #[trigger]
                opens_blob(a.world, hash, turns, r, z.world) && holds(a, r, opened, z)
        },
        CliRequest::CopyOut => {
            &&& store_laws::is_untouched(a.world, z.world)
            &&& if a.held matches Some(h) && hash::blake3_digest(h.content) == h.hash {
                &&& reply matches CliReply::Copied(Ok(n))
                &&& n == (a.held->0).content.len()
                &&& z.out == a.out + (a.held->0).content
            } else {
                reply matches CliReply::Copied(Err(_))
            }
        },
        CliRequest::Remove { path, version } => {
            &&& z.held == a.held && z.out == a.out
            &&& reply matches CliReply::Finished(r)
            &&& exists|turns: Seq<Turn<RemovePath, ()>>| #[trigger]
                removes(a.world, path@, version, turns, r, z.world)
        },
        CliRequest::Trim { path, max_versions } => {
            &&& z.held == a.held && z.out == a.out
            &&& reply matches CliReply::Finished(r)
            &&& exists|turns: Seq<Turn<TrimPath, ()>>| #[trigger]
                trims(a.world, path@, max_versions, turns, r, z.world)
        },
        CliRequest::Folder { prefix } => {
            &&& z.held == a.held && z.out == a.out
            &&& reply matches CliReply::Folder(r)
            &&& exists|turns: Seq<Turn<ListFolder, Vec<CommonPrefixEntry>>>| #[trigger]
                backing::lists_folder(a.world, prefix@, turns, r, z.world)
        },
        CliRequest::Paths => {
            &&& z.held == a.held && z.out == a.out
            &&& reply matches CliReply::Paths(r)
            &&& exists|turns: Seq<Turn<ListPaths, Vec<PathEntry>>>| #[trigger]
                lists_paths(a.world, turns, r, z.world)
        },
        CliRequest::Versions { path } => {
            &&& z.held == a.held && z.out == a.out
            &&& reply matches CliReply::Versions(r)
            &&& exists|turns: Seq<Turn<ListVersions, Vec<VersionInfo>>>| #[trigger]
                backing::lists_versions(a.world, path@, turns, r, z.world)
        },
    }
}

/// Turn `i` leads to the next.
pub open spec fn leads_on(o: Around, turns: Seq<CommandTurn>, i: int) -> bool {
    match turns[i].step {
        CliStep::Done(_) => false,
        CliStep::Ask(request, task) => {
            &&& answers(o, turns[i].scene, request, turns[i].reply, turns[i + 1].scene)
            &&& cli::command_resumes(task, turns[i].reply, turns[i + 1].step)
        },
    }
}

/// A run of a command over a store. It begins with nothing copied out.
pub open spec fn is_run(
    command: Command,
    quiet: bool,
    store: Seq<char>,
    o: Around,
    turns: Seq<CommandTurn>,
) -> bool {
    &&& turns.len() > 0
    &&& cli::command_starts(command, quiet, store, turns[0].step)
    &&& turns[0].scene.out.len() == 0
    &&& forall|i: int| 0 <= i < turns.len() - 1 ==> #[trigger] leads_on(o, turns, i)
}

/// The store that a command left has the rows and blobs that it had.
pub open spec fn is_kept(turns: Seq<CommandTurn>) -> bool {
    store_laws::is_untouched(turns[0].scene.world, turns.last().scene.world)
}

/// The lines that were printed.
pub open spec fn shows(out: Output, stdout: Seq<Seq<char>>, stderr: Seq<Seq<char>>) -> bool {
    &&& out.stdout@.len() == stdout.len()
    &&& forall|i: int| 0 <= i < stdout.len() ==> (#[trigger] out.stdout@[i])@ == stdout[i]
    &&& out.stderr@.len() == stderr.len()
    &&& forall|i: int| 0 <= i < stderr.len() ==> (#[trigger] out.stderr@[i])@ == stderr[i]
}

/// The lines that a command prints are those that are shown.
proof fn printed_is_shown(step: CliStep, stdout: Seq<Seq<char>>, stderr: Seq<Seq<char>>)
    requires
        cli::prints(step, stdout, stderr),
    ensures
        step matches CliStep::Done(Ok(out)) && shows(out, stdout, stderr),
{
    let out = step->Done_0->Ok_0;
    assert(out.stdout@.len() == index::texts(out.stdout@).len());
    assert(out.stderr@.len() == index::texts(out.stderr@).len());
    assert forall|i: int| 0 <= i < stdout.len() implies (#[trigger] out.stdout@[i])@
        == stdout[i] by {
        assert(index::texts(out.stdout@)[i] == out.stdout@[i]@);
    }
    assert forall|i: int| 0 <= i < stderr.len() implies (#[trigger] out.stderr@[i])@
        == stderr[i] by {
        assert(index::texts(out.stderr@)[i] == out.stderr@[i]@);
    }
}

/// Some path that was given is this one.
pub open spec fn is_given(paths: Seq<String>, p: Seq<char>) -> bool {
    exists|i: int| 0 <= i < paths.len() && (#[trigger] paths[i])@ == p
}

/// The version is a new one of every path that was given, in front of those before,
/// and every other path has the versions that it had.
pub open spec fn is_recorded(
    paths: Seq<String>,
    before: Seq<Row>,
    after: Seq<Row>,
    v: Version,
) -> bool {
    &&& forall|p: Seq<char>|
        is_given(paths, p) ==> #[trigger] world::versions_of(after, p) == seq![v]
            + world::versions_of(before, p)
    &&& forall|p: Seq<char>|
        !is_given(paths, p) ==> #[trigger] world::versions_of(after, p) == world::versions_of(
            before,
            p,
        )
}

/// Adding stores the content of the file that is given, or of the standard input,
/// and records one new version of it under every path that is given, and under no
/// other. The hash and the identifier of the version are printed, unless the
/// command is to be quiet. Where the file cannot be opened, no path is given or one
/// is invalid, the command fails with exit code 1 and nothing changes.
pub proof fn add_law(
    paths: Vec<String>,
    file: Option<String>,
    quiet: bool,
    store: Seq<char>,
    o: Around,
    turns: Seq<CommandTurn>,
)
    requires
        is_run(Command::Add { paths, file }, quiet, store, o, turns),
        world::in_order(turns[0].scene.world.rows),
        turns[0].reply matches CliReply::Added(Ok(result)) ==> insertion::is_new(
            turns[0].scene.world.rows,
            result.uuid@,
        ),
    ensures
        turns.last().step matches CliStep::Done(r) ==> {
            let before = turns[0].scene.world;
            let after = turns.last().scene.world;
            let content = match file {
                None => o.stdin,
                Some(f) => o.files[f@],
            };
            if (file matches Some(f) && !o.files.contains_key(f@)) || paths@.len() == 0 || exists|
                i: int,
            |
                0 <= i < paths@.len() && !path::is_valid((#[trigger] paths@[i])@) {
                &&& r matches Err(e) && e.code() == 1
                &&& is_kept(turns)
            } else {
                &&& r matches Ok(out)
                &&& exists|v: Version|
                    {
                        &&& #[trigger] is_recorded(paths@, before.rows, after.rows, v)
                        &&& v.hash == hash::blake3_digest(content)
                        &&& shows(
                            out,
                            if quiet {
                                Seq::empty()
                            } else {
                                seq![
                                    hash::hex_text(v.hash) + seq![' ', ' '] + uuid::hyphenated(
                                        v.uuid,
                                    ),
                                ]
                            },
                            Seq::empty(),
                        )
                    }
                &&& after.blobs.contains_key(hash::blake3_digest(content))
                &&& laws::is_intact(before.blobs, content)
                    ==> after.blobs[hash::blake3_digest(content)] == content
            }
        },
{
    let before = turns[0].scene.world;
    let resumes = |t: Add, r: Reply, s: Step<Add, AddResult>| add::add_resumes(t, r, s);
    if turns.last().step is Done {
        assert(turns.len() > 1);
        assert(leads_on(o, turns, 0));
        if turns.len() > 2 {
            assert(leads_on(o, turns, 1));
        }
        let after = turns[1].scene.world;
        let texts = index::texts(paths@);
        assert(texts.len() == paths@.len());
        assert forall|i: int| 0 <= i < texts.len() implies #[trigger] texts[i] == paths@[i]@ by {}
        if input_of(o, file) is Some {
            let content = input_of(o, file)->0;
            let r = turns[0].reply->Added_0;
            let inner = choose|inner: Seq<Turn<Add, AddResult>>| #[trigger]
                adds(before, texts, content, inner, r, after);
            if paths@.len() == 0 || exists|i: int|
                0 <= i < paths@.len() && !path::is_valid((#[trigger] paths@[i])@) {
                assert(inner[0].step matches Step::Done(Err(_))) by {
                    if add::first_problem(texts) is None && paths@.len() > 0 {
                        let i = choose|i: int|
                            0 <= i < paths@.len() && !path::is_valid((#[trigger] paths@[i])@);
                        laws::valid_where_no_problem(texts, i);
                    }
                }
                backing::done_at_once(resumes, inner);
            } else {
                assert forall|i: int| 0 <= i < texts.len() implies path::is_valid(
                    #[trigger] texts[i],
                ) by {
                    assert(path::is_valid(paths@[i]@));
                }
                laws::no_problem_where_valid(texts);
                store_laws::add_law(texts, Source::Reader, inner);
                laws::add_keeps_the_rest(texts, Source::Reader, inner);
                let result = r->Ok_0;
                let v = Version { hash: result.hash@, uuid: result.uuid@ };
                assert forall|p: Seq<char>| texts.contains(p) <==> #[trigger] is_given(
                    paths@,
                    p,
                ) by {
                    if texts.contains(p) {
                        let i = choose|i: int| 0 <= i < texts.len() && texts[i] == p;
                        assert(paths@[i]@ == p);
                    }
                    if is_given(paths@, p) {
                        let i = choose|i: int|
                            0 <= i < paths@.len() && (#[trigger] paths@[i])@ == p;
                        assert(texts[i] == p);
                    }
                }
                assert(is_recorded(paths@, before.rows, after.rows, v)) by {
                    assert forall|p: Seq<char>| is_given(paths@, p) implies #[trigger]
                        world::versions_of(after.rows, p) == seq![v] + world::versions_of(
                            before.rows,
                            p,
                        ) by {
                        assert(texts.contains(p));
                    }
                    assert forall|p: Seq<char>| !is_given(paths@, p) implies #[trigger]
                        world::versions_of(after.rows, p) == world::versions_of(
                            before.rows,
                            p,
                        ) by {
                        assert(!texts.contains(p));
                    }
                }
                let out = turns[1].step->Done_0->Ok_0;
                let line = hash::hex_text(v.hash) + seq![' ', ' '] + uuid::hyphenated(v.uuid);
                reveal_strlit("  ");
                assert("  "@ =~= seq![' ', ' ']);
                assert(cli::added_line(result) == line);
                let lines = if quiet {
                    Seq::empty()
                } else {
                    seq![line]
                };
                printed_is_shown(turns[1].step, lines, Seq::empty());
                assert(shows(out, lines, Seq::empty()));
            }
        }
    }
}

// ---------------------------------------------------------------------------
// Removing and trimming
// ---------------------------------------------------------------------------

/// Every path but this one has the versions that it had.
pub open spec fn others_stay(before: Seq<Row>, after: Seq<Row>, path: Seq<char>) -> bool {
    forall|p: Seq<char>|
        p != path ==> #[trigger] world::versions_of(after, p) == world::versions_of(before, p)
}

/// Exactly the blobs are gone whose last row went; all others are as they were.
pub open spec fn is_swept(before: World, after: World) -> bool {
    forall|h: Seq<u8>|
        {
            &&& #[trigger] after.blobs.contains_key(h) <==> before.blobs.contains_key(h) && !(
            rows::names(before.rows, h) && !rows::names(after.rows, h))
            &&& after.blobs.contains_key(h) ==> after.blobs[h] == before.blobs[h]
        }
}

/// A world without some rows is swept.
proof fn reduced_is_swept(before: World, after: World, left: Seq<Row>)
    requires
        after == removal_laws::reduced(before, left),
    ensures
        is_swept(before, after),
{
}

/// Removing without a hash takes all versions of the path; with a hash it takes the
/// oldest version with that hash. Every other path keeps its versions, exactly the
/// blobs go whose last row went, and nothing is printed. A path that is none, or a
/// hash that is none, is refused, with exit code 1 or 2, and nothing changes.
pub proof fn remove_law(
    path: String,
    hash: Option<String>,
    quiet: bool,
    store: Seq<char>,
    o: Around,
    turns: Seq<CommandTurn>,
)
    requires
        is_run(Command::Remove { path, hash }, quiet, store, o, turns),
        turns[0].scene.world.rows.len() <= u32::MAX,
    ensures
        turns.last().step matches CliStep::Done(r) ==> {
            let before = turns[0].scene.world;
            let after = turns.last().scene.world;
            if hash matches Some(hex) && !hash::is_hex(hex@, 32) {
                &&& r matches Err(e) && e.code() == 2
                &&& is_kept(turns)
            } else if !path::is_valid(path@) {
                &&& r matches Err(e) && e.code() == 1
                &&& is_kept(turns)
            } else {
                &&& r matches Ok(out) && shows(out, Seq::empty(), Seq::empty())
                &&& others_stay(before.rows, after.rows, path@)
                &&& is_swept(before, after)
                &&& match hash {
                    None => world::versions_of(after.rows, path@).len() == 0,
                    Some(hex) => laws::is_without(
                        world::versions_of(before.rows, path@),
                        hash::hex_bytes(hex@),
                        world::versions_of(after.rows, path@),
                    ),
                }
            }
        },
{
    let before = turns[0].scene.world;
    let resumes = |t: RemovePath, r: Reply, s: Step<RemovePath, ()>|
        remove::removal_resumes(t, r, s);
    if turns.last().step is Done {
        if turns.len() > 1 {
            assert(leads_on(o, turns, 0));
            if turns.len() > 2 {
                assert(leads_on(o, turns, 1));
            }
            let after = turns[1].scene.world;
            let r = turns[0].reply->Finished_0;
            let version = turns[0].step->Ask_0->Remove_version;
            let inner = choose|inner: Seq<Turn<RemovePath, ()>>| #[trigger]
                removes(before, path@, version, inner, r, after);
            if !path::is_valid(path@) {
                backing::done_at_once(resumes, inner);
            } else {
                removal_laws::remove_path_law(path@, version, inner);
                let left = removal_laws::rows_left(before.rows, path@, version);
                assert(after.rows == left);
                reduced_is_swept(inner[0].world, after, left);
                assert(is_swept(before, after));
                match version {
                    None => {
                        laws::versions_after_removal(before.rows, path@, path@);
                        assert forall|p: Seq<char>| p != path@ implies #[trigger]
                            world::versions_of(after.rows, p) == world::versions_of(
                                before.rows,
                                p,
                            ) by {
                            laws::versions_after_removal(before.rows, path@, p);
                        }
                    },
                    Some(h) => {
                        laws::versions_after_one_removal(before.rows, path@, h@, path@);
                        assert forall|p: Seq<char>| p != path@ implies #[trigger]
                            world::versions_of(after.rows, p) == world::versions_of(
                                before.rows,
                                p,
                            ) by {
                            laws::versions_after_one_removal(before.rows, path@, h@, p);
                        }
                    },
                }
                printed_is_shown(turns[1].step, Seq::empty(), Seq::empty());
            }
        }
    }
}

/// Trimming keeps the newest versions of the path, as many as asked for; with none
/// to keep it removes the path. Every other path keeps its versions, exactly the
/// blobs go whose last row went, and nothing is printed.
pub proof fn trim_law(
    path: String,
    max_versions: u8,
    quiet: bool,
    store: Seq<char>,
    o: Around,
    turns: Seq<CommandTurn>,
)
    requires
        is_run(Command::Trim { path, max_versions }, quiet, store, o, turns),
        world::in_order(turns[0].scene.world.rows),
        turns[0].scene.world.rows.len() <= u32::MAX,
    ensures
        turns.last().step matches CliStep::Done(r) ==> {
            let before = turns[0].scene.world;
            let after = turns.last().scene.world;
            let had = world::versions_of(before.rows, path@);
            if !path::is_valid(path@) {
                &&& r matches Err(e) && e.code() == 1
                &&& is_kept(turns)
            } else {
                &&& r matches Ok(out) && shows(out, Seq::empty(), Seq::empty())
                &&& others_stay(before.rows, after.rows, path@)
                &&& is_swept(before, after)
                &&& world::versions_of(after.rows, path@) == (if had.len() <= max_versions {
                    had
                } else {
                    had.take(max_versions as int)
                })
            }
        },
{
    let before = turns[0].scene.world;
    let resumes = |t: TrimPath, r: Reply, s: Step<TrimPath, ()>| remove::trim_resumes(t, r, s);
    if turns.last().step is Done {
        assert(turns.len() > 1);
        assert(leads_on(o, turns, 0));
        if turns.len() > 2 {
            assert(leads_on(o, turns, 1));
        }
        let after = turns[1].scene.world;
        let r = turns[0].reply->Finished_0;
        let inner = choose|inner: Seq<Turn<TrimPath, ()>>| #[trigger]
            trims(before, path@, max_versions, inner, r, after);
        if !path::is_valid(path@) {
            backing::done_at_once(resumes, inner);
        } else {
            removal_laws::trim_path_law(path@, max_versions, inner);
            let left = rows::trimmed(before.rows, path@, max_versions as int);
            assert(after.rows == left);
            reduced_is_swept(inner[0].world, after, left);
            assert(is_swept(before, after));
            laws::versions_after_trim(before.rows, path@, max_versions as int, path@);
            assert forall|p: Seq<char>| p != path@ implies #[trigger] world::versions_of(
                after.rows,
                p,
            ) == world::versions_of(before.rows, p) by {
                laws::versions_after_trim(before.rows, path@, max_versions as int, p);
            }
            printed_is_shown(turns[1].step, Seq::empty(), Seq::empty());
        }
    }
}

// ---------------------------------------------------------------------------
// Listing
// ---------------------------------------------------------------------------

/// The line for a child of a folder: `d`, the path and a slash where paths lie
/// below it, and else `f`, the path and the hash of its latest version.
pub open spec fn child_line(child: Listed) -> Seq<char> {
    match child {
        Listed::CommonPrefix(p) => seq!['d', ' ', ' '] + p + seq!['/'],
        Listed::Path(row) => seq!['f', ' ', ' '] + row.path + seq![' ', ' '] + hash::hex_text(
            row.hash,
        ),
    }
}

/// The lines for the children of a folder.
pub open spec fn child_lines(children: Seq<Listed>) -> Seq<Seq<char>> {
    Seq::new(children.len(), |i: int| child_line(children[i]))
}

/// The children are what lies directly in the folder: each lies in it, they come in
/// order and once, and every row below the folder is at or below one of them. One
/// is a common prefix where rows lie below it, and else a path with its latest
/// version.
pub open spec fn are_children(all: Seq<Row>, folder: Seq<char>, children: Seq<Listed>) -> bool {
    &&& forall|i: int, j: int|
        0 <= i < j < children.len() ==> text::text_before(
            (#[trigger] children[i]).name(),
            (#[trigger] children[j]).name(),
        )
    &&& forall|i: int|
        0 <= i < children.len() ==> match #[trigger] children[i] {
            Listed::CommonPrefix(p) => laws::has_below(all, p),
            Listed::Path(row) => {
                let latest = world::versions_of(all, row.path);
                &&& !laws::has_below(all, row.path)
                &&& latest.len() > 0
                &&& latest[0] == Version { hash: row.hash, uuid: row.uuid }
            },
        }
    &&& forall|k: int|
        0 <= k < all.len() && (folder.len() == 0 || text::has_prefix(
            (#[trigger] all[k]).path,
            folder + seq!['/'],
        )) ==> is_covered(all[k].path, children)
}

/// The path is one of the children, or lies below one.
pub open spec fn is_covered(path: Seq<char>, children: Seq<Listed>) -> bool {
    exists|i: int|
        0 <= i < children.len() && ((#[trigger] children[i]).name() == path || text::has_prefix(
            path,
            children[i].name() + seq!['/'],
        ))
}

/// Listing prints one line for each child of the prefix that is given, and of the
/// root where none is given: every path that is printed is the prefix, a slash and
/// a name. Where no path has a double slash the lines are those of the children. A
/// prefix that is no path is refused. Nothing changes.
pub proof fn list_law(
    prefix: Option<String>,
    quiet: bool,
    store: Seq<char>,
    o: Around,
    turns: Seq<CommandTurn>,
)
    requires
        is_run(Command::List { prefix }, quiet, store, o, turns),
        world::in_order(turns[0].scene.world.rows),
        removal_laws::paths_are_valid(turns[0].scene.world.rows),
    ensures
        turns.last().step matches CliStep::Done(r) ==> {
            let all = turns[0].scene.world.rows;
            let folder = match prefix {
                None => Seq::empty(),
                Some(given) => given@,
            };
            if folder.len() > 0 && !path::is_valid(folder) {
                r matches Err(e) && e.code() == 1
            } else {
                &&& r matches Ok(out)
                &&& exists|children: Seq<Listed>|
                    {
                        &&& shows(
                            out,
                            #[trigger] child_lines(children),
                            Seq::empty(),
                        )
                        &&& forall|i: int|
                            0 <= i < children.len() ==> laws::lies_in(
                                (#[trigger] children[i]).name(),
                                folder,
                            )
                        &&& laws::paths_are_clean(all) ==> are_children(all, folder, children)
                    }
            }
        },
        is_kept(turns),
{
    let all = turns[0].scene.world.rows;
    let folder = match prefix {
        None => Seq::empty(),
        Some(given) => given@,
    };
    if turns.len() > 1 {
        assert(leads_on(o, turns, 0));
        if turns.len() > 2 {
            assert(leads_on(o, turns, 1));
        }
        let after = turns[1].scene.world;
        let r = turns[0].reply->Folder_0;
        let asked = turns[0].step->Ask_0->Folder_prefix@;
        assert(asked =~= folder);
        let inner = choose|inner: Seq<Turn<ListFolder, Vec<CommonPrefixEntry>>>| #[trigger]
            backing::lists_folder(turns[0].scene.world, folder, inner, r, after);
        if folder.len() > 0 && !path::is_valid(folder) {
            backing::done_at_once(|t, r, s| list::folder_listing_resumes(t, r, s), inner);
        } else {
            store_laws::list_folder_law(folder, inner);
            let found = store_laws::rows_below(all, list::folder_prefix(folder));
            let children = list::listed_views(r->Ok_0@);
            laws::listed_names_lie_in_folder(all, folder, children);
            laws::listing_is_ascending(folder, found, children);
            let lines = child_lines(children);
            reveal_strlit("d  ");
            reveal_strlit("f  ");
            reveal_strlit("  ");
            reveal_strlit("/");
            assert("d  "@ =~= seq!['d', ' ', ' ']);
            assert("f  "@ =~= seq!['f', ' ', ' ']);
            assert("  "@ =~= seq![' ', ' ']);
            assert("/"@ =~= seq!['/']);
            assert(children.map_values(|e: Listed| cli::listed_line(e)) =~= lines);
            printed_is_shown(turns[1].step, lines, Seq::empty());
            if laws::paths_are_clean(all) {
                laws::listed_folder_is_latest(all, folder, children);
                laws::listed_folder_covers(all, folder, children);
                assert forall|k: int|
                    0 <= k < all.len() && (folder.len() == 0 || text::has_prefix(
                        (#[trigger] all[k]).path,
                        folder + seq!['/'],
                    )) implies is_covered(all[k].path, children) by {
                    assert(folder + seq!['/'] =~= folder.push('/'));
                    assert(folder.len() == 0 ==> all[k].path.take(0) =~= folder);
                    assert(text::has_prefix(all[k].path, list::folder_prefix(folder)));
                    let i = choose|i: int|
                        0 <= i < children.len() && ((#[trigger] children[i]).name() == all[k].path
                            || text::has_prefix(all[k].path, children[i].name().push('/')));
                    assert(children[i].name() + seq!['/'] =~= children[i].name().push('/'));
                }
                assert(are_children(all, folder, children));
            }
        }
    }
}

/// Listing all paths prints one line for each path that has a version, in order:
/// the path, and the hash and the identifier of its latest version. Nothing
/// changes.
pub proof fn paths_law(quiet: bool, store: Seq<char>, o: Around, turns: Seq<CommandTurn>)
    requires
        is_run(Command::Paths, quiet, store, o, turns),
        world::in_order(turns[0].scene.world.rows),
    ensures
        turns.last().step matches CliStep::Done(r) ==> {
            let all = turns[0].scene.world.rows;
            &&& r matches Ok(out)
            &&& exists|paths: Seq<Seq<char>>|
                {
                    &&& #[trigger] are_all_paths(all, paths)
                    &&& shows(
                        out,
                        Seq::new(
                            paths.len(),
                            |i: int|
                                {
                                    let latest = world::versions_of(all, paths[i])[0];
                                    paths[i] + seq![' ', ' '] + hash::hex_text(latest.hash) + seq![
                                        ' ',
                                        ' ',
                                    ] + uuid::hyphenated(latest.uuid)
                                },
                        ),
                        Seq::empty(),
                    )
                }
        },
        is_kept(turns),
{
    let all = turns[0].scene.world.rows;
    if turns.len() > 1 {
        assert(leads_on(o, turns, 0));
        if turns.len() > 2 {
            assert(leads_on(o, turns, 1));
        }
        let after = turns[1].scene.world;
        let r = turns[0].reply->Paths_0;
        let inner = choose|inner: Seq<Turn<ListPaths, Vec<PathEntry>>>| #[trigger]
            lists_paths(turns[0].scene.world, inner, r, after);
        store_laws::list_paths_law(inner);
        let listed = list::path_views(r->Ok_0@);
        let paths = cli::paths_in(r->Ok_0@);
        listed_are_all_paths(all, r->Ok_0@);
        laws::listed_paths_are_latest(all, listed);
        let lines = Seq::new(
            paths.len(),
            |i: int|
                {
                    let latest = world::versions_of(all, paths[i])[0];
                    paths[i] + seq![' ', ' '] + hash::hex_text(latest.hash) + seq![' ', ' ']
                        + uuid::hyphenated(latest.uuid)
                },
        );
        reveal_strlit("  ");
        assert("  "@ =~= seq![' ', ' ']);
        assert(listed.map_values(|row: Row| cli::path_line(row)) =~= lines) by {
            assert forall|i: int| 0 <= i < listed.len() implies cli::path_line(listed[i])
                == #[trigger] lines[i] by {
                assert(listed[i].path == paths[i]);
                let latest = world::versions_of(all, listed[i].path);
            }
        }
        printed_is_shown(turns[1].step, lines, Seq::empty());
    }
}

/// These are the paths that have a version, each once and in order.
pub open spec fn are_all_paths(all: Seq<Row>, paths: Seq<Seq<char>>) -> bool {
    &&& forall|i: int, j: int|
        0 <= i < j < paths.len() ==> text::text_before(#[trigger] paths[i], #[trigger] paths[j])
    &&& forall|p: Seq<char>| #[trigger]
        paths.contains(p) <==> world::versions_of(all, p).len() > 0
}

/// The paths that are listed are all.
proof fn listed_are_all_paths(all: Seq<Row>, list: Seq<PathEntry>)
    requires
        world::in_order(all),
        list::lists_paths(all, list::path_views(list)),
    ensures
        are_all_paths(all, cli::paths_in(list)),
{
    let listed = list::path_views(list);
    let paths = cli::paths_in(list);
    laws::listed_paths_are_latest(all, listed);
    assert forall|i: int| 0 <= i < paths.len() implies #[trigger] paths[i] == listed[i].path by {}
    assert forall|i: int, j: int| 0 <= i < j < paths.len() implies text::text_before(
        #[trigger] paths[i],
        #[trigger] paths[j],
    ) by {
        assert(text::text_before(listed[i].path, listed[j].path));
    }
    assert forall|p: Seq<char>| #[trigger]
        paths.contains(p) <==> world::versions_of(all, p).len() > 0 by {
        if paths.contains(p) {
            let i = choose|i: int| 0 <= i < paths.len() && paths[i] == p;
            let latest = world::versions_of(all, listed[i].path);
        }
        if world::versions_of(all, p).len() > 0 {
            let i = choose|i: int| 0 <= i < listed.len() && (#[trigger] listed[i]).path == p;
            assert(paths[i] == p);
        }
    }
}

/// Showing the versions of a path prints one line for each, newest first: its
/// number, from one on, its hash and its identifier. A path without versions
/// prints nothing. Nothing changes.
pub proof fn versions_law(
    path: String,
    quiet: bool,
    store: Seq<char>,
    o: Around,
    turns: Seq<CommandTurn>,
)
    requires
        is_run(Command::Versions { path }, quiet, store, o, turns),
    ensures
        turns.last().step matches CliStep::Done(r) ==> {
            let versions = world::versions_of(turns[0].scene.world.rows, path@);
            if path::is_valid(path@) {
                &&& r matches Ok(out)
                &&& shows(
                    out,
                    Seq::new(
                        versions.len(),
                        |i: int|
                            cli::decimal((i + 1) as nat) + seq![' ', ' '] + hash::hex_text(
                                versions[i].hash,
                            ) + seq![' ', ' '] + uuid::hyphenated(versions[i].uuid),
                    ),
                    Seq::empty(),
                )
            } else {
                r matches Err(e) && e.code() == 1
            }
        },
        is_kept(turns),
{
    if turns.len() > 1 {
        assert(leads_on(o, turns, 0));
        if turns.len() > 2 {
            assert(leads_on(o, turns, 1));
        }
        let w = turns[0].scene.world;
        let versions = world::versions_of(w.rows, path@);
        let r = turns[0].reply->Versions_0;
        let inner = choose|inner: Seq<Turn<ListVersions, Vec<VersionInfo>>>| #[trigger]
            backing::lists_versions(w, path@, inner, r, turns[1].scene.world);
        if path::is_valid(path@) {
            store_laws::versions_law(path@, inner);
            let v = r->Ok_0@;
            let lines = Seq::new(
                versions.len(),
                |i: int|
                    cli::decimal((i + 1) as nat) + seq![' ', ' '] + hash::hex_text(
                        versions[i].hash,
                    ) + seq![' ', ' '] + uuid::hyphenated(versions[i].uuid),
            );
            reveal_strlit("  ");
            assert("  "@ =~= seq![' ', ' ']);
            assert(v.len() == index::version_views(v).len());
            assert(Seq::new(v.len(), |i: int| cli::version_line(i + 1, v[i]@)) =~= lines) by {
                assert forall|i: int| 0 <= i < v.len() implies cli::version_line(i + 1, v[i]@)
                    == #[trigger] lines[i] by {
                    assert(index::version_views(v)[i] == v[i]@);
                }
            }
            printed_is_shown(turns[1].step, lines, Seq::empty());
        } else {
            backing::done_at_once(|t, r, s| list::version_listing_resumes(t, r, s), inner);
        }
    }
}

// ---------------------------------------------------------------------------
// Getting
// ---------------------------------------------------------------------------

/// Some version has the hash.
pub open spec fn has_hash(versions: Seq<Version>, hash: Seq<u8>) -> bool {
    exists|i: int| 0 <= i < versions.len() && (#[trigger] versions[i]).hash == hash
}

/// The command fails with this message, and copies nothing out.
pub open spec fn fails(turns: Seq<CommandTurn>, message: Seq<char>) -> bool {
    &&& turns.last().step matches CliStep::Done(Err(e))
    &&& e.text() == message
    &&& e.code() == 1
    &&& turns.last().scene.out.len() == 0
}

/// The command copies this content out, all of it and nothing else, and says how
/// many bytes that are, unless it is to be quiet.
pub open spec fn gives(turns: Seq<CommandTurn>, content: Seq<u8>, quiet: bool) -> bool {
    &&& turns.last().scene.out == content
    &&& turns.last().step matches CliStep::Done(Ok(out))
    &&& shows(
        out,
        Seq::empty(),
        if quiet {
            Seq::empty()
        } else {
            seq![cli::decimal(content.len()) + seq![' ', 'b', 'y', 't', 'e', 's']]
        },
    )
}

/// What was opened is copied out.
proof fn copying_gives(
    quiet: bool,
    o: Around,
    turns: Seq<CommandTurn>,
    k: int,
    content: Seq<u8>,
)
    requires
        0 <= k < turns.len() - 1,
        forall|i: int| 0 <= i < turns.len() - 1 ==> #[trigger] leads_on(o, turns, i),
        turns[k].step == CliStep::Ask(CliRequest::CopyOut, Run::Copying { quiet }),
        turns[k].scene.out.len() == 0,
        turns[k].scene.held == Some(Held { content, hash: hash::blake3_digest(content) }),
    ensures
        turns.len() == k + 2,
        gives(turns, content, quiet),
        store_laws::is_untouched(turns[k].scene.world, turns.last().scene.world),
{
    assert(leads_on(o, turns, k));
    if turns.len() > k + 2 {
        assert(leads_on(o, turns, k + 1));
    }
    assert(turns[k].scene.out + content =~= content);
    reveal_strlit(" bytes");
    assert(" bytes"@ =~= seq![' ', 'b', 'y', 't', 'e', 's']);
    let lines = if quiet {
        Seq::empty()
    } else {
        seq![cli::decimal(content.len()) + seq![' ', 'b', 'y', 't', 'e', 's']]
    };
    assert(turns[k].reply->Copied_0->Ok_0 as nat == content.len());
    printed_is_shown(turns[k + 1].step, Seq::empty(), lines);
}

/// Getting a path copies out all of the content of its latest version; with a hash
/// it copies out the content that has the hash, where some version of the path has
/// it. A path without versions is not found, nor is a hash that no version of the
/// path has; then nothing is copied out. Nothing changes.
pub proof fn get_law(
    path: String,
    hash: Option<String>,
    quiet: bool,
    store: Seq<char>,
    o: Around,
    turns: Seq<CommandTurn>,
)
    requires
        is_run(Command::Get { path, hash }, quiet, store, o, turns),
        backing::is_sound(turns[0].scene.world),
    ensures
        turns.last().step matches CliStep::Done(r) ==> {
            let w = turns[0].scene.world;
            let versions = world::versions_of(w.rows, path@);
            if hash matches Some(hex) && !hash::is_hex(hex@, 32) {
                r matches Err(e) && e.code() == 2 && turns.last().scene.out.len() == 0
            } else if !path::is_valid(path@) {
                r matches Err(e) && e.code() == 1 && turns.last().scene.out.len() == 0
            } else if versions.len() == 0 {
                fails(turns, "path not found: "@ + path@)
            } else {
                match hash {
                    None => gives(turns, w.blobs[versions[0].hash], quiet),
                    Some(hex) => if has_hash(versions, hash::hex_bytes(hex@)) {
                        gives(turns, w.blobs[hash::hex_bytes(hex@)], quiet)
                    } else {
                        fails(turns, "hash not found: "@ + hex@)
                    },
                }
            }
        },
        turns.last().step is Done ==> is_kept(turns),
{
    let w = turns[0].scene.world;
    let versions = world::versions_of(w.rows, path@);
    if turns.last().step is Done && turns.len() > 1 {
        assert(leads_on(o, turns, 0));
        match hash {
            None => {
                let (inner, r) = choose|
                    inner: Seq<Turn<GetReader, Option<BloxtreeReader>>>,
                    r: Result<Option<BloxtreeReader>, Error>,
                | #[trigger]
                    backing::opens(w, path@, inner, r, turns[1].scene.world) && holds(
                        turns[0].scene,
                        r,
                        turns[0].reply->Opened_0,
                        turns[1].scene,
                    );
                if !path::is_valid(path@) {
                    backing::done_at_once(|t, r, s| get::get_resumes(t, r, s), inner);
                    if turns.len() > 2 {
                        assert(leads_on(o, turns, 1));
                    }
                } else {
                    store_laws::get_reader_law(path@, inner);
                    if versions.len() > 0 {
                        backing::latest_has_its_blob(w, path@);
                        assert(turns.len() > 2);
                        copying_gives(quiet, o, turns, 1, w.blobs[versions[0].hash]);
                    } else if turns.len() > 2 {
                        assert(leads_on(o, turns, 1));
                    }
                }
            },
            Some(hex) => {
                let r = turns[0].reply->Versions_0;
                let inner = choose|inner: Seq<Turn<ListVersions, Vec<VersionInfo>>>| #[trigger]
                    backing::lists_versions(w, path@, inner, r, turns[1].scene.world);
                if !path::is_valid(path@) {
                    backing::done_at_once(|t, r, s| list::version_listing_resumes(t, r, s), inner);
                    if turns.len() > 2 {
                        assert(leads_on(o, turns, 1));
                    }
                } else {
                    store_laws::versions_law(path@, inner);
                    let v = r->Ok_0@;
                    let wanted = hash::hex_bytes(hex@);
                    let hashes = cli::hashes_of(v);
                    assert(index::version_views(v) == versions);
                    assert(v.len() == versions.len());
                    assert forall|i: int| 0 <= i < v.len() implies hashes[i]
                        == (#[trigger] versions[i]).hash by {
                        assert(index::version_views(v)[i] == v[i]@);
                    }
                    assert(hashes.contains(wanted) <==> has_hash(versions, wanted)) by {
                        if hashes.contains(wanted) {
                            let i = choose|i: int| 0 <= i < hashes.len() && hashes[i] == wanted;
                            assert(versions[i].hash == wanted);
                        }
                        if has_hash(versions, wanted) {
                            let i = choose|i: int|
                                0 <= i < versions.len() && (#[trigger] versions[i]).hash == wanted;
                            assert(hashes[i] == wanted);
                        }
                    }
                    if has_hash(versions, wanted) {
                        let i = choose|i: int|
                            0 <= i < versions.len() && (#[trigger] versions[i]).hash == wanted;
                        let row = backing::version_is_a_row(w.rows, path@, i);
                        assert(backing::has_its_blob(w, w.rows[row]));
                        assert(turns.len() > 2);
                        assert(leads_on(o, turns, 1));
                        let h = turns[1].step->Ask_0->OpenHash_hash;
                        let (second, b) = choose|
                            second: Seq<Turn<GetReader, Option<BloxtreeReader>>>,
                            b: Result<Option<BloxtreeReader>, Error>,
                        | #[trigger]
                            opens_blob(
                                turns[1].scene.world,
                                h,
                                second,
                                b,
                                turns[2].scene.world,
                            ) && holds(
                                turns[1].scene,
                                b,
                                turns[1].reply->Opened_0,
                                turns[2].scene,
                            );
                        store_laws::get_by_hash_law(h, second);
                        assert(turns.len() > 3);
                        copying_gives(quiet, o, turns, 2, w.blobs[wanted]);
                    } else if turns.len() > 2 {
                        assert(leads_on(o, turns, 1));
                    }
                }
            },
        }
    }
}

// ---------------------------------------------------------------------------
// The summary
// ---------------------------------------------------------------------------

/// The hashes of the versions of a path.
pub open spec fn hashes_at(all: Seq<Row>) -> spec_fn(Seq<char>) -> Seq<Seq<u8>> {
    |p: Seq<char>| world::versions_of(all, p).map_values(|v: Version| v.hash)
}

/// How many rows the first `n` paths have.
proof fn gathered_are_rows(all: Seq<Row>, paths: Seq<Seq<char>>, n: nat)
    requires
        are_all_paths(all, paths),
        n <= paths.len(),
    ensures
        cli_laws::gathered(paths, hashes_at(all), n).len() == all.filter(
            |r: Row| paths.take(n as int).contains(r.path),
        ).len(),
        forall|h: Seq<u8>| #[trigger]
            cli_laws::gathered(paths, hashes_at(all), n).contains(h) <==> exists|k: int|
                0 <= k < all.len() && (#[trigger] all[k]).hash == h && paths.take(
                    n as int,
                ).contains(all[k].path),
    decreases n,
{
    let hashes = hashes_at(all);
    let here = |r: Row| paths.take(n as int).contains(r.path);
    if n == 0 {
        let none = |r: Row| false;
        assert forall|i: int| 0 <= i < all.len() implies here(#[trigger] all[i]) == none(
            all[i],
        ) by {}
        rows::filter_agrees(all, here, none);
        if all.filter(none).len() > 0 {
            let x = all.filter(none)[0];
            assert(all.filter(none).contains(x));
            rows::filter_contains(all, none, x);
        }
    } else {
        let m = (n - 1) as nat;
        let last = paths[m as int];
        let before = |r: Row| paths.take(m as int).contains(r.path);
        let at = |r: Row| r.path == last;
        let either = |r: Row| before(r) || at(r);
        gathered_are_rows(all, paths, m);
        let a = cli_laws::gathered(paths, hashes, m);
        let b = hashes(last);
        assert(paths.take(n as int) =~= paths.take(m as int).push(last));
        assert forall|p: Seq<char>| #[trigger] paths.take(n as int).contains(p) <==> paths.take(
            m as int,
        ).contains(p) || p == last by {
            if paths.take(m as int).contains(p) {
                let i = choose|i: int| 0 <= i < m && paths.take(m as int)[i] == p;
                assert(paths.take(n as int)[i] == p);
            }
            if p == last {
                assert(paths.take(n as int)[m as int] == p);
            }
            if paths.take(n as int).contains(p) && p != last {
                let i = choose|i: int| 0 <= i < n && paths.take(n as int)[i] == p;
                assert(paths.take(m as int)[i] == p);
            }
        }
        assert(!paths.take(m as int).contains(last)) by {
            if paths.take(m as int).contains(last) {
                let i = choose|i: int| 0 <= i < m && paths.take(m as int)[i] == last;
                assert(text::text_before(paths[i], paths[m as int]));
                text::before_irreflexive(text::codes(last));
            }
        }
        rows::filter_either(all, before, at);
        assert forall|i: int| 0 <= i < all.len() implies here(#[trigger] all[i]) == either(
            all[i],
        ) by {
            assert(paths.take(n as int).contains(all[i].path) <==> paths.take(m as int).contains(
                all[i].path,
            ) || all[i].path == last);
        }
        rows::filter_agrees(all, here, either);
        assert(b.len() == world::rows_at(all, last).len());
        assert forall|h: Seq<u8>| #[trigger] (a + b).contains(h) <==> exists|k: int|
            0 <= k < all.len() && (#[trigger] all[k]).hash == h && paths.take(n as int).contains(
                all[k].path,
            ) by {
            if (a + b).contains(h) {
                let i = choose|i: int| 0 <= i < (a + b).len() && (a + b)[i] == h;
                if i < a.len() {
                    assert(a[i] == h);
                    assert(a.contains(h));
                    let k = choose|k: int|
                        0 <= k < all.len() && (#[trigger] all[k]).hash == h && paths.take(
                            m as int,
                        ).contains(all[k].path);
                    assert(paths.take(n as int).contains(all[k].path));
                } else {
                    assert(b[i - a.len()] == h);
                    let k = backing::version_is_a_row(all, last, i - a.len());
                    assert(all[k].hash == h);
                    assert(paths.take(n as int).contains(all[k].path));
                }
            }
            if exists|k: int|
                0 <= k < all.len() && (#[trigger] all[k]).hash == h && paths.take(
                    n as int,
                ).contains(all[k].path) {
                let k = choose|k: int|
                    0 <= k < all.len() && (#[trigger] all[k]).hash == h && paths.take(
                        n as int,
                    ).contains(all[k].path);
                if paths.take(m as int).contains(all[k].path) {
                    assert(a.contains(h));
                    let i = choose|i: int| 0 <= i < a.len() && a[i] == h;
                    assert((a + b)[i] == h);
                } else {
                    let found = all.filter(at);
                    assert(all.contains(all[k]));
                    rows::filter_contains(all, at, all[k]);
                    let j = choose|j: int| 0 <= j < found.len() && found[j] == all[k];
                    let i = found.len() - 1 - j;
                    assert(found.reverse()[i] == all[k]);
                    assert(b[i] == h);
                    assert((a + b)[a.len() + i] == h);
                }
            }
        }
    }
}

/// The summary is at every turn where it should be, and the store as it was.
proof fn info_is_placed(
    quiet: bool,
    store: Seq<char>,
    o: Around,
    turns: Seq<CommandTurn>,
    paths: Seq<Seq<char>>,
    k: int,
)
    requires
        is_run(Command::Info, quiet, store, o, turns),
        world::in_order(turns[0].scene.world.rows),
        removal_laws::paths_are_valid(turns[0].scene.world.rows),
        are_all_paths(turns[0].scene.world.rows, paths),
        0 <= k < turns.len(),
    ensures
        cli_laws::info_state(store, paths, hashes_at(turns[0].scene.world.rows), turns[k].step),
        store_laws::is_untouched(turns[0].scene.world, turns[k].scene.world),
    decreases k,
{
    let all = turns[0].scene.world.rows;
    let hashes = hashes_at(all);
    if k > 0 {
        info_is_placed(quiet, store, o, turns, paths, k - 1);
        assert(leads_on(o, turns, k - 1));
        let w = turns[k - 1].scene.world;
        let after = turns[k].scene.world;
        match turns[k - 1].step {
            CliStep::Ask(CliRequest::Paths, _) => {
                let r = turns[k - 1].reply->Paths_0;
                let inner = choose|inner: Seq<Turn<ListPaths, Vec<PathEntry>>>| #[trigger]
                    lists_paths(w, inner, r, after);
                store_laws::list_paths_law(inner);
                let v = r->Ok_0@;
                listed_are_all_paths(all, v);
                let given = cli::paths_in(v);
                assert forall|p: Seq<char>| #[trigger] given.contains(p) <==> paths.contains(p) by {
                    assert(paths.contains(p) <==> world::versions_of(all, p).len() > 0);
                }
                pathset::ascending_is_unique(given, paths);
            },
            CliStep::Ask(CliRequest::Versions { path }, _) => {
                let r = turns[k - 1].reply->Versions_0;
                let inner = choose|inner: Seq<Turn<ListVersions, Vec<VersionInfo>>>| #[trigger]
                    backing::lists_versions(w, path@, inner, r, after);
                assert(path::is_valid(path@)) by {
                    assert(paths.contains(path@));
                    let j = backing::version_is_a_row(all, path@, 0);
                    assert(path::is_valid(all[j].path));
                }
                store_laws::versions_law(path@, inner);
                let v = r->Ok_0@;
                assert(cli::hashes_of(v) =~= hashes(path@)) by {
                    let views = index::version_views(v);
                    assert(views == world::versions_of(all, path@));
                    assert(v.len() == views.len());
                    assert forall|i: int| 0 <= i < v.len() implies cli::hashes_of(v)[i] == hashes(
                        path@,
                    )[i] by {
                        assert(views[i] == v[i]@);
                    }
                }
            },
            _ => {},
        }
    }
}

/// The summary tells where the store and its parts are, how many paths have a
/// version, how many versions there are, and how many different hashes these have.
/// Nothing changes.
pub proof fn info_law(quiet: bool, store: Seq<char>, o: Around, turns: Seq<CommandTurn>)
    requires
        is_run(Command::Info, quiet, store, o, turns),
        world::in_order(turns[0].scene.world.rows),
        removal_laws::paths_are_valid(turns[0].scene.world.rows),
    ensures
        turns.last().step matches CliStep::Done(r) ==> {
            let all = turns[0].scene.world.rows;
            let paths = all.map_values(|r: Row| r.path).to_set();
            let hashes = all.map_values(|r: Row| r.hash).to_set();
            &&& r matches Ok(out)
            &&& shows(
                out,
                seq![
                    "store:    "@ + store,
                    "objects:  "@ + store + "/objects"@,
                    "index:    "@ + store + "/index.db"@,
                    "paths:    "@ + cli::decimal(paths.len()),
                    "versions: "@ + cli::decimal(all.len()),
                    "blobs:    "@ + cli::decimal(hashes.len()),
                ],
                Seq::empty(),
            )
        },
        is_kept(turns),
{
    let w = turns[0].scene.world;
    let all = w.rows;
    if turns.len() == 1 {
    } else {
        assert(leads_on(o, turns, 0));
        let r = turns[0].reply->Paths_0;
        let inner = choose|inner: Seq<Turn<ListPaths, Vec<PathEntry>>>| #[trigger]
            lists_paths(w, inner, r, turns[1].scene.world);
        store_laws::list_paths_law(inner);
        let paths = cli::paths_in(r->Ok_0@);
        listed_are_all_paths(all, r->Ok_0@);
        info_is_placed(quiet, store, o, turns, paths, turns.len() - 1);
        let n = paths.len();
        let gathered = cli_laws::gathered(paths, hashes_at(all), n);
        gathered_are_rows(all, paths, n);
        let here = |r: Row| paths.take(n as int).contains(r.path);
        assert(paths.take(n as int) =~= paths);
        assert forall|i: int| 0 <= i < all.len() implies here(#[trigger] all[i]) by {
            backing::row_is_there(w, i);
            assert(paths.contains(all[i].path));
        }
        rows::filter_keeps_all(all, here);
        assert(gathered.len() == all.len());
        let row_paths = all.map_values(|r: Row| r.path);
        let row_hashes = all.map_values(|r: Row| r.hash);
        assert(gathered.to_set() =~= row_hashes.to_set()) by {
            assert forall|h: Seq<u8>| gathered.contains(h) <==> row_hashes.contains(h) by {
                if gathered.contains(h) {
                    let k = choose|k: int|
                        0 <= k < all.len() && (#[trigger] all[k]).hash == h && paths.take(
                            n as int,
                        ).contains(all[k].path);
                    assert(row_hashes[k] == h);
                }
                if row_hashes.contains(h) {
                    let k = choose|k: int| 0 <= k < row_hashes.len() && row_hashes[k] == h;
                    assert(all[k].hash == h && here(all[k]));
                }
            }
        }
        assert(paths.to_set() =~= row_paths.to_set()) by {
            assert forall|p: Seq<char>| paths.contains(p) <==> row_paths.contains(p) by {
                if paths.contains(p) {
                    let k = backing::version_is_a_row(all, p, 0);
                    assert(row_paths[k] == p);
                }
                if row_paths.contains(p) {
                    let k = choose|k: int| 0 <= k < row_paths.len() && row_paths[k] == p;
                    assert(here(all[k]));
                }
            }
        }
        assert(paths.no_duplicates()) by {
            assert forall|i: int, j: int| 0 <= i < paths.len() && 0 <= j < paths.len() && i
                != j implies paths[i] != paths[j] by {
                text::before_irreflexive(text::codes(paths[i]));
                if i < j {
                    assert(text::text_before(paths[i], paths[j]));
                } else {
                    assert(text::text_before(paths[j], paths[i]));
                }
            }
        }
        paths.unique_seq_to_set();
        if turns.last().step is Done {
            let lines = seq![
                "store:    "@ + store,
                "objects:  "@ + store + "/objects"@,
                "index:    "@ + store + "/index.db"@,
                "paths:    "@ + cli::decimal(row_paths.to_set().len()),
                "versions: "@ + cli::decimal(all.len()),
                "blobs:    "@ + cli::decimal(row_hashes.to_set().len()),
            ];
            assert(cli::info_lines(store, n, gathered) =~= lines);
            printed_is_shown(turns.last().step, lines, Seq::empty());
        }
    }
}

} // verus!
