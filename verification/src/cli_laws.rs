//! What a command prints in the end.

use vstd::prelude::*;

use crate::cli;
use crate::cli::{CliReply, CliRequest, CliStep, Command, Run};
use crate::hash;
use crate::index;

verus! {

/// One moment of a command: where it stands, and the reply that it is about to
/// get.
pub struct CliTurn {
    pub step: CliStep,
    pub reply: CliReply,
}

/// The reply is what a store gives that holds these paths, with versions of
/// these hashes.
pub open spec fn answers(
    paths: Seq<Seq<char>>,
    hashes: spec_fn(Seq<char>) -> Seq<Seq<u8>>,
    request: CliRequest,
    reply: CliReply,
) -> bool {
    match request {
        CliRequest::Paths => reply matches CliReply::Paths(Ok(v)) && cli::paths_in(v@) == paths,
        CliRequest::Versions { path } => reply matches CliReply::Versions(Ok(v)) && cli::hashes_of(
            v@,
        ) == hashes(path@),
        CliRequest::OpenPath { path } => reply matches CliReply::Opened(Ok(there)) && (there
            ==> hashes(path@).len() > 0),
        _ => true,
    }
}

/// Turn `i` leads to the next.
pub open spec fn leads_on(
    paths: Seq<Seq<char>>,
    hashes: spec_fn(Seq<char>) -> Seq<Seq<u8>>,
    turns: Seq<CliTurn>,
    i: int,
) -> bool {
    match turns[i].step {
        CliStep::Done(_) => false,
        CliStep::Ask(request, task) => {
            &&& answers(paths, hashes, request, turns[i].reply)
            &&& cli::command_resumes(task, turns[i].reply, turns[i + 1].step)
        },
    }
}

/// The hashes of all versions of the first `n` paths, in order.
pub open spec fn gathered(
    paths: Seq<Seq<char>>,
    hashes: spec_fn(Seq<char>) -> Seq<Seq<u8>>,
    n: nat,
) -> Seq<Seq<u8>>
    decreases n,
{
    if n == 0 {
        Seq::empty()
    } else {
        gathered(paths, hashes, (n - 1) as nat) + hashes(paths[n - 1])
    }
}

/// Where the summary stands.
pub open spec fn info_state(
    store: Seq<char>,
    paths: Seq<Seq<char>>,
    hashes: spec_fn(Seq<char>) -> Seq<Seq<u8>>,
    step: CliStep,
) -> bool {
    match step {
        CliStep::Ask(request, Run::Surveying { store: s }) => request is Paths && s@ == store,
        CliStep::Ask(request, Run::Counting { store: s, paths: q, next, hashes: h }) => {
            &&& s@ == store
            &&& index::texts(q@) == paths
            &&& next < paths.len()
            &&& index::hash_views(h@) == gathered(paths, hashes, next as nat)
            &&& request matches CliRequest::Versions { path: p }
            &&& p@ == paths[next as int]
        },
        CliStep::Ask(..) => false,
        CliStep::Done(_) => cli::prints(
            step,
            cli::info_lines(store, paths.len(), gathered(paths, hashes, paths.len())),
            Seq::empty(),
        ),
    }
}

/// The summary counts every path once, every version of every path, and every
/// hash once.
pub proof fn info_law(
    quiet: bool,
    store: Seq<char>,
    paths: Seq<Seq<char>>,
    hashes: spec_fn(Seq<char>) -> Seq<Seq<u8>>,
    turns: Seq<CliTurn>,
    k: int,
)
    requires
        0 <= k < turns.len(),
        cli::command_starts(Command::Info, quiet, store, turns[0].step),
        forall|i: int| 0 <= i < turns.len() - 1 ==> #[trigger] leads_on(paths, hashes, turns, i),
    ensures
        info_state(store, paths, hashes, turns[k].step),
    decreases k,
{
    if k > 0 {
        info_law(quiet, store, paths, hashes, turns, k - 1);
        assert(leads_on(paths, hashes, turns, k - 1));
    }
}

/// The number that digits stand for, the most significant first.
pub open spec fn number_of(digits: Seq<char>) -> int
    decreases digits.len(),
{
    if digits.len() == 0 {
        0
    } else {
        10 * number_of(digits.drop_last()) + (digits.last() as int - '0' as int)
    }
}

/// A number in decimal stands for the number: it has digits only, the first of
/// which is a zero for the number zero alone.
pub proof fn decimal_law(n: nat)
    ensures
        number_of(cli::decimal(n)) == n,
        cli::decimal(n).len() > 0,
        forall|i: int|
            0 <= i < cli::decimal(n).len() ==> '0' <= (#[trigger] cli::decimal(n)[i]) <= '9',
        cli::decimal(n)[0] == '0' ==> n == 0,
        n == 0 ==> cli::decimal(n).len() == 1,
    decreases n,
{
    let d = cli::decimal(n);
    if n < 10 {
        assert(d.drop_last() =~= Seq::<char>::empty());
        assert(number_of(d.drop_last()) == 0);
    } else {
        decimal_law(n / 10);
        assert(d.drop_last() =~= cli::decimal(n / 10));
        assert(d[0] == cli::decimal(n / 10)[0]);
        assert forall|i: int| 0 <= i < d.len() implies '0' <= (#[trigger] d[i]) <= '9' by {
            if i < d.len() - 1 {
                assert(d[i] == cli::decimal(n / 10)[i]);
            }
        }
    }
}

/// Where a get stands.
pub open spec fn get_state(
    path: Seq<char>,
    hash: Option<Seq<u8>>,
    hashes: spec_fn(Seq<char>) -> Seq<Seq<u8>>,
    step: CliStep,
) -> bool {
    match step {
        CliStep::Ask(request, Run::OpeningPath { path: o, .. }) => {
            &&& hash is None
            &&& request matches CliRequest::OpenPath { path: p }
            &&& p@ == path
            &&& o@ == path
        },
        CliStep::Ask(request, Run::FindingVersion { path: o, hash: h, .. }) => {
            &&& hash == Some(h@)
            &&& request matches CliRequest::Versions { path: p }
            &&& p@ == path
            &&& o@ == path
        },
        CliStep::Ask(request, Run::OpeningHash { .. }) => {
            &&& request matches CliRequest::OpenHash { hash: h }
            &&& hash == Some(h@)
            &&& hashes(path).contains(h@)
        },
        CliStep::Ask(request, Run::Copying { .. }) => {
            &&& request is CopyOut
            &&& hashes(path).len() > 0
            &&& hash matches Some(h) ==> hashes(path).contains(h)
        },
        CliStep::Ask(..) => false,
        CliStep::Done(r) => r is Ok ==> {
            &&& hashes(path).len() > 0
            &&& hash matches Some(h) ==> hashes(path).contains(h)
        },
    }
}

/// A get of a path without versions fails and copies nothing out, also where it
/// asks for a blob that the store holds; so does one for a hash that no version
/// of the path has.
pub proof fn get_law(
    path: String,
    hash: Option<String>,
    quiet: bool,
    store: Seq<char>,
    paths: Seq<Seq<char>>,
    hashes: spec_fn(Seq<char>) -> Seq<Seq<u8>>,
    turns: Seq<CliTurn>,
    k: int,
)
    requires
        0 <= k < turns.len(),
        cli::command_starts(Command::Get { path, hash }, quiet, store, turns[0].step),
        forall|i: int| 0 <= i < turns.len() - 1 ==> #[trigger] leads_on(paths, hashes, turns, i),
    ensures
        ({
            let found = hashes(path@).len() > 0 && (hash matches Some(hex) ==> hash::is_hex(hex@, 32)
                && hashes(path@).contains(hash::hex_bytes(hex@)));
            &&& turns[k].step matches CliStep::Done(Ok(_)) ==> found
            &&& turns[k].step matches CliStep::Ask(CliRequest::CopyOut, _) ==> found
        }),
{
    let wanted = match hash {
        Some(hex) => Some(hash::hex_bytes(hex@)),
        None => None,
    };
    if hash matches Some(hex) && !hash::is_hex(hash->0@, 32) {
        if turns.len() > 1 {
            assert(leads_on(paths, hashes, turns, 0));
        }
    } else {
        get_is_placed(path@, wanted, paths, hashes, turns, k);
    }
}

/// A get is at every turn where it should be.
proof fn get_is_placed(
    path: Seq<char>,
    hash: Option<Seq<u8>>,
    paths: Seq<Seq<char>>,
    hashes: spec_fn(Seq<char>) -> Seq<Seq<u8>>,
    turns: Seq<CliTurn>,
    k: int,
)
    requires
        0 <= k < turns.len(),
        get_state(path, hash, hashes, turns[0].step),
        forall|i: int| 0 <= i < turns.len() - 1 ==> #[trigger] leads_on(paths, hashes, turns, i),
    ensures
        get_state(path, hash, hashes, turns[k].step),
    decreases k,
{
    if k > 0 {
        get_is_placed(path, hash, paths, hashes, turns, k - 1);
        assert(leads_on(paths, hashes, turns, k - 1));
        if let CliReply::Versions(Ok(v)) = turns[k - 1].reply {
            assert(cli::hashes_of(v@).len() == v@.len());
        }
    }
}

} // verus!
