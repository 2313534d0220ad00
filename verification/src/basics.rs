//! What paths, texts, columns and the reader mean.

use vstd::prelude::*;
use vstd::string::*;
use vstd::utf8::*;

use crate::add;
use crate::add::{Add, AddResult};
use crate::error::{Error, ErrorView, IoErrorKind};
use crate::get;
use crate::get::{PathStat, StatPath};
use crate::hash;
use crate::index;
use crate::index::{Entry, EntryRow, Query, Row, Value, Version, VersionInfo, VersionRow};
use crate::laws;
use crate::list;
use crate::list::{CommonPrefixEntry, Listed, PathEntry};
use crate::path;
use crate::reader;
use crate::reader::BloxtreeReader;
use crate::store::Source;
use crate::store_laws;
use crate::talk::{Reply, Step};
use crate::text;
use crate::tree;
use crate::uuid;
use crate::world;
use crate::world::Turn;

verus! {

// ---------------------------------------------------------------------------
// Paths
// ---------------------------------------------------------------------------

/// The numbers of the characters that are white space.
pub open spec fn white_space() -> Seq<int> {
    seq![
        0x9,
        0xa,
        0xb,
        0xc,
        0xd,
        0x20,
        0x85,
        0xa0,
        0x1680,
        0x2000,
        0x2001,
        0x2002,
        0x2003,
        0x2004,
        0x2005,
        0x2006,
        0x2007,
        0x2008,
        0x2009,
        0x200a,
        0x2028,
        0x2029,
        0x202f,
        0x205f,
        0x3000,
    ]
}

/// The character is white space.
pub proof fn white_space_law(c: char)
    ensures
        path::is_white_space(c) <==> exists|i: int|
            0 <= i < 25 && #[trigger] white_space()[i] == c as int,
{
    let w = white_space();
    if path::is_white_space(c) {
        let n = c as int;
        let i = if n <= 0xd {
            n - 0x9
        } else if n == 0x20 {
            5
        } else if n == 0x85 {
            6
        } else if n == 0xa0 {
            7
        } else if n == 0x1680 {
            8
        } else if n <= 0x200a {
            n - 0x2000 + 9
        } else if n == 0x2028 {
            20
        } else if n == 0x2029 {
            21
        } else if n == 0x202f {
            22
        } else if n == 0x205f {
            23
        } else {
            24
        };
        assert(w[i] == n);
    }
}

/// A path is valid if it is not empty, holds no null character, and neither begins
/// nor ends with white space or a slash. Where it is not, the first of these that
/// fails is what is wrong with it.
pub proof fn path_law(p: Seq<char>)
    ensures
        path::is_valid(p) <==> {
            &&& p.len() > 0
            &&& forall|i: int| 0 <= i < p.len() ==> #[trigger] p[i] != '\0'
            &&& !path::is_white_space(p[0]) && !path::is_white_space(p[p.len() - 1])
            &&& p[0] != '/' && p[p.len() - 1] != '/'
        },
        p.len() == 0 ==> path::path_problem(p) == Some("path is empty"@),
        p.contains('\0') ==> path::path_problem(p) == Some("path contains null byte"@),
        p.len() > 0 && !p.contains('\0') && path::is_white_space(p[0]) ==> path::path_problem(p)
            == Some("path has leading or trailing whitespace"@),
        p.len() > 0 && !p.contains('\0') && path::is_white_space(p[p.len() - 1])
            ==> path::path_problem(p) == Some("path has leading or trailing whitespace"@),
        p.len() > 0 && !p.contains('\0') && p[0] == '/' && !path::is_white_space(p[p.len() - 1])
            ==> path::path_problem(p) == Some("path is not allowed to start with a slash"@),
        p.len() > 0 && !p.contains('\0') && p[p.len() - 1] == '/' && p[0] != '/'
            && !path::is_white_space(p[0]) ==> path::path_problem(p) == Some(
            "path is not allowed to end with a slash"@,
        ),
{
    if !p.contains('\0') {
        assert forall|i: int| 0 <= i < p.len() implies #[trigger] p[i] != '\0' by {
            assert(p.contains(p[i]));
        }
    }
}

/// What is wrong with a list of paths is what is wrong with the first of them that
/// is not valid.
pub proof fn first_problem_law(paths: Seq<Seq<char>>)
    ensures
        match add::first_problem(paths) {
            None => forall|i: int|
                0 <= i < paths.len() ==> path::is_valid(#[trigger] paths[i]),
            Some(why) => exists|i: int|
                {
                    &&& 0 <= i < paths.len()
                    &&& path::path_problem(#[trigger] paths[i]) == Some(why)
                    &&& forall|j: int| 0 <= j < i ==> path::is_valid(#[trigger] paths[j])
                },
        },
    decreases paths.len(),
{
    if add::first_problem(paths) is None {
        assert forall|i: int| 0 <= i < paths.len() implies path::is_valid(#[trigger] paths[i]) by {
            laws::valid_where_no_problem(paths, i);
        }
    } else if path::path_problem(paths[0]) is None {
        let rest = paths.skip(1);
        first_problem_law(rest);
        let why = add::first_problem(paths)->0;
        let k = choose|i: int|
            {
                &&& 0 <= i < rest.len()
                &&& path::path_problem(#[trigger] rest[i]) == Some(why)
                &&& forall|j: int| 0 <= j < i ==> path::is_valid(#[trigger] rest[j])
            };
        assert(paths[k + 1] == rest[k]);
        assert forall|j: int| 0 <= j < k + 1 implies path::is_valid(#[trigger] paths[j]) by {
            if j > 0 {
                assert(rest[j - 1] == paths[j]);
            }
        }
    }
}

/// The conversation ends with an error that says this.
pub open spec fn ends_with<T, R>(step: Step<T, R>, said: ErrorView) -> bool {
    step matches Step::Done(Err(e)) && e@ == said
}

/// Adding begins only where there are paths and all of them are valid.
pub proof fn add_is_refused(paths: Seq<Seq<char>>, source: Source, step: Step<Add, AddResult>)
    requires
        add::add_starts(paths, source, step),
    ensures
        step is Ask <==> paths.len() > 0 && forall|i: int|
            0 <= i < paths.len() ==> path::is_valid(#[trigger] paths[i]),
        paths.len() == 0 ==> ends_with(step, ErrorView::Other("no paths given"@)),
        forall|i: int|
            #![trigger paths[i]]
            0 <= i < paths.len() && !path::is_valid(paths[i]) && (forall|j: int|
                0 <= j < i ==> path::is_valid(#[trigger] paths[j])) ==> ends_with(
                step,
                ErrorView::InvalidPath(path::path_problem(paths[i])->0),
            ),
{
    first_problem_law(paths);
    assert forall|i: int|
        #![trigger paths[i]]
        0 <= i < paths.len() && !path::is_valid(paths[i]) && (forall|j: int|
            0 <= j < i ==> path::is_valid(#[trigger] paths[j])) implies ends_with(
        step,
        ErrorView::InvalidPath(path::path_problem(paths[i])->0),
    ) by {
        let why = add::first_problem(paths)->0;
        let k = choose|k: int|
            {
                &&& 0 <= k < paths.len()
                &&& path::path_problem(#[trigger] paths[k]) == Some(why)
                &&& forall|j: int| 0 <= j < k ==> path::is_valid(#[trigger] paths[j])
            };
        assert(path::is_valid(paths[k]) <==> false);
        assert(i == k);
    }
}

// ---------------------------------------------------------------------------
// Texts and hexadecimal forms
// ---------------------------------------------------------------------------

/// Texts are ordered by the first character in which they differ; a text comes
/// before those that it begins.
pub proof fn text_order_law(head: Seq<char>, a: Seq<char>, b: Seq<char>)
    ensures
        a.len() > 0 && b.len() > 0 && a[0] < b[0] ==> text::text_before(head + a, head + b),
        b.len() > 0 ==> text::text_before(head, head + b),
        !text::text_before(a, a),
        text::text_before(a, b) ==> !text::text_before(b, a),
        a == b || text::text_before(a, b) || text::text_before(b, a),
{
    let n = head.len() as int;
    let x = text::codes(head + a);
    let y = text::codes(head + b);
    let h = text::codes(head);
    if a.len() > 0 && b.len() > 0 && a[0] < b[0] {
        assert(x.take(n) =~= y.take(n));
        assert(text::smaller_at(x, y, n));
    }
    if b.len() > 0 {
        assert(h.take(n) =~= y.take(n));
        assert(text::smaller_at(h, y, n));
    }
    text::before_irreflexive(text::codes(a));
    if text::text_before(a, b) {
        text::before_asymmetric(text::codes(a), text::codes(b));
    }
    if !text::text_before(a, b) && !text::text_before(b, a) {
        text::before_total(text::codes(a), text::codes(b));
        text::codes_injective(a, b);
    }
}

/// The digits of a hexadecimal form.
pub open spec fn hex_digits() -> Seq<char> {
    seq!['0', '1', '2', '3', '4', '5', '6', '7', '8', '9', 'a', 'b', 'c', 'd', 'e', 'f']
}

/// A hexadecimal form has two digits for each byte, first that of the sixteens, in
/// lower case.
pub proof fn hex_law(bytes: Seq<u8>, i: int)
    requires
        0 <= i < bytes.len(),
    ensures
        hash::hex_text(bytes).len() == 2 * bytes.len(),
        hash::hex_text(bytes)[2 * i] == hex_digits()[bytes[i] as int / 16],
        hash::hex_text(bytes)[2 * i + 1] == hex_digits()[bytes[i] as int % 16],
{
    assert((2 * i) % 2 == 0 && (2 * i) / 2 == i);
    assert((2 * i + 1) % 2 == 1 && (2 * i + 1) / 2 == i);
    digit_law(bytes[i] as int / 16);
    digit_law(bytes[i] as int % 16);
}

/// A digit stands for its place in the list of digits, in lower case and in upper
/// case.
pub proof fn digit_law(n: int)
    requires
        0 <= n < 16,
    ensures
        hash::hex_digit(n) == hex_digits()[n],
        hash::hex_value(hex_digits()[n]) == Some(n),
        n >= 10 ==> hash::hex_value((hex_digits()[n] as int - 'a' as int + 'A' as int) as char)
            == Some(n),
{
}

/// What is no hexadecimal digit has no value.
pub proof fn no_digit_law(c: char)
    ensures
        hash::hex_value(c) is Some <==> '0' <= c <= '9' || 'a' <= c <= 'f' || 'A' <= c <= 'F',
{
}

/// An identifier is shown as its hexadecimal form, with hyphens after the fourth,
/// sixth, eighth and tenth byte.
pub proof fn hyphenated_law(bytes: Seq<u8>)
    requires
        bytes.len() == 16,
    ensures
        ({
            let shown = uuid::hyphenated(bytes);
            let hex = hash::hex_text(bytes);
            &&& shown.len() == 36
            &&& shown[8] == '-' && shown[13] == '-' && shown[18] == '-' && shown[23] == '-'
            &&& shown.subrange(0, 8) == hex.subrange(0, 8)
            &&& shown.subrange(9, 13) == hex.subrange(8, 12)
            &&& shown.subrange(14, 18) == hex.subrange(12, 16)
            &&& shown.subrange(19, 23) == hex.subrange(16, 20)
            &&& shown.subrange(24, 36) == hex.subrange(20, 32)
        }),
{
    let shown = uuid::hyphenated(bytes);
    let hex = hash::hex_text(bytes);
    part_of_hex(bytes, 0, 4);
    part_of_hex(bytes, 4, 6);
    part_of_hex(bytes, 6, 8);
    part_of_hex(bytes, 8, 10);
    part_of_hex(bytes, 10, 16);
    let a = hash::hex_text(bytes.subrange(0, 4));
    let b = hash::hex_text(bytes.subrange(4, 6));
    let c = hash::hex_text(bytes.subrange(6, 8));
    let d = hash::hex_text(bytes.subrange(8, 10));
    let e = hash::hex_text(bytes.subrange(10, 16));
    assert(shown == a.push('-') + b.push('-') + c.push('-') + d.push('-') + e);
    assert(shown.subrange(0, 8) =~= a);
    assert(shown.subrange(9, 13) =~= b);
    assert(shown.subrange(14, 18) =~= c);
    assert(shown.subrange(19, 23) =~= d);
    assert(shown.subrange(24, 36) =~= e);
}

/// The hexadecimal form of some of the bytes is a part of that of all.
proof fn part_of_hex(bytes: Seq<u8>, from: int, to: int)
    requires
        0 <= from <= to <= bytes.len(),
    ensures
        hash::hex_text(bytes.subrange(from, to)) == hash::hex_text(bytes).subrange(
            2 * from,
            2 * to,
        ),
{
    let part = bytes.subrange(from, to);
    let a = hash::hex_text(part);
    let b = hash::hex_text(bytes).subrange(2 * from, 2 * to);
    assert forall|i: int| 0 <= i < a.len() implies a[i] == b[i] by {
        assert((2 * from + i) % 2 == i % 2);
        assert((2 * from + i) / 2 == from + i / 2);
        assert(part[i / 2] == bytes[from + i / 2]);
    }
    assert(a =~= b);
}

/// An identifier is older than another if it is smaller in the first byte in which
/// they differ.
pub proof fn older_law(head: Seq<u8>, a: Seq<u8>, b: Seq<u8>)
    requires
        a.len() > 0,
        b.len() > 0,
        a[0] < b[0],
    ensures
        uuid::older(head + a, head + b),
        !uuid::older(head + b, head + a),
        !uuid::older(head + a, head + a),
{
    let n = head.len() as int;
    let x = text::octets(head + a);
    let y = text::octets(head + b);
    assert(x.take(n) =~= y.take(n));
    assert(text::smaller_at(x, y, n));
    text::before_asymmetric(x, y);
    text::before_irreflexive(x);
}

// ---------------------------------------------------------------------------
// Columns and statements
// ---------------------------------------------------------------------------

/// A row that is written to the columns is read back from them.
pub proof fn columns_law(row: Row, stored: EntryRow, version: VersionRow)
    requires
        row.hash.len() == 32,
        row.uuid.len() == 16,
        stored.path matches Value::Blob(p) && p@ == encode_utf8(row.path),
        stored.uuid matches Value::Blob(u) && u@ == row.uuid,
        stored.hash matches Value::Blob(h) && h@ == row.hash,
        version.uuid == stored.uuid,
        version.hash == stored.hash,
    ensures
        index::entry_in(stored) == Ok::<Row, Seq<char>>(row),
        index::version_in(version) == Ok::<Version, Seq<char>>(
            Version { hash: row.hash, uuid: row.uuid },
        ),
{
    encode_utf8_valid_utf8(row.path);
    encode_utf8_decode_utf8(row.path);
}

/// A column that holds no bytes, or not as many as it should, is not read.
pub proof fn wrong_column_law(v: Value)
    ensures
        index::hash_in(v) is Ok <==> (v matches Value::Blob(b) && b@.len() == 32),
        index::uuid_in(v) is Ok <==> (v matches Value::Blob(b) && b@.len() == 16),
        index::path_in(v) is Ok <==> (v matches Value::Blob(b) && valid_utf8(b@)),
        index::count_in(Some(v)) is Ok <==> (v matches Value::Integer(n) && 0 <= n <= u32::MAX),
        index::count_in(None) is Err,
{
}

/// A number is read as it is.
pub proof fn count_law(n: u32)
    ensures
        index::count_in(Some(Value::Integer(n as i64))) == Ok::<u32, Seq<char>>(n),
{
}

/// An insertion has, for each path, the bytes of the path, the identifier and the
/// hash as parameters, in this order.
pub proof fn insertion_params_law(q: Query, i: int)
    requires
        q is Insert,
        0 <= i < q->paths@.len(),
    ensures
        q.params().len() == 3 * q->paths@.len(),
        q.params()[3 * i] == encode_utf8(q->paths@[i]@),
        q.params()[3 * i + 1] == q->uuid@,
        q.params()[3 * i + 2] == q->Insert_hash@,
{
    assert((3 * i) % 3 == 0 && (3 * i) / 3 == i);
    assert((3 * i + 1) % 3 == 1);
    assert((3 * i + 2) % 3 == 2);
}

/// How often a character occurs.
pub open spec fn occurrences(s: Seq<char>, c: char) -> nat
    decreases s.len(),
{
    if s.len() == 0 {
        0
    } else {
        occurrences(s.drop_last(), c) + if s.last() == c {
            1nat
        } else {
            0nat
        }
    }
}

/// What occurs in two texts occurs in both together.
proof fn occurrences_together(a: Seq<char>, b: Seq<char>, c: char)
    ensures
        occurrences(a + b, c) == occurrences(a, c) + occurrences(b, c),
    decreases b.len(),
{
    if b.len() == 0 {
        assert(a + b =~= a);
    } else {
        assert((a + b).drop_last() =~= a + b.drop_last());
        occurrences_together(a, b.drop_last(), c);
    }
}

/// The placeholders of an insertion: three for each path, in brackets, with commas
/// between.
pub proof fn placeholders_law(n: nat)
    ensures
        occurrences(index::placeholders(n), '?') == 3 * n,
        occurrences(index::placeholders(n), '(') == n,
        occurrences(index::placeholders(n), ')') == n,
        n > 0 ==> occurrences(index::placeholders(n), ',') == 3 * n - 1,
        n > 0 ==> index::placeholders(n).len() == 11 * n - 2,
    decreases n,
{
    reveal_strlit("(?, ?, ?)");
    reveal_strlit(", ");
    let one = "(?, ?, ?)"@;
    let gap = ", "@;
    let all = seq!['?', '(', ')', ','];
    assert forall|k: int| 0 <= k < 4 implies occurrences(one, #[trigger] all[k]) == (if k == 0 {
        3nat
    } else if k == 3 {
        2nat
    } else {
        1nat
    }) && occurrences(gap, all[k]) == (if k == 3 {
        1nat
    } else {
        0nat
    }) by {
        reveal_with_fuel(occurrences, 10);
    }
    assert(all[0] == '?' && all[1] == '(' && all[2] == ')' && all[3] == ',');
    if n > 1 {
        let m = (n - 1) as nat;
        placeholders_law(m);
        let head = index::placeholders(m);
        assert forall|c: char| #[trigger]
            occurrences(index::placeholders(n), c) == occurrences(head, c) + occurrences(gap, c)
                + occurrences(one, c) by {
            occurrences_together(head, gap, c);
            occurrences_together(head + gap, one, c);
        }
    }
}

/// The bytes of the texts that begin with a prefix are those from the bytes of the
/// prefix to the end of the range, and no others.
pub proof fn range_law(prefix: Seq<char>, p: Seq<char>)
    ensures
        ({
            let start = encode_utf8(prefix);
            index::in_range(encode_utf8(p), start, index::range_end(start))
        }) <==> prefix.len() <= p.len() && forall|i: int|
            0 <= i < prefix.len() ==> p[i] == #[trigger] prefix[i],
{
    index::prefix_range_is_exact(prefix, p);
    if text::has_prefix(p, prefix) {
        assert forall|i: int| 0 <= i < prefix.len() implies p[i] == #[trigger] prefix[i] by {
            assert(p.take(prefix.len() as int)[i] == prefix[i]);
        }
    }
    if prefix.len() <= p.len() && forall|i: int|
        0 <= i < prefix.len() ==> p[i] == #[trigger] prefix[i] {
        assert(p.take(prefix.len() as int) =~= prefix);
    }
}

/// A list is viewed item by item.
pub proof fn views_law(
    texts: Seq<String>,
    blobs: Seq<Vec<u8>>,
    versions: Seq<VersionInfo>,
    entries: Seq<Entry>,
    hashes: Seq<hash::Hash>,
    listed: Seq<CommonPrefixEntry>,
    paths: Seq<PathEntry>,
)
    ensures
        index::texts(texts).len() == texts.len(),
        forall|i: int| 0 <= i < texts.len() ==> #[trigger] index::texts(texts)[i] == texts[i]@,
        index::blobs(blobs).len() == blobs.len(),
        forall|i: int| 0 <= i < blobs.len() ==> #[trigger] index::blobs(blobs)[i] == blobs[i]@,
        index::version_views(versions).len() == versions.len(),
        forall|i: int|
            0 <= i < versions.len() ==> (#[trigger] index::version_views(versions)[i]).hash
                == versions[i].hash@ && index::version_views(versions)[i].uuid
                == versions[i].uuid@,
        index::entry_views(entries).len() == entries.len(),
        forall|i: int|
            0 <= i < entries.len() ==> (#[trigger] index::entry_views(entries)[i]).path
                == entries[i].path@ && index::entry_views(entries)[i].uuid == entries[i].uuid@
                && index::entry_views(entries)[i].hash == entries[i].hash@,
        index::hash_views(hashes).len() == hashes.len(),
        forall|i: int|
            0 <= i < hashes.len() ==> #[trigger] index::hash_views(hashes)[i]
                == hashes[i].bytes@,
        list::path_views(paths).len() == paths.len(),
        forall|i: int|
            0 <= i < paths.len() ==> (#[trigger] list::path_views(paths)[i]).path
                == paths[i].path@ && list::path_views(paths)[i].uuid == paths[i].uuid@
                && list::path_views(paths)[i].hash == paths[i].hash@,
        list::listed_views(listed).len() == listed.len(),
        forall|i: int|
            0 <= i < listed.len() ==> match listed[i] {
                CommonPrefixEntry::CommonPrefix { path } => #[trigger] list::listed_views(listed)[i]
                    == Listed::CommonPrefix(path@),
                CommonPrefixEntry::Path(entry) => list::listed_views(listed)[i] == Listed::Path(
                    Row { path: entry.path@, uuid: entry.uuid@, hash: entry.hash@ },
                ),
            },
{
}

/// Borrowed texts are viewed item by item.
pub proof fn path_texts_law(paths: Seq<&str>)
    ensures
        tree::path_texts(paths).len() == paths.len(),
        forall|i: int| 0 <= i < paths.len() ==> #[trigger] tree::path_texts(paths)[i] == paths[i]@,
{
}

/// What an error says: its kind, and the text that it holds.
pub proof fn message_law(e: Error)
    ensures
        match e {
            Error::Io(io) => e@.message() == "IO error: "@ + io.message@,
            Error::Db(m) => e@.message() == "database error: "@ + m@,
            Error::HashMismatch { expected, actual } => e@.message() == "hash mismatch: expected "@
                + hash::hex_text(expected.bytes@) + ", got "@ + hash::hex_text(actual.bytes@),
            Error::InvalidPath(m) => e@.message() == "invalid path: "@ + m@,
            Error::Utf8(m) => e@.message() == "UTF-8 error in stored key: "@ + m@,
            Error::Other(m) => e@.message() == m@,
        },
{
}

// ---------------------------------------------------------------------------
// Adding bytes, and metadata
// ---------------------------------------------------------------------------

/// Adding bytes stores just these bytes, as one new version of each path.
pub proof fn add_bytes_law(
    paths: Seq<Seq<char>>,
    data: Seq<u8>,
    turns: Seq<Turn<Add, AddResult>>,
)
    requires
        world::is_run(|t, r, s| add::add_resumes(t, r, s), turns),
        paths.len() > 0,
        forall|i: int| 0 <= i < paths.len() ==> path::is_valid(#[trigger] paths[i]),
        tree::adds_bytes(paths, data, turns[0].step),
    ensures
        turns.last().step matches Step::Done(r) ==> {
            let w = turns[0].world;
            let end = turns.last().world;
            let name = hash::blake3_digest(data);
            &&& r matches Ok(result)
            &&& result.hash@ == name
            &&& result.blob_already_existed == w.blobs.contains_key(name)
            &&& end.blobs.contains_key(name)
            &&& !w.blobs.contains_key(name) ==> end.blobs[name] == data
            &&& forall|h: Seq<u8>|
                w.blobs.contains_key(h) ==> #[trigger] end.blobs.contains_key(h) && end.blobs[h]
                    == w.blobs[h]
            &&& forall|h: Seq<u8>|
                h != name && #[trigger] end.blobs.contains_key(h) ==> w.blobs.contains_key(h)
            &&& end.rows == world::with_version(w.rows, paths, result.uuid@, name)
            &&& end.temp is None
        },
{
    laws::no_problem_where_valid(paths);
    let source = choose|source: Source|
        {
            &&& #[trigger] add::add_starts(paths, source, turns[0].step)
            &&& source matches Source::Bytes { data: d, at }
            &&& d@ == data
            &&& at == 0
        };
    store_laws::add_law(paths, source, turns);
    assert(store_laws::content_of(source, turns[0].world.input) =~= data);
}

/// The metadata of a path are the hash and the identifier of its latest version, the
/// size and the time that its blob has, and how many rows have its hash.
pub proof fn stat_law(path: Seq<char>, turns: Seq<Turn<StatPath, Option<PathStat>>>)
    requires
        world::is_run(|t, r, s| get::stat_resumes(t, r, s), turns),
        path::is_valid(path),
        get::stat_starts(path, turns[0].step),
        turns[0].world.rows.len() <= u32::MAX,
    ensures
        turns.last().step matches Step::Done(Ok(Some(st))) ==> {
            let w = turns[0].world;
            let all = world::versions_of(w.rows, path);
            &&& all.len() > 0
            &&& st.hash@ == all[0].hash
            &&& st.uuid@ == all[0].uuid
            &&& w.blobs.contains_key(all[0].hash)
            &&& st.size == w.blobs[all[0].hash].len()
            &&& st.refcount == w.rows.filter(|r: Row| r.hash == all[0].hash).len()
            &&& turns.len() > 2
            &&& turns[1].reply matches Reply::Stat(blob)
            &&& st.created_at == blob.created_at
        },
        turns.last().step matches Step::Done(Ok(None)) ==> world::versions_of(
            turns[0].world.rows,
            path,
        ).len() == 0,
{
    let resumes = |t: StatPath, r: Reply, s: Step<StatPath, Option<PathStat>>|
        get::stat_resumes(t, r, s);
    store_laws::stat_path_law(path, turns);
    if turns.len() > 1 {
        assert(world::leads_on(resumes, turns, 0));
        if turns.len() > 2 {
            assert(world::leads_on(resumes, turns, 1));
            if turns.len() > 3 {
                assert(world::leads_on(resumes, turns, 2));
                if turns.len() > 4 {
                    assert(world::leads_on(resumes, turns, 3));
                }
            }
        }
    }
}

// ---------------------------------------------------------------------------
// Reading
// ---------------------------------------------------------------------------

/// The chunks together.
pub open spec fn together(chunks: Seq<Seq<u8>>) -> Seq<u8>
    decreases chunks.len(),
{
    if chunks.len() == 0 {
        Seq::empty()
    } else {
        together(chunks.drop_last()) + chunks.last()
    }
}

/// A reader takes in a chunk, with room for it.
pub open spec fn takes_one(
    reader: BloxtreeReader,
    chunk: Seq<u8>,
    after: BloxtreeReader,
    outcome: Result<(), Error>,
) -> bool {
    exists|room: usize| room > 0 && #[trigger] reader::absorbs(reader, chunk, room, after, outcome)
}

/// A reader takes in chunks one after another.
pub open spec fn takes_in(
    readers: Seq<BloxtreeReader>,
    chunks: Seq<Seq<u8>>,
    outcomes: Seq<Result<(), Error>>,
) -> bool {
    &&& readers.len() == chunks.len() + 1
    &&& outcomes.len() == chunks.len()
    &&& forall|i: int|
        0 <= i < chunks.len() ==> takes_one(
            readers[i],
            #[trigger] chunks[i],
            readers[i + 1],
            outcomes[i],
        )
}

/// A reader that was handed the chunks of a content, and then nothing more, says so
/// without an error exactly if the content has the hash that is expected. Before
/// that it never fails.
pub proof fn reader_law(
    readers: Seq<BloxtreeReader>,
    chunks: Seq<Seq<u8>>,
    outcomes: Seq<Result<(), Error>>,
)
    requires
        takes_in(readers, chunks, outcomes),
        get::is_fresh(readers[0], readers[0].expected),
        forall|i: int| 0 <= i < chunks.len() ==> (#[trigger] chunks[i]).len() > 0,
    ensures
        readers.last().digest@ == together(chunks),
        readers.last().expected == readers[0].expected,
        !readers.last().verified,
        forall|i: int| 0 <= i < outcomes.len() ==> #[trigger] outcomes[i] is Ok,
        forall|after: BloxtreeReader, outcome: Result<(), Error>, room: usize|
            room > 0 && #[trigger] reader::absorbs(
                readers.last(),
                Seq::empty(),
                room,
                after,
                outcome,
            ) ==> {
                &&& outcome is Ok <==> hash::blake3_digest(together(chunks))
                    == readers[0].expected@
                &&& outcome matches Err(e) ==> e@ is Io && e@->Io_0 == IoErrorKind::InvalidData
            },
    decreases chunks.len(),
{
    let n = chunks.len();
    if n > 0 {
        let a = readers.drop_last();
        let b = chunks.drop_last();
        let c = outcomes.drop_last();
        assert(takes_in(a, b, c)) by {
            assert forall|i: int| 0 <= i < b.len() implies takes_one(
                a[i],
                #[trigger] b[i],
                a[i + 1],
                c[i],
            ) by {
                assert(chunks[i] == b[i]);
            }
        }
        reader_law(a, b, c);
        assert(chunks[n - 1].len() > 0);
        assert(a.last() == readers[n - 1]);
        assert forall|i: int| 0 <= i < outcomes.len() implies #[trigger] outcomes[i] is Ok by {
            if i < n - 1 {
                assert(c[i] == outcomes[i]);
            }
        }
    }
}

} // verus!
