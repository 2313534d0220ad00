//! Version identifiers: time-ordered UUIDs.

use vstd::prelude::*;

use crate::hash;
use crate::text;

verus! {

/// A UUID. The identifiers of versions are UUIDs of version seven, whose byte
/// order is the order of their creation times.
#[derive(Clone, Copy, Debug, PartialEq, Eq)]
pub struct Uuid {
    pub bytes: [u8; 16],
}

impl View for Uuid {
    type V = Seq<u8>;

    open spec fn view(&self) -> Seq<u8> {
        self.bytes@
    }
}

/// `a` is an older identifier than `b`: it comes first in byte order.
pub open spec fn older(a: Seq<u8>, b: Seq<u8>) -> bool {
    text::before(text::octets(a), text::octets(b))
}

/// The bytes carry the marks of version seven and of the RFC variant.
pub open spec fn is_version_seven(bytes: Seq<u8>) -> bool {
    &&& bytes.len() == 16
    &&& bytes[6] as int / 16 == 7
    &&& bytes[8] as int / 64 == 2
}

/// Five groups of lower-case hexadecimal digits, joined by hyphens.
pub open spec fn hyphenated(bytes: Seq<u8>) -> Seq<char> {
    hash::hex_text(bytes.subrange(0, 4)).push('-') + hash::hex_text(bytes.subrange(4, 6)).push('-')
        + hash::hex_text(bytes.subrange(6, 8)).push('-') + hash::hex_text(
        bytes.subrange(8, 10),
    ).push('-') + hash::hex_text(bytes.subrange(10, 16))
}

/// `uuid::Uuid::now_v7` makes an identifier from the clock and chance; of its
/// bytes only the version and variant marks are the same every time.
#[verifier::external_body]
pub(crate) fn uuid_now() -> (r: Uuid)
    ensures
        is_version_seven(r@),
{
    Uuid { bytes: *uuid::Uuid::now_v7().as_bytes() }
}

/// The text form of `uuid::Uuid`: hyphenated, in lower case.
#[verifier::external_body]
pub(crate) fn uuid_text(uuid: Uuid) -> (r: String)
    ensures
        r@ == hyphenated(uuid@),
{
    uuid::Uuid::from_bytes(uuid.bytes).to_string()
}

impl Uuid {
    /// A fresh identifier for a new version.
    pub fn now_v7() -> (r: Uuid)
        ensures
            is_version_seven(r@),
    {
        uuid_now()
    }

    /// The identifier as text.
    pub fn to_text(&self) -> (r: String)
        ensures
            r@ == hyphenated(self@),
    {
        uuid_text(*self)
    }

    /// Whether this identifier is older than `other`.
    pub fn is_older_than(&self, other: &Uuid) -> (r: bool)
        ensures
            r == older(self@, other@),
    {
        let ghost a = text::octets(self@);
        let ghost b = text::octets(other@);
        let mut i: usize = 0;
        while i < 16 && self.bytes[i] == other.bytes[i]
            invariant
                i <= 16,
                a == text::octets(self@),
                b == text::octets(other@),
                forall|j: int| 0 <= j < i ==> self.bytes@[j] == other.bytes@[j],
            decreases 16 - i,
        {
            i += 1;
        }
        if i == 16 {
            proof {
                assert(a =~= b);
                text::before_irreflexive(a);
            }
            false
        } else {
            proof {
                assert(a.take(i as int) =~= b.take(i as int));
                if a[i as int] < b[i as int] {
                    assert(text::smaller_at(a, b, i as int));
                } else {
                    assert(text::smaller_at(b, a, i as int));
                    text::before_asymmetric(b, a);
                }
            }
            self.bytes[i] < other.bytes[i]
        }
    }
}

/// Identifiers with the same byte numbers are equal.
pub proof fn octets_injective(a: Seq<u8>, b: Seq<u8>)
    requires
        text::octets(a) == text::octets(b),
    ensures
        a == b,
{
    assert(a.len() == text::octets(a).len() && b.len() == text::octets(b).len());
    assert forall|i: int| 0 <= i < a.len() implies a[i] == b[i] by {
        assert(text::octets(a)[i] == a[i] as int && text::octets(b)[i] == b[i] as int);
    }
    assert(a =~= b);
}

} // verus!
