//! Content hashes: BLAKE3 digests, their hexadecimal form and the place of a
//! blob in the object directory.

use vstd::prelude::*;

use crate::text::{chars_of, slice_of, text_of};

verus! {

/// A BLAKE3 hash.
#[derive(Clone, Copy, Debug, PartialEq, Eq)]
pub struct Hash {
    pub bytes: [u8; 32],
}

impl View for Hash {
    type V = Seq<u8>;

    open spec fn view(&self) -> Seq<u8> {
        self.bytes@
    }
}

/// `blake3::Hasher` takes in bytes and gives the digest of all that it took.
#[verifier::external_type_specification]
#[verifier::external_body]
pub struct ExHasher(blake3::Hasher);

/// `blake3::HexError` says why a text is no hash; nothing is read from it.
#[verifier::external_type_specification]
#[verifier::external_body]
pub struct ExHexError(blake3::HexError);

/// The bytes that a hasher has taken in.
pub uninterp spec fn hasher_input(h: blake3::Hasher) -> Seq<u8>;

/// The hasher was made by `Hasher::new`: no key, no derivation context and no
/// input offset were set.
pub uninterp spec fn hasher_is_plain(h: blake3::Hasher) -> bool;

/// The BLAKE3 digest of a byte string.
pub uninterp spec fn blake3_digest(data: Seq<u8>) -> Seq<u8>;

/// `blake3::Hasher::new` makes a plain hasher that has taken in nothing.
#[verifier::external_body]
pub(crate) fn hasher_new() -> (h: blake3::Hasher)
    ensures
        hasher_is_plain(h),
        hasher_input(h) == Seq::<u8>::empty(),
{
    blake3::Hasher::new()
}

/// `blake3::Hasher::update` takes in further bytes, after those already taken.
#[verifier::external_body]
pub(crate) fn hasher_update(h: &mut blake3::Hasher, data: &[u8])
    requires
        hasher_is_plain(*old(h)),
    ensures
        hasher_is_plain(*final(h)),
        hasher_input(*final(h)) == hasher_input(*old(h)) + data@,
{
    h.update(data);
}

/// `blake3::Hasher::finalize` gives the digest of the bytes taken in.
#[verifier::external_body]
pub(crate) fn hasher_finalize(h: &blake3::Hasher) -> (r: Hash)
    requires
        hasher_is_plain(*h),
    ensures
        r@ == blake3_digest(hasher_input(*h)),
{
    Hash { bytes: *h.finalize().as_bytes() }
}

/// The lower-case hexadecimal digit of a number below sixteen.
pub open spec fn hex_digit(n: int) -> char {
    if n < 10 {
        ('0' as int + n) as char
    } else {
        ('a' as int + n - 10) as char
    }
}

/// The value of a hexadecimal digit, upper or lower case.
pub open spec fn hex_value(c: char) -> Option<int> {
    if '0' <= c <= '9' {
        Some(c as int - '0' as int)
    } else if 'a' <= c <= 'f' {
        Some(c as int - 'a' as int + 10)
    } else if 'A' <= c <= 'F' {
        Some(c as int - 'A' as int + 10)
    } else {
        None
    }
}

/// Two hexadecimal digits for each byte, the high half first.
pub open spec fn hex_text(bytes: Seq<u8>) -> Seq<char> {
    Seq::new(
        2 * bytes.len(),
        |i: int|
            hex_digit(
                if i % 2 == 0 {
                    bytes[i / 2] as int / 16
                } else {
                    bytes[i / 2] as int % 16
                },
            ),
    )
}

/// A text of `2 * n` hexadecimal digits.
pub open spec fn is_hex(text: Seq<char>, n: int) -> bool {
    text.len() == 2 * n && forall|i: int| 0 <= i < text.len() ==> hex_value(#[trigger] text[i]) is Some
}

/// The bytes that a text of hexadecimal digits stands for.
pub open spec fn hex_bytes(text: Seq<char>) -> Seq<u8> {
    Seq::new(
        text.len() / 2,
        |i: int| (16 * hex_value(text[2 * i])->0 + hex_value(text[2 * i + 1])->0) as u8,
    )
}

/// `blake3::Hash::to_hex` writes the hash in lower-case hexadecimal.
#[verifier::external_body]
pub(crate) fn hash_to_hex(hash: Hash) -> (r: String)
    ensures
        r@ == hex_text(hash@),
{
    blake3::Hash::from_bytes(hash.bytes).to_hex().to_string()
}

/// `blake3::Hash::from_hex` reads a hash from exactly sixty-four hexadecimal
/// digits and refuses every other text.
#[verifier::external_body]
pub(crate) fn hash_from_hex(text: &str) -> (r: Result<Hash, blake3::HexError>)
    ensures
        r is Ok <==> is_hex(text@, 32),
        r matches Ok(hash) ==> hash@ == hex_bytes(text@),
{
    blake3::Hash::from_hex(text).map(|hash| Hash { bytes: *hash.as_bytes() })
}

impl Hash {
    /// The hash in lower-case hexadecimal.
    pub fn to_hex(&self) -> (r: String)
        ensures
            r@ == hex_text(self@),
    {
        hash_to_hex(*self)
    }

    /// Reads a hash from sixty-four hexadecimal digits.
    pub fn from_hex(text: &str) -> (r: Option<Hash>)
        ensures
            r is Some <==> is_hex(text@, 32),
            r matches Some(hash) ==> hash@ == hex_bytes(text@),
    {
        match hash_from_hex(text) {
            Ok(hash) => Some(hash),
            Err(_) => None,
        }
    }

    /// Whether two hashes are equal.
    pub fn equals(&self, other: &Hash) -> (r: bool)
        ensures
            r == (self@ == other@),
    {
        let mut i: usize = 0;
        while i < 32
            invariant
                i <= 32,
                forall|j: int| 0 <= j < i ==> self.bytes@[j] == other.bytes@[j],
            decreases 32 - i,
        {
            if self.bytes[i] != other.bytes[i] {
                return false;
            }
            i += 1;
        }
        proof {
            assert(self@ =~= other@);
        }
        true
    }
}

/// A hash read back from its own hexadecimal form is the same hash.
pub proof fn hex_round_trip(bytes: Seq<u8>)
    ensures
        is_hex(hex_text(bytes), bytes.len() as int),
        hex_bytes(hex_text(bytes)) == bytes,
{
    let t = hex_text(bytes);
    assert forall|i: int| 0 <= i < t.len() implies hex_value(#[trigger] t[i]) == Some(
        if i % 2 == 0 {
            bytes[i / 2] as int / 16
        } else {
            bytes[i / 2] as int % 16
        },
    ) by {
        let n = if i % 2 == 0 {
            bytes[i / 2] as int / 16
        } else {
            bytes[i / 2] as int % 16
        };
        assert(t[i] == hex_digit(n));
        assert(0 <= n < 16);
    }
    assert(hex_bytes(t) =~= bytes) by {
        assert forall|i: int| 0 <= i < bytes.len() implies hex_bytes(t)[i] == bytes[i] by {
            assert((2 * i) % 2 == 0 && (2 * i) / 2 == i);
            assert((2 * i + 1) % 2 == 1 && (2 * i + 1) / 2 == i);
        }
    }
}

/// A hash in the making: what has been taken in so far.
#[derive(Debug)]
pub struct Digest {
    hasher: blake3::Hasher,
}

impl View for Digest {
    type V = Seq<u8>;

    closed spec fn view(&self) -> Seq<u8> {
        hasher_input(self.hasher)
    }
}

impl Digest {
    #[verifier::type_invariant]
    closed spec fn is_plain(self) -> bool {
        hasher_is_plain(self.hasher)
    }

    /// Nothing has been taken in.
    pub fn new() -> (r: Digest)
        ensures
            r@ == Seq::<u8>::empty(),
    {
        Digest { hasher: hasher_new() }
    }

    /// Takes in further bytes.
    pub fn update(self, data: &[u8]) -> (r: Digest)
        ensures
            r@ == self@ + data@,
    {
        proof {
            use_type_invariant(&self);
        }
        let mut hasher = self.hasher;
        hasher_update(&mut hasher, data);
        Digest { hasher }
    }

    /// The hash of what has been taken in.
    pub fn finish(&self) -> (r: Hash)
        ensures
            r@ == blake3_digest(self@),
    {
        proof {
            use_type_invariant(self);
        }
        hasher_finalize(&self.hasher)
    }
}

/// The place of a blob below the object directory: a directory named by the
/// first two hexadecimal digits of the hash, and in it a file named by the
/// others.
pub fn blob_path(hash: &Hash) -> (r: (String, String))
    ensures
        r.0@ == hex_text(hash@).take(2),
        r.1@ == hex_text(hash@).skip(2),
{
    let hex = chars_of(hash.to_hex().as_str());
    let dir = text_of(&slice_of(&hex, 0, 2));
    let file = text_of(&slice_of(&hex, 2, hex.len()));
    proof {
        assert(dir@ =~= hex_text(hash@).take(2));
        assert(file@ =~= hex_text(hash@).skip(2));
    }
    (dir, file)
}

/// Blobs with different hashes have different places.
pub proof fn blob_places_differ(a: Seq<u8>, b: Seq<u8>)
    requires
        a.len() == 32,
        b.len() == 32,
        hex_text(a).take(2) == hex_text(b).take(2),
        hex_text(a).skip(2) == hex_text(b).skip(2),
    ensures
        a == b,
{
    let x = hex_text(a);
    let y = hex_text(b);
    assert(x =~= x.take(2) + x.skip(2));
    assert(y =~= y.take(2) + y.skip(2));
    hex_round_trip(a);
    hex_round_trip(b);
}

} // verus!
