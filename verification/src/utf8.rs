//! Facts on the UTF-8 bytes of texts.

use vstd::prelude::*;
use vstd::utf8::*;

use crate::text;

verus! {

/// The bytes of a concatenation are the bytes of its parts.
pub proof fn encode_concat(a: Seq<char>, b: Seq<char>)
    ensures
        encode_utf8(a + b) == encode_utf8(a) + encode_utf8(b),
    decreases a.len(),
{
    if a.len() == 0 {
        assert(a + b =~= b);
        assert(encode_utf8(a) + encode_utf8(b) =~= encode_utf8(b));
    } else {
        assert((a + b).drop_first() =~= a.drop_first() + b);
        encode_concat(a.drop_first(), b);
        assert(encode_utf8(a + b) =~= encode_utf8(a) + encode_utf8(b));
    }
}

/// No byte of a UTF-8 text is `0xff`.
pub proof fn encode_below_ff(a: Seq<char>)
    ensures
        forall|i: int| 0 <= i < encode_utf8(a).len() ==> #[trigger] encode_utf8(a)[i] < 0xff,
    decreases a.len(),
{
    if a.len() > 0 {
        let c = a[0] as u32;
        char_is_scalar(a[0]);
        assert(((c & 0x7f) as u8) < 0xffu8) by (bit_vector);
        assert((0xc0u8 | ((c >> 6) & 0x1f) as u8) < 0xffu8) by (bit_vector);
        assert((0xe0u8 | ((c >> 12) & 0x0f) as u8) < 0xffu8) by (bit_vector);
        assert((0xf0u8 | ((c >> 18) & 0x07) as u8) < 0xffu8) by (bit_vector);
        assert((0x80u8 | (c & 0x3f) as u8) < 0xffu8) by (bit_vector);
        assert((0x80u8 | ((c >> 6) & 0x3f) as u8) < 0xffu8) by (bit_vector);
        assert((0x80u8 | ((c >> 12) & 0x3f) as u8) < 0xffu8) by (bit_vector);
        encode_below_ff(a.drop_first());
        let head = encode_scalar(c);
        let tail = encode_utf8(a.drop_first());
        assert forall|i: int| 0 <= i < encode_utf8(a).len() implies #[trigger] encode_utf8(a)[i]
            < 0xff by {
            if i < head.len() {
                assert(encode_utf8(a)[i] == head[i]);
            } else {
                assert(encode_utf8(a)[i] == tail[i - head.len()]);
            }
        }
    }
}

/// A byte string begins with the bytes of a text exactly where the texts do.
pub proof fn encode_prefix(s: Seq<char>, p: Seq<char>)
    ensures
        text::has_prefix(s, p) <==> {
            &&& encode_utf8(p).len() <= encode_utf8(s).len()
            &&& encode_utf8(s).take(encode_utf8(p).len() as int) == encode_utf8(p)
        },
    decreases p.len(),
{
    let sb = encode_utf8(s);
    let pb = encode_utf8(p);
    if text::has_prefix(s, p) {
        let r = s.skip(p.len() as int);
        assert(s =~= p + r);
        encode_concat(p, r);
        assert(sb.take(pb.len() as int) =~= pb);
    }
    if pb.len() <= sb.len() && sb.take(pb.len() as int) == pb {
        if p.len() == 0 {
            assert(s.take(0) =~= p);
        } else {
            encode_utf8_first_scalar(p);
            let n = length_of_first_scalar(pb);
            assert(pb[0] == sb.take(pb.len() as int)[0]);
            assert(s.len() > 0);
            encode_utf8_first_scalar(s);
            assert forall|i: int| 0 <= i < pb.len() implies pb[i] == sb[i] by {
                assert(sb.take(pb.len() as int)[i] == sb[i]);
            }
            assert(length_of_first_scalar(sb) == n);
            assert(decode_first_scalar(sb) == decode_first_scalar(pb));
            char_u32_cast(s[0], decode_first_scalar(sb));
            char_u32_cast(p[0], decode_first_scalar(pb));
            assert(s[0] == p[0]);
            let s1 = s.drop_first();
            let p1 = p.drop_first();
            let head = encode_scalar(p[0] as u32);
            assert(pb =~= head + encode_utf8(p1));
            assert(sb =~= head + encode_utf8(s1));
            assert(encode_utf8(s1).take(encode_utf8(p1).len() as int) =~= encode_utf8(p1)) by {
                assert forall|i: int| 0 <= i < encode_utf8(p1).len() implies encode_utf8(s1)[i]
                    == encode_utf8(p1)[i] by {
                    assert(pb[i + head.len()] == sb[i + head.len()]);
                }
            }
            encode_prefix(s1, p1);
            assert(s.take(p.len() as int) =~= p) by {
                assert forall|i: int| 0 <= i < p.len() implies s[i] == p[i] by {
                    if i > 0 {
                        assert(s1.take(p1.len() as int)[i - 1] == p1[i - 1]);
                    }
                }
            }
        }
    }
}

// ---------------------------------------------------------------------------
// The order of the bytes
// ---------------------------------------------------------------------------

/// Where the first byte of a character lies tells how many bytes it has.
proof fn leading_byte_by_width(c: u32)
    by (bit_vector)
    ensures
        has_width_1_encoding(c) ==> leading_byte_width_1(c) <= 0x7f,
        has_width_2_encoding(c) ==> 0xc0 <= leading_byte_width_2(c) <= 0xdf,
        has_width_3_encoding(c) ==> 0xe0 <= leading_byte_width_3(c) <= 0xef,
        has_width_4_encoding(c) ==> 0xf0 <= leading_byte_width_4(c) <= 0xf7,
{
}

/// Characters of one byte are ordered as their bytes.
proof fn one_byte_order(x: u32, y: u32)
    by (bit_vector)
    requires
        has_width_1_encoding(x),
        has_width_1_encoding(y),
        x < y,
    ensures
        leading_byte_width_1(x) < leading_byte_width_1(y),
{
}

/// Characters of two bytes are ordered as their bytes.
proof fn two_byte_order(x: u32, y: u32)
    by (bit_vector)
    requires
        has_width_2_encoding(x),
        has_width_2_encoding(y),
        x < y,
    ensures
        leading_byte_width_2(x) <= leading_byte_width_2(y),
        leading_byte_width_2(x) == leading_byte_width_2(y) ==> last_continuation_byte(x)
            < last_continuation_byte(y),
{
}

/// Characters of three bytes are ordered as their bytes.
proof fn three_byte_order(x: u32, y: u32)
    by (bit_vector)
    requires
        has_width_3_encoding(x),
        has_width_3_encoding(y),
        x < y,
    ensures
        leading_byte_width_3(x) <= leading_byte_width_3(y),
        leading_byte_width_3(x) == leading_byte_width_3(y) ==> second_last_continuation_byte(x)
            <= second_last_continuation_byte(y),
        leading_byte_width_3(x) == leading_byte_width_3(y) && second_last_continuation_byte(x)
            == second_last_continuation_byte(y) ==> last_continuation_byte(x)
            < last_continuation_byte(y),
{
}

/// Characters of four bytes are ordered as their bytes.
proof fn four_byte_order(x: u32, y: u32)
    by (bit_vector)
    requires
        has_width_4_encoding(x),
        has_width_4_encoding(y),
        x < y,
    ensures
        leading_byte_width_4(x) <= leading_byte_width_4(y),
        leading_byte_width_4(x) == leading_byte_width_4(y) ==> third_last_continuation_byte(x)
            <= third_last_continuation_byte(y),
        leading_byte_width_4(x) == leading_byte_width_4(y) && third_last_continuation_byte(x)
            == third_last_continuation_byte(y) ==> second_last_continuation_byte(x)
            <= second_last_continuation_byte(y),
        leading_byte_width_4(x) == leading_byte_width_4(y) && third_last_continuation_byte(x)
            == third_last_continuation_byte(y) && second_last_continuation_byte(x)
            == second_last_continuation_byte(y) ==> last_continuation_byte(x)
            < last_continuation_byte(y),
{
}

/// The bytes of a smaller character are smaller at the first place where they
/// differ, and they do before either ends.
proof fn scalar_order(x: u32, y: u32) -> (k: int)
    requires
        is_scalar(x),
        is_scalar(y),
        x < y,
    ensures
        0 <= k < encode_scalar(x).len(),
        k < encode_scalar(y).len(),
        forall|i: int| 0 <= i < k ==> encode_scalar(x)[i] == encode_scalar(y)[i],
        encode_scalar(x)[k] < encode_scalar(y)[k],
{
    let a = encode_scalar(x);
    let b = encode_scalar(y);
    leading_byte_by_width(x);
    leading_byte_by_width(y);
    if has_width_1_encoding(y) {
        one_byte_order(x, y);
    } else if has_width_2_encoding(x) && has_width_2_encoding(y) {
        two_byte_order(x, y);
    } else if has_width_3_encoding(x) && has_width_3_encoding(y) {
        three_byte_order(x, y);
    } else if has_width_4_encoding(x) {
        four_byte_order(x, y);
    }
    if a[0] != b[0] {
        0
    } else if a[1] != b[1] {
        1
    } else if a[2] != b[2] {
        2
    } else {
        3
    }
}

/// The number of a character fits into 32 bits.
proof fn number_fits(c: char)
    ensures
        c as u32 == c as int,
{
}

/// A text that comes before another has the smaller bytes.
proof fn earlier_has_smaller_bytes(a: Seq<char>, b: Seq<char>)
    requires
        text::text_before(a, b),
    ensures
        text::before(text::octets(encode_utf8(a)), text::octets(encode_utf8(b))),
{
    let k = choose|k: int| text::smaller_at(text::codes(a), text::codes(b), k);
    let p = a.take(k);
    let x = a.skip(k);
    let y = b.skip(k);
    assert(p =~= b.take(k)) by {
        assert forall|i: int| 0 <= i < k implies a[i] == b[i] by {
            assert(text::codes(a).take(k)[i] == text::codes(b).take(k)[i]);
            assert(text::codes(a)[i] == a[i] as int && text::codes(b)[i] == b[i] as int);
            number_fits(a[i]);
            number_fits(b[i]);
        }
    }
    assert(a =~= p + x);
    assert(b =~= p + y);
    encode_concat(p, x);
    encode_concat(p, y);
    let pb = encode_utf8(p);
    let ab = encode_utf8(a);
    let bb = encode_utf8(b);
    let head = encode_scalar(y[0] as u32);
    assert(head.len() > 0);
    let m: int = if x.len() == 0 {
        assert(encode_utf8(x).len() == 0);
        0
    } else {
        assert(text::codes(a)[k] == a[k] as int && text::codes(b)[k] == b[k] as int);
        char_is_scalar(x[0]);
        char_is_scalar(y[0]);
        assert(x[0] == a[k] && y[0] == b[k]);
        number_fits(x[0]);
        number_fits(y[0]);
        scalar_order(x[0] as u32, y[0] as u32)
    };
    let at = pb.len() + m;
    assert forall|i: int| 0 <= i < at implies ab[i] == bb[i] by {
        if i >= pb.len() {
            assert(ab[i] == encode_scalar(x[0] as u32)[i - pb.len()]);
            assert(bb[i] == head[i - pb.len()]);
        }
    }
    assert(bb[at] == head[m]);
    assert(text::octets(ab).take(at) =~= text::octets(bb).take(at));
    if x.len() > 0 {
        assert(ab[at] == encode_scalar(x[0] as u32)[m]);
    }
    assert(text::smaller_at(text::octets(ab), text::octets(bb), at));
}

/// Texts are ordered as their UTF-8 bytes: paths compare bytewise.
pub proof fn text_order_is_bytewise(a: Seq<char>, b: Seq<char>)
    ensures
        text::text_before(a, b) <==> text::before(
            text::octets(encode_utf8(a)),
            text::octets(encode_utf8(b)),
        ),
{
    let x = text::octets(encode_utf8(a));
    let y = text::octets(encode_utf8(b));
    if text::text_before(a, b) {
        earlier_has_smaller_bytes(a, b);
    } else if text::before(x, y) {
        text::before_total(text::codes(a), text::codes(b));
        if text::codes(a) == text::codes(b) {
            text::codes_injective(a, b);
            text::before_irreflexive(x);
        } else {
            earlier_has_smaller_bytes(b, a);
            text::before_asymmetric(x, y);
        }
    }
}

} // verus!
