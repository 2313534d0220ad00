//! Characters, strings and the order in which paths are sorted.

use vstd::prelude::*;
use vstd::string::*;

verus! {

/// `String::push` appends one character.
pub assume_specification[ String::push ](s: &mut String, c: char)
    ensures
        final(s)@ == old(s)@.push(c),
;

/// The numbers of the characters of a text.
pub open spec fn codes(s: Seq<char>) -> Seq<int> {
    s.map_values(|c: char| c as int)
}

/// The numbers of the bytes of a byte string.
pub open spec fn octets(s: Seq<u8>) -> Seq<int> {
    s.map_values(|b: u8| b as int)
}

/// `a` and `b` agree before position `k`, and at `k` either `a` has ended and
/// `b` has not, or `a` holds the smaller number.
pub open spec fn smaller_at(a: Seq<int>, b: Seq<int>, k: int) -> bool {
    &&& 0 <= k <= a.len()
    &&& k < b.len()
    &&& a.take(k) == b.take(k)
    &&& k < a.len() ==> a[k] < b[k]
}

/// Strict lexicographic order.
pub open spec fn before(a: Seq<int>, b: Seq<int>) -> bool {
    exists|k: int| smaller_at(a, b, k)
}

/// The characters of `s`, one by one.
pub fn chars_of(s: &str) -> (r: Vec<char>)
    ensures
        r@ == s@,
{
    let mut r: Vec<char> = Vec::new();
    for c in it: s.chars()
        invariant
            r@ == it.seq().take(it.index() as int),
            it.seq() == s@,
    {
        r.push(c);
        proof {
            assert(it.seq().take(it.index() as int).push(c) =~= it.seq().take(it.index() as int + 1));
        }
    }
    proof {
        assert(s@.take(s@.len() as int) =~= s@);
    }
    r
}

/// The text made of the given characters.
pub fn text_of(chars: &Vec<char>) -> (r: String)
    ensures
        r@ == chars@,
{
    let mut r = String::new();
    let mut i: usize = 0;
    while i < chars.len()
        invariant
            i <= chars@.len(),
            r@ == chars@.take(i as int),
        decreases chars@.len() - i,
    {
        r.push(chars[i]);
        proof {
            assert(chars@.take(i as int).push(chars@[i as int]) =~= chars@.take(i as int + 1));
        }
        i += 1;
    }
    proof {
        assert(chars@.take(chars@.len() as int) =~= chars@);
    }
    r
}


/// The order of texts: lexicographic by character number, which is also the
/// order of their UTF-8 bytes (`utf8::text_order_is_bytewise`).
pub open spec fn text_before(a: Seq<char>, b: Seq<char>) -> bool {
    before(codes(a), codes(b))
}

/// Nothing comes before itself.
pub proof fn before_irreflexive(a: Seq<int>)
    ensures
        !before(a, a),
{
}

/// The order is transitive.
pub proof fn before_transitive(a: Seq<int>, b: Seq<int>, c: Seq<int>)
    requires
        before(a, b),
        before(b, c),
    ensures
        before(a, c),
{
    let j = choose|k: int| smaller_at(a, b, k);
    let k = choose|k: int| smaller_at(b, c, k);
    let m = if j < k { j } else { k };
    assert(a.take(m) == c.take(m)) by {
        assert(a.take(m) =~= a.take(j).take(m));
        assert(b.take(m) =~= b.take(j).take(m));
        assert(b.take(m) =~= b.take(k).take(m));
        assert(c.take(m) =~= c.take(k).take(m));
    }
    if j < k {
        assert(b.take(k)[j] == c.take(k)[j]);
    } else if k < j {
        assert(a.take(j)[k] == b.take(j)[k]);
    }
    assert(smaller_at(a, c, m));
}

/// Of two different sequences one comes before the other.
pub proof fn before_total(a: Seq<int>, b: Seq<int>)
    ensures
        a == b || before(a, b) || before(b, a),
    decreases a.len(),
{
    if a.len() == 0 {
        if b.len() > 0 {
            assert(a.take(0) =~= b.take(0));
            assert(smaller_at(a, b, 0));
        } else {
            assert(a =~= b);
        }
    } else if b.len() == 0 {
        assert(a.take(0) =~= b.take(0));
        assert(smaller_at(b, a, 0));
    } else {
        let a1 = a.drop_last();
        if a1.len() < b.len() && a1 == b.take(a1.len() as int) {
            let k = a1.len() as int;
            assert(a.take(k) =~= b.take(k));
            if a[k] < b[k] {
                assert(smaller_at(a, b, k));
            } else if b[k] < a[k] {
                assert(smaller_at(b, a, k));
            } else if b.len() == a.len() {
                assert(a =~= b) by {
                    assert forall|i: int| 0 <= i < a.len() implies a[i] == b[i] by {
                        if i < k {
                            assert(a.take(k)[i] == b.take(k)[i]);
                        }
                    }
                }
            } else {
                assert(a.take(k + 1) =~= b.take(k + 1)) by {
                    assert forall|i: int| 0 <= i < k + 1 implies a[i] == b[i] by {
                        if i < k {
                            assert(a.take(k)[i] == b.take(k)[i]);
                        }
                    }
                }
                assert(smaller_at(a, b, k + 1));
            }
        } else {
            before_total(a1, b);
            if a1 == b {
                let k = b.len() as int;
                assert(a.take(k) =~= b.take(k));
                assert(smaller_at(b, a, k));
            } else if before(a1, b) {
                let k = choose|k: int| smaller_at(a1, b, k);
                assert(k < a1.len()) by {
                    if k == a1.len() {
                        assert(a1.take(k) =~= a1);
                    }
                }
                assert(a.take(k) =~= a1.take(k));
                assert(smaller_at(a, b, k));
            } else {
                let k = choose|k: int| smaller_at(b, a1, k);
                assert(a.take(k) =~= a1.take(k));
                assert(smaller_at(b, a, k));
            }
        }
    }
}

/// The order is asymmetric.
pub proof fn before_asymmetric(a: Seq<int>, b: Seq<int>)
    requires
        before(a, b),
    ensures
        !before(b, a),
{
    if before(b, a) {
        before_transitive(a, b, a);
        before_irreflexive(a);
    }
}

/// Texts with the same character numbers are equal.
pub proof fn codes_injective(a: Seq<char>, b: Seq<char>)
    requires
        codes(a) == codes(b),
    ensures
        a == b,
{
    assert(a.len() == codes(a).len() && b.len() == codes(b).len());
    assert forall|i: int| 0 <= i < a.len() implies a[i] == b[i] by {
        assert(codes(a)[i] == a[i] as int && codes(b)[i] == b[i] as int);
        assert(a[i] as u32 == b[i] as u32);
    }
    assert(a =~= b);
}

/// Two texts compared: which comes first, if they differ.
pub enum Relation {
    Before,
    Same,
    After,
}

/// Compares two texts.
pub fn relate(a: &str, b: &str) -> (r: Relation)
    ensures
        r == (if text_before(a@, b@) { Relation::Before } else if a@ == b@ { Relation::Same } else {
            Relation::After
        }),
        r is After ==> text_before(b@, a@),
{
    let x = chars_of(a);
    let y = chars_of(b);
    let mut i: usize = 0;
    while i < x.len() && i < y.len() && x[i] == y[i]
        invariant
            x@ == a@,
            y@ == b@,
            i <= x@.len(),
            i <= y@.len(),
            forall|j: int| 0 <= j < i ==> x@[j] == y@[j],
        decreases x@.len() - i,
    {
        i += 1;
    }
    proof {
        let k = i as int;
        assert(codes(a@).take(k) =~= codes(b@).take(k));
        before_irreflexive(codes(a@));
    }
    if i == x.len() {
        if i == y.len() {
            proof {
                assert(a@ =~= b@);
            }
            Relation::Same
        } else {
            proof {
                assert(smaller_at(codes(a@), codes(b@), i as int));
            }
            Relation::Before
        }
    } else if i == y.len() {
        proof {
            assert(smaller_at(codes(b@), codes(a@), i as int));
            before_asymmetric(codes(b@), codes(a@));
        }
        Relation::After
    } else if x[i] < y[i] {
        proof {
            assert(smaller_at(codes(a@), codes(b@), i as int));
        }
        Relation::Before
    } else {
        proof {
            assert(smaller_at(codes(b@), codes(a@), i as int));
            before_asymmetric(codes(b@), codes(a@));
        }
        Relation::After
    }
}

/// Whether two texts are equal.
pub fn same_text(a: &str, b: &str) -> (r: bool)
    ensures
        r == (a@ == b@),
{
    match relate(a, b) {
        Relation::Same => true,
        Relation::Before => {
            proof {
                before_irreflexive(codes(a@));
            }
            false
        },
        Relation::After => false,
    }
}

/// `s` begins with `p`.
pub open spec fn has_prefix(s: Seq<char>, p: Seq<char>) -> bool {
    p.len() <= s.len() && s.take(p.len() as int) == p
}

/// Whether the characters `s` begin with the characters `p`.
pub fn begins_with(s: &Vec<char>, p: &Vec<char>) -> (r: bool)
    ensures
        r == has_prefix(s@, p@),
{
    if p.len() > s.len() {
        return false;
    }
    let mut i: usize = 0;
    while i < p.len()
        invariant
            i <= p@.len() <= s@.len(),
            forall|j: int| 0 <= j < i ==> s@[j] == p@[j],
        decreases p@.len() - i,
    {
        if s[i] != p[i] {
            proof {
                assert(s@.take(p@.len() as int)[i as int] != p@[i as int]);
            }
            return false;
        }
        i += 1;
    }
    proof {
        assert(s@.take(p@.len() as int) =~= p@);
    }
    true
}

/// The part of `chars` from `from` up to `to`.
pub fn slice_of(chars: &Vec<char>, from: usize, to: usize) -> (r: Vec<char>)
    requires
        from <= to <= chars@.len(),
    ensures
        r@ == chars@.subrange(from as int, to as int),
{
    let mut r: Vec<char> = Vec::new();
    let mut i: usize = from;
    while i < to
        invariant
            from <= i <= to <= chars@.len(),
            r@ == chars@.subrange(from as int, i as int),
        decreases to - i,
    {
        r.push(chars[i]);
        proof {
            assert(chars@.subrange(from as int, i as int).push(chars@[i as int]) =~= chars@.subrange(
                from as int,
                i as int + 1,
            ));
        }
        i += 1;
    }
    r
}

/// Whether `c` occurs among the characters.
pub fn holds(chars: &Vec<char>, c: char) -> (r: bool)
    ensures
        r == chars@.contains(c),
{
    let mut i: usize = 0;
    while i < chars.len()
        invariant
            i <= chars@.len(),
            forall|j: int| 0 <= j < i ==> chars@[j] != c,
        decreases chars@.len() - i,
    {
        if chars[i] == c {
            return true;
        }
        i += 1;
    }
    false
}

} // verus!
