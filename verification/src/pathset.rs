//! A set of paths, kept in order.

use vstd::prelude::*;
use vstd::string::*;

use crate::index;
use crate::text;
use crate::text::{begins_with, chars_of, relate, Relation};

verus! {

/// The texts come in order, each once.
pub open spec fn is_ascending(list: Seq<Seq<char>>) -> bool {
    forall|i: int, j: int|
        0 <= i < j < list.len() ==> text::text_before(#[trigger] list[i], #[trigger] list[j])
}

/// Two ascending lists with the same texts are the same list.
pub proof fn ascending_is_unique(a: Seq<Seq<char>>, b: Seq<Seq<char>>)
    requires
        is_ascending(a),
        is_ascending(b),
        forall|x: Seq<char>| #[trigger] a.contains(x) <==> b.contains(x),
    ensures
        a == b,
    decreases a.len(),
{
    if a.len() == 0 {
        if b.len() > 0 {
            assert(b.contains(b[0]));
            assert(a.contains(b[0]));
        }
        assert(a =~= b);
    } else {
        assert(a.contains(a.last()));
        let k = choose|k: int| 0 <= k < b.len() && b[k] == a.last();
        let n = b.len() - 1;
        if k < n {
            assert(text::text_before(b[k], b[n]));
            assert(b.contains(b[n]));
            assert(a.contains(b[n]));
            let j = choose|j: int| 0 <= j < a.len() && a[j] == b[n];
            if j < a.len() - 1 {
                assert(text::text_before(a[j], a[a.len() - 1]));
            }
            text::before_irreflexive(text::codes(b[n]));
            if text::text_before(b[n], b[k]) {
                text::before_asymmetric(text::codes(b[n]), text::codes(b[k]));
            }
        }
        let x = a.drop_last();
        let y = b.drop_last();
        assert forall|i: int, j: int| 0 <= i < j < x.len() implies text::text_before(
            #[trigger] x[i],
            #[trigger] x[j],
        ) by {
            assert(text::text_before(a[i], a[j]));
        }
        assert forall|i: int, j: int| 0 <= i < j < y.len() implies text::text_before(
            #[trigger] y[i],
            #[trigger] y[j],
        ) by {
            assert(text::text_before(b[i], b[j]));
        }
        text::before_irreflexive(text::codes(a.last()));
        assert forall|t: Seq<char>| #[trigger] x.contains(t) <==> y.contains(t) by {
            if x.contains(t) {
                let i = choose|i: int| 0 <= i < x.len() && x[i] == t;
                assert(text::text_before(a[i], a[a.len() - 1]));
                assert(a.contains(a[i]));
                let j = choose|j: int| 0 <= j < b.len() && b[j] == t;
                assert(j < n);
                assert(y[j] == t);
            }
            if y.contains(t) {
                let i = choose|i: int| 0 <= i < y.len() && y[i] == t;
                assert(text::text_before(b[i], b[n]));
                assert(b.contains(b[i]));
                assert(a.contains(t));
                let j = choose|j: int| 0 <= j < a.len() && a[j] == t;
                assert(b[n] == a.last());
                assert(j < a.len() - 1);
                assert(x[j] == t);
            }
        }
        ascending_is_unique(x, y);
        assert(a =~= x.push(a.last()));
        assert(b =~= y.push(b.last()));
    }
}

/// Some path of the list lies below the given one.
pub open spec fn any_below(list: Seq<Seq<char>>, path: Seq<char>) -> bool {
    exists|i: int| 0 <= i < list.len() && text::has_prefix(#[trigger] list[i], path.push('/'))
}

/// A set of paths. Its view lists them in order.
#[derive(Debug)]
pub struct PathSet {
    list: Vec<String>,
}

impl View for PathSet {
    type V = Seq<Seq<char>>;

    closed spec fn view(&self) -> Seq<Seq<char>> {
        index::texts(self.list@)
    }
}

impl PathSet {
    #[verifier::type_invariant]
    closed spec fn is_in_order(self) -> bool {
        is_ascending(self@)
    }

    /// No paths.
    pub fn new() -> (r: PathSet)
        ensures
            r@ == Seq::<Seq<char>>::empty(),
    {
        let list: Vec<String> = Vec::new();
        proof {
            assert(index::texts(list@) =~= Seq::<Seq<char>>::empty());
        }
        PathSet { list }
    }

    /// How many paths there are.
    pub fn len(&self) -> (r: usize)
        ensures
            r == self@.len(),
            is_ascending(self@),
    {
        proof {
            use_type_invariant(self);
        }
        self.list.len()
    }

    /// The path at a position in the order.
    pub fn at(&self, i: usize) -> (r: &String)
        requires
            i < self@.len(),
        ensures
            r@ == self@[i as int],
    {
        &self.list[i]
    }

    /// Where a path stands or belongs, and whether it is there.
    fn place(&self, path: &str) -> (r: (usize, bool))
        ensures
            is_ascending(self@),
            r.0 <= self@.len(),
            forall|j: int| 0 <= j < r.0 ==> text::text_before(#[trigger] self@[j], path@),
            r.1 ==> r.0 < self@.len() && self@[r.0 as int] == path@,
            !r.1 ==> forall|j: int|
                r.0 <= j < self@.len() ==> text::text_before(path@, #[trigger] self@[j]),
    {
        proof {
            use_type_invariant(self);
        }
        let mut lo: usize = 0;
        let mut hi: usize = self.list.len();
        let ghost all = self@;
        while lo < hi
            invariant
                all == self@,
                all.len() == self.list@.len(),
                is_ascending(all),
                lo <= hi <= all.len(),
                forall|j: int| 0 <= j < lo ==> text::text_before(#[trigger] all[j], path@),
                forall|j: int| hi <= j < all.len() ==> text::text_before(path@, #[trigger] all[j]),
            decreases hi - lo,
        {
            let mid: usize = lo + (hi - lo) / 2;
            proof {
                assert(all[mid as int] == self.list@[mid as int]@);
            }
            match relate(self.list[mid].as_str(), path) {
                Relation::Same => {
                    return (mid, true);
                },
                Relation::Before => {
                    proof {
                        assert forall|j: int| 0 <= j < mid + 1 implies text::text_before(
                            #[trigger] all[j],
                            path@,
                        ) by {
                            if j < mid {
                                assert(text::text_before(all[j], all[mid as int]));
                                text::before_transitive(
                                    text::codes(all[j]),
                                    text::codes(all[mid as int]),
                                    text::codes(path@),
                                );
                            }
                        }
                    }
                    lo = mid + 1;
                },
                Relation::After => {
                    proof {
                        assert forall|j: int| mid <= j < all.len() implies text::text_before(
                            path@,
                            #[trigger] all[j],
                        ) by {
                            if j > mid {
                                assert(text::text_before(all[mid as int], all[j]));
                                text::before_transitive(
                                    text::codes(path@),
                                    text::codes(all[mid as int]),
                                    text::codes(all[j]),
                                );
                            }
                        }
                    }
                    hi = mid;
                },
            }
        }
        (lo, false)
    }

    /// Whether a path is in the set.
    pub fn contains(&self, path: &str) -> (r: bool)
        ensures
            r == self@.contains(path@),
    {
        let (k, found) = self.place(path);
        proof {
            text::before_irreflexive(text::codes(path@));
            if !found && self@.contains(path@) {
                let j = choose|j: int| 0 <= j < self@.len() && self@[j] == path@;
                assert(text::text_before(self@[j], path@) || text::text_before(path@, self@[j]));
            }
        }
        found
    }

    /// The set with one path more.
    pub fn with(self, path: String) -> (r: PathSet)
        ensures
            is_ascending(r@),
            forall|x: Seq<char>| #[trigger] r@.contains(x) <==> self@.contains(x) || x == path@,
            self@.contains(path@) ==> r@ == self@,
    {
        let ghost before = self@;
        let (k, found) = self.place(path.as_str());
        if found {
            return self;
        }
        let ghost p = path@;
        proof {
            text::before_irreflexive(text::codes(p));
            if before.contains(p) {
                let j = choose|j: int| 0 <= j < before.len() && before[j] == p;
                assert(text::text_before(before[j], p) || text::text_before(p, before[j]));
            }
        }
        let mut list = self.list;
        list.insert(k, path);
        proof {
            let after = index::texts(list@);
            assert(after =~= before.insert(k as int, p));
            assert forall|i: int, j: int| 0 <= i < j < after.len() implies text::text_before(
                #[trigger] after[i],
                #[trigger] after[j],
            ) by {
                let a = if i < k { i } else { i - 1 };
                let b = if j < k { j } else { j - 1 };
                if i != k && j != k {
                    assert(text::text_before(before[a], before[b]));
                }
            }
            assert forall|x: Seq<char>| #[trigger] after.contains(x) <==> before.contains(x) || x
                == p by {
                if after.contains(x) {
                    let i = choose|i: int| 0 <= i < after.len() && after[i] == x;
                    if i != k {
                        let a = if i < k { i } else { i - 1 };
                        assert(before[a] == x);
                    }
                }
                if before.contains(x) {
                    let i = choose|i: int| 0 <= i < before.len() && before[i] == x;
                    let a = if i < k { i } else { i + 1 };
                    assert(after[a] == x);
                }
                assert(after[k as int] == p);
            }
        }
        PathSet { list }
    }

    /// The set without a path.
    pub fn without(self, path: &str) -> (r: PathSet)
        ensures
            is_ascending(r@),
            forall|x: Seq<char>| #[trigger] r@.contains(x) <==> self@.contains(x) && x != path@,
    {
        let ghost before = self@;
        let ghost p = path@;
        let (k, found) = self.place(path);
        proof {
            text::before_irreflexive(text::codes(p));
        }
        if !found {
            proof {
                if before.contains(p) {
                    let j = choose|j: int| 0 <= j < before.len() && before[j] == p;
                    assert(text::text_before(before[j], p) || text::text_before(p, before[j]));
                }
            }
            return self;
        }
        let mut list = self.list;
        let _ = list.remove(k);
        proof {
            let after = index::texts(list@);
            assert(after =~= before.remove(k as int));
            assert forall|i: int, j: int| 0 <= i < j < after.len() implies text::text_before(
                #[trigger] after[i],
                #[trigger] after[j],
            ) by {
                let a = if i < k { i } else { i + 1 };
                let b = if j < k { j } else { j + 1 };
                assert(text::text_before(before[a], before[b]));
            }
            assert forall|x: Seq<char>| #[trigger] after.contains(x) <==> before.contains(x) && x
                != p by {
                if after.contains(x) {
                    let i = choose|i: int| 0 <= i < after.len() && after[i] == x;
                    let a = if i < k { i } else { i + 1 };
                    assert(before[a] == x);
                    if a < k {
                        assert(text::text_before(before[a], before[k as int]));
                    } else {
                        assert(text::text_before(before[k as int], before[a]));
                    }
                }
                if before.contains(x) && x != p {
                    let i = choose|i: int| 0 <= i < before.len() && before[i] == x;
                    let a = if i < k { i } else { i - 1 };
                    assert(after[a] == x);
                }
            }
        }
        PathSet { list }
    }

    /// Whether a path of the set lies below the given one.
    pub fn has_below(&self, path: &str) -> (r: bool)
        ensures
            r == any_below(self@, path@),
    {
        let mut prefix = chars_of(path);
        prefix.push('/');
        let mut i: usize = 0;
        while i < self.list.len()
            invariant
                prefix@ == path@.push('/'),
                self@.len() == self.list@.len(),
                i <= self.list@.len(),
                forall|j: int| 0 <= j < i ==> !text::has_prefix(#[trigger] self@[j], path@.push('/')),
            decreases self.list@.len() - i,
        {
            let chars = chars_of(self.list[i].as_str());
            proof {
                assert(self@[i as int] == chars@);
            }
            if begins_with(&chars, &prefix) {
                return true;
            }
            i += 1;
        }
        false
    }
}

} // verus!
