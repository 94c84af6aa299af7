//! Sequences kept in strictly increasing order of a name, so that every name occurs at most
//! once and the order does not depend on the order of insertion.
use vstd::prelude::*;
use crate::expr::Assign;
use crate::signal::Signal;
use crate::text::{lemma_name_order, name_less, name_lt};

verus! {

/// An item listed under a name.
pub trait Keyed {
    spec fn key(&self) -> Seq<char>;

    fn key_str(&self) -> (r: &str)
        ensures
            r@ == self.key(),
    ;
}

impl Keyed for Signal {
    open spec fn key(&self) -> Seq<char> {
        self@.name
    }

    fn key_str(&self) -> (r: &str) {
        self.name()
    }
}

impl Keyed for Assign {
    open spec fn key(&self) -> Seq<char> {
        self.dest@.name
    }

    fn key_str(&self) -> (r: &str) {
        self.dest.name()
    }
}

/// The names strictly increase along `s`.
pub open spec fn sorted_by_key<T: Keyed>(s: Seq<T>) -> bool {
    forall|i: int, j: int| 0 <= i < j < s.len() ==> name_lt(#[trigger] s[i].key(), #[trigger] s[j].key())
}

/// Some item of `s` is listed under `k`.
pub open spec fn has_key<T: Keyed>(s: Seq<T>, k: Seq<char>) -> bool {
    exists|i: int| 0 <= i < s.len() && #[trigger] s[i].key() == k
}

/// `new` is `old` with `x` added, in name order.
pub open spec fn added<T: Keyed>(old: Seq<T>, new: Seq<T>, x: T) -> bool {
    &&& sorted_by_key(new)
    &&& new.len() == old.len() + 1
    &&& forall|y: T| #[trigger] new.contains(y) <==> old.contains(y) || y == x
}

/// Two sequences in strict name order that hold the same items are the same sequence.
pub proof fn lemma_sorted_unique<T: Keyed>(a: Seq<T>, b: Seq<T>)
    requires
        sorted_by_key(a),
        sorted_by_key(b),
        forall|y: T| #[trigger] a.contains(y) <==> b.contains(y),
    ensures
        a == b,
    decreases a.len(),
{
    if a.len() == 0 {
        if b.len() > 0 {
            assert(b.contains(b[0]));
            assert(a.contains(b[0]));
        }
        assert(a =~= b);
    } else {
        assert(a.contains(a[0]));
        assert(b.contains(a[0]));
        assert(b.len() > 0 && b.contains(b[0]));
        assert(a.contains(b[0]));
        let j = choose|j: int| 0 <= j < b.len() && b[j] == a[0];
        let k = choose|k: int| 0 <= k < a.len() && a[k] == b[0];
        lemma_name_order(a[0].key(), a[0].key(), a[0].key());
        if j > 0 {
            assert(name_lt(b[0].key(), b[j].key()));
            if k > 0 {
                assert(name_lt(a[0].key(), a[k].key()));
                lemma_name_order(a[0].key(), b[0].key(), a[0].key());
            }
            assert(false);
        }
        assert(a[0] == b[0]);
        let a1 = a.drop_first();
        let b1 = b.drop_first();
        assert forall|y: T| #[trigger] a1.contains(y) implies b1.contains(y) by {
            let i = choose|i: int| 0 <= i < a1.len() && a1[i] == y;
            assert(a.contains(y) && a[i + 1] == y);
            assert(name_lt(a[0].key(), a[i + 1].key()));
            assert(b.contains(y));
            let m = choose|m: int| 0 <= m < b.len() && b[m] == y;
            if m == 0 {
                lemma_name_order(y.key(), y.key(), y.key());
            }
            assert(b1[m - 1] == y);
        }
        assert forall|y: T| #[trigger] b1.contains(y) implies a1.contains(y) by {
            let i = choose|i: int| 0 <= i < b1.len() && b1[i] == y;
            assert(b.contains(y) && b[i + 1] == y);
            assert(name_lt(b[0].key(), b[i + 1].key()));
            assert(a.contains(y));
            let m = choose|m: int| 0 <= m < a.len() && a[m] == y;
            if m == 0 {
                lemma_name_order(y.key(), y.key(), y.key());
            }
            assert(a1[m - 1] == y);
        }
        lemma_sorted_unique(a1, b1);
        assert(a =~= a1.insert(0, a[0]));
        assert(b =~= b1.insert(0, b[0]));
    }
}

/// Tells whether some item of `v` is listed under `k`.
pub fn contains_key<T: Keyed>(v: &Vec<T>, k: &str) -> (r: bool)
    ensures
        r == has_key(v@, k@),
{
    let mut i: usize = 0;
    while i < v.len()
        invariant
            i <= v.len(),
            forall|j: int| 0 <= j < i ==> #[trigger] v@[j].key() != k@,
        decreases v.len() - i,
    {
        let here = v[i].key_str();
        if !name_less(here, k) && !name_less(k, here) {
            proof {
                lemma_name_order(here@, k@, k@);
            }
            return true;
        }
        proof {
            if here@ == k@ {
                lemma_name_order(k@, k@, k@);
            }
        }
        i += 1;
    }
    false
}

/// Puts `x` into `v` at the place its name belongs; returns that place.
pub fn insert_sorted<T: Keyed>(v: &mut Vec<T>, x: T) -> (p: usize)
    requires
        sorted_by_key(old(v)@),
        !has_key(old(v)@, x.key()),
    ensures
        p <= old(v)@.len(),
        final(v)@ == old(v)@.insert(p as int, x),
        added(old(v)@, final(v)@, x),
{
    let mut p: usize = 0;
    while p < v.len() && !name_less(x.key_str(), v[p].key_str())
        invariant
            p <= v.len(),
            v@ == old(v)@,
            sorted_by_key(v@),
            !has_key(v@, x.key()),
            forall|j: int| 0 <= j < p ==> name_lt(#[trigger] v@[j].key(), x.key()),
        decreases v.len() - p,
    {
        proof {
            lemma_name_order(v@[p as int].key(), x.key(), x.key());
            assert(v@[p as int].key() != x.key());
        }
        p += 1;
    }
    let ghost before = v@;
    v.insert(p, x);
    proof {
        let after = v@;
        assert forall|i: int, j: int| 0 <= i < j < after.len() implies name_lt(
            #[trigger] after[i].key(),
            #[trigger] after[j].key(),
        ) by {
            if i < p && j < p {
                assert(after[i] == before[i] && after[j] == before[j]);
            } else if i < p && j == p {
                assert(after[i] == before[i]);
            } else if i < p {
                assert(after[i] == before[i] && after[j] == before[j - 1]);
                assert(name_lt(before[i].key(), before[p as int].key()));
            } else if i == p {
                assert(after[j] == before[j - 1]);
                if j - 1 > p {
                    assert(name_lt(before[p as int].key(), before[j - 1].key()));
                    lemma_name_order(x.key(), before[p as int].key(), before[j - 1].key());
                }
            } else {
                assert(after[i] == before[i - 1] && after[j] == before[j - 1]);
            }
        }
        assert forall|y: T| #[trigger] after.contains(y) <==> before.contains(y) || y == x by {
            if after.contains(y) {
                let k = choose|k: int| 0 <= k < after.len() && after[k] == y;
                if k < p {
                    assert(before[k] == y);
                } else if k > p {
                    assert(before[k - 1] == y);
                }
            }
            if before.contains(y) {
                let k = choose|k: int| 0 <= k < before.len() && before[k] == y;
                if k < p {
                    assert(after[k] == y);
                } else {
                    assert(after[k + 1] == y);
                }
            }
            if y == x {
                assert(after[p as int] == x);
            }
        }
    }
    p
}

/// Once an item is added under a name, the name is taken: an item under the same name no
/// longer meets the condition for being added. So a second assignment to one destination
/// in a module or a scope, or a second declaration of one name, is refused.
pub proof fn law_duplicate_refused<T: Keyed>(before: Seq<T>, after: Seq<T>, x: T, y: T)
    requires
        added(before, after, x),
        y.key() == x.key(),
    ensures
        has_key(after, y.key()),
{
    assert(after.contains(x));
}

/// The order of a name-ordered list does not depend on the order of insertion: adding `x`
/// then `y` gives the same list as adding `y` then `x`.
pub proof fn law_insertion_order_irrelevant<T: Keyed>(
    s0: Seq<T>,
    x: T,
    y: T,
    s1: Seq<T>,
    s12: Seq<T>,
    t1: Seq<T>,
    t12: Seq<T>,
)
    requires
        added(s0, s1, x),
        added(s1, s12, y),
        added(s0, t1, y),
        added(t1, t12, x),
    ensures
        s12 == t12,
{
    assert forall|z: T| #[trigger] s12.contains(z) <==> t12.contains(z) by {
        assert(s12.contains(z) <==> s1.contains(z) || z == y);
        assert(t12.contains(z) <==> t1.contains(z) || z == x);
    }
    lemma_sorted_unique(s12, t12);
}

} // verus!
