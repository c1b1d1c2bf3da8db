//! Stable sorting by a strict order.

use vstd::prelude::*;

verus! {

/// A type whose values can be put in order.
pub trait Ranked: Sized {
    /// Whether `self` belongs strictly before `other`.
    spec fn before(&self, other: &Self) -> bool;

    /// The order is a strict weak order.
    proof fn order_laws(a: Self, b: Self, c: Self)
        ensures
            !a.before(&a),
            a.before(&b) ==> !b.before(&a),
            !b.before(&a) && !c.before(&b) ==> !c.before(&a),
    ;

    /// Whether `self` belongs strictly before `other`.
    fn is_before(&self, other: &Self) -> (r: bool)
        ensures
            r == self.before(other),
    ;
}

/// `s` with `x` placed behind every element that `x` does not belong before, seen from the end.
pub open spec fn placed<T: Ranked>(s: Seq<T>, x: T) -> Seq<T>
    decreases s.len(),
{
    if s.len() == 0 || !x.before(&s.last()) {
        s.push(x)
    } else {
        placed(s.drop_last(), x).push(s.last())
    }
}

/// The elements of `s` in order; elements of which neither belongs first keep their order.
pub open spec fn sorted<T: Ranked>(s: Seq<T>) -> Seq<T>
    decreases s.len(),
{
    if s.len() == 0 {
        s
    } else {
        placed(sorted(s.drop_last()), s.last())
    }
}

/// Whether no element belongs before an earlier one.
pub open spec fn in_order<T: Ranked>(s: Seq<T>) -> bool {
    forall|i: int, j: int| 0 <= i < j < s.len() ==> !(#[trigger] s[j]).before(#[trigger] &s[i])
}

proof fn placed_is_insert<T: Ranked>(s: Seq<T>, x: T, p: int)
    requires
        0 <= p <= s.len(),
        p > 0 ==> !x.before(&s[p - 1]),
        forall|q: int| p <= q < s.len() ==> x.before(#[trigger] &s[q]),
    ensures
        placed(s, x) == s.insert(p, x),
    decreases s.len(),
{
    if p < s.len() {
        assert(x.before(&s[s.len() - 1]));
        placed_is_insert(s.drop_last(), x, p);
        assert(s.drop_last().insert(p, x).push(s.last()) == s.insert(p, x));
    } else if s.len() > 0 {
        assert(s.insert(p, x) == s.push(x));
    } else {
        assert(s.insert(p, x) == s.push(x));
    }
}

proof fn placed_keeps_elements<T: Ranked>(s: Seq<T>, x: T)
    ensures
        placed(s, x).len() == s.len() + 1,
        placed(s, x).to_multiset() == s.to_multiset().insert(x),
    decreases s.len(),
{
    broadcast use vstd::seq_lib::group_to_multiset_ensures;
    if s.len() > 0 && x.before(&s.last()) {
        placed_keeps_elements(s.drop_last(), x);
        assert(s == s.drop_last().push(s.last()));
        assert(placed(s, x).to_multiset() =~= s.to_multiset().insert(x));
    }
}

proof fn placed_stays_in_order<T: Ranked>(s: Seq<T>, x: T)
    requires
        in_order(s),
    ensures
        in_order(placed(s, x)),
        forall|j: int| 0 <= j < placed(s, x).len() ==> s.contains(#[trigger] placed(s, x)[j]) || placed(s, x)[j] == x,
    decreases s.len(),
{
    if s.len() == 0 {
    } else if !x.before(&s.last()) {
        let r = s.push(x);
        assert forall|i: int, j: int| 0 <= i < j < r.len() implies !(#[trigger] r[j]).before(#[trigger] &r[i]) by {
            if j == s.len() && i < s.len() - 1 {
                T::order_laws(s[i], s.last(), x);
                assert(!s[s.len() - 1].before(&s[i]));
            }
        }
    } else {
        let d = s.drop_last();
        placed_stays_in_order(d, x);
        let r = placed(s, x);
        let front = placed(d, x);
        assert forall|i: int, j: int| 0 <= i < j < r.len() implies !(#[trigger] r[j]).before(#[trigger] &r[i]) by {
            if j == front.len() {
                assert(r[i] == front[i]);
                if front[i] == x {
                    T::order_laws(x, s.last(), x);
                } else {
                    let k = choose|k: int| 0 <= k < d.len() && d[k] == front[i];
                    assert(s[k] == front[i]);
                    assert(!s[s.len() - 1].before(&s[k]));
                }
            }
        }
        assert forall|j: int| 0 <= j < r.len() implies s.contains(#[trigger] r[j]) || r[j] == x by {
            if j == front.len() {
                assert(s[s.len() - 1] == r[j]);
            } else {
                assert(r[j] == front[j]);
                if front[j] != x {
                    let k = choose|k: int| 0 <= k < d.len() && d[k] == front[j];
                    assert(s[k] == r[j]);
                }
            }
        }
    }
}

/// Sorting keeps every element, as often as it occurred, and puts them in order.
pub proof fn sorting_orders_and_keeps<T: Ranked>(s: Seq<T>)
    ensures
        in_order(sorted(s)),
        sorted(s).len() == s.len(),
        sorted(s).to_multiset() == s.to_multiset(),
    decreases s.len(),
{
    broadcast use vstd::seq_lib::group_to_multiset_ensures;
    if s.len() > 0 {
        sorting_orders_and_keeps(s.drop_last());
        placed_stays_in_order(sorted(s.drop_last()), s.last());
        placed_keeps_elements(sorted(s.drop_last()), s.last());
        assert(s == s.drop_last().push(s.last()));
    }
}

/// Sorting what is in order changes nothing.
pub proof fn sorting_the_sorted_changes_nothing<T: Ranked>(s: Seq<T>)
    requires
        in_order(s),
    ensures
        sorted(s) == s,
    decreases s.len(),
{
    if s.len() > 0 {
        assert(in_order(s.drop_last()));
        sorting_the_sorted_changes_nothing(s.drop_last());
        assert(s == s.drop_last().push(s.last()));
        if s.len() > 1 {
            assert(!s[s.len() - 1].before(&s[s.len() - 2]));
        }
    }
}

/// Sort a list, stably.
pub fn sort<T: Ranked>(v: Vec<T>) -> (r: Vec<T>)
    ensures
        r@ == sorted(v@),
{
    let mut out: Vec<T> = Vec::new();
    let ghost all = v@;
    let mut rest = v;
    // Taking elements off the end visits them last to first, so the list is reversed once.
    let mut back: Vec<T> = Vec::new();
    while rest.len() > 0
        invariant
            rest@ + back@.reverse() == all,
        decreases rest@.len(),
    {
        let ghost r0 = rest@;
        let ghost b0 = back@;
        if let Some(x) = rest.pop() {
            back.push(x);
            assert(back@.reverse() == seq![x] + b0.reverse());
            assert(r0 == rest@.push(x));
        }
    }
    assert(back@.reverse() == all);
    while back.len() > 0
        invariant
            back@.len() <= all.len(),
            back@.reverse() == all.skip(all.len() - back@.len()),
            out@ == sorted(all.take(all.len() - back@.len())),
        decreases back@.len(),
    {
        let ghost n = all.len() - back@.len();
        let ghost b0 = back@;
        if let Some(x) = back.pop() {
            proof {
                assert(x == b0.reverse()[0]);
                assert(x == all[n]);
                assert(back@.reverse() == b0.reverse().drop_first());
                assert(b0.reverse().drop_first() == all.skip(n + 1));
                assert(all.take(n + 1).drop_last() == all.take(n));
            }
            let mut p: usize = out.len();
            while p > 0 && x.is_before(&out[p - 1])
                invariant
                    p <= out@.len(),
                    forall|q: int| p <= q < out@.len() ==> x.before(#[trigger] &out@[q]),
                decreases p,
            {
                p = p - 1;
            }
            proof {
                placed_is_insert(out@, x, p as int);
            }
            out.insert(p, x);
        }
    }
    assert(all.take(all.len() as int) == all);
    out
}

} // verus!
