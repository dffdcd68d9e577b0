//! Sorting, and the removal of repeats from what is sorted.

use vstd::prelude::*;
use vstd::seq_lib::{
    lemma_multiset_commutative, to_multiset_build, to_multiset_contains, to_multiset_len,
};
use vstd::multiset::Multiset;
use crate::compare::{same, Ranked};
use crate::order::{lawful, Order};
use crate::vecs::{lemma_deep_view_pop, lemma_deep_view_push};

verus! {

/// No element of `s` comes after a later one.
pub open spec fn sorted<A>(s: Seq<A>, o: spec_fn(A, A) -> Order) -> bool {
    forall|i: int, j: int| 0 <= i < j < s.len() ==> o(s[i], s[j]) != Order::After
}

/// Every element of `s` comes before each later one.
pub open spec fn strictly_sorted<A>(s: Seq<A>, o: spec_fn(A, A) -> Order) -> bool {
    forall|i: int, j: int| 0 <= i < j < s.len() ==> o(s[i], s[j]) == Order::Before
}

/// A sorted sequence stays sorted when an element is put between a front
/// part that does not come after it and a back part that it does not come
/// after.
proof fn lemma_sorted_between<A>(front: Seq<A>, e: A, back: Seq<A>, o: spec_fn(A, A) -> Order)
    requires
        lawful(o),
        sorted(front, o),
        sorted(seq![e] + back, o),
        front.len() > 0 ==> o(front.last(), e) != Order::After,
    ensures
        sorted(front + (seq![e] + back), o),
{
    let tail = seq![e] + back;
    let whole = front + tail;
    let n = front.len() as int;
    assert forall|i: int, j: int| 0 <= i < j < whole.len() implies o(whole[i], whole[j])
        != Order::After by {
        if i < n < j {
            assert(o(tail[0], tail[j - n]) != Order::After);
        }
    }
}

/// Moves the last element of `from` behind `down`, which holds, from the
/// last to the first, what comes behind the elements of `from` and `other`.
fn move_last<T: Ranked>(from: &mut Vec<T>, other: &Vec<T>, down: &mut Vec<T>)
    requires
        old(from).len() > 0,
        sorted(old(from).deep_view() + old(down).deep_view().reverse(), T::rank()),
        sorted(other.deep_view() + old(down).deep_view().reverse(), T::rank()),
        other.len() > 0 ==> T::rank()(other.deep_view().last(), old(from).deep_view().last())
            != Order::After,
    ensures
        final(from).deep_view() == old(from).deep_view().drop_last(),
        final(down).deep_view() == old(down).deep_view().push(old(from).deep_view().last()),
        sorted(final(from).deep_view() + final(down).deep_view().reverse(), T::rank()),
        sorted(other.deep_view() + final(down).deep_view().reverse(), T::rank()),
{
    let ghost o = T::rank();
    let ghost left = from.deep_view();
    let ghost right = other.deep_view();
    let ghost rest = down.deep_view().reverse();
    let e = from.pop().unwrap();
    down.push(e);
    proof {
        T::lemma_rank_lawful();
        let v = e.deep_view();
        let tail = seq![v] + rest;
        assert(down.deep_view().reverse() =~= tail);
        assert(from.deep_view() + tail =~= left + rest);
        assert((left + rest).subrange(left.len() - 1, (left + rest).len() as int) =~= tail);
        assert((right + rest).subrange(0, right.len() as int) =~= right);
        lemma_sorted_between(right, v, rest, o);
    }
}

/// Merges two sorted vectors into one that holds their elements from the
/// last to the first.
fn merge_down<T: Ranked>(a: Vec<T>, b: Vec<T>) -> (down: Vec<T>)
    requires
        sorted(a.deep_view(), T::rank()),
        sorted(b.deep_view(), T::rank()),
    ensures
        sorted(down.deep_view().reverse(), T::rank()),
        down.deep_view().to_multiset() == a.deep_view().to_multiset().add(
            b.deep_view().to_multiset(),
        ),
{
    let ghost x = a.deep_view();
    let ghost y = b.deep_view();
    let ghost o = T::rank();
    let mut a = a;
    let mut b = b;
    let mut down: Vec<T> = Vec::new();
    proof {
        T::lemma_rank_lawful();
        assert(down.deep_view().to_multiset() =~= Multiset::<T::V>::empty()) by {
            to_multiset_len(down.deep_view());
        }
        assert(down.deep_view().to_multiset().add(x.to_multiset()).add(y.to_multiset())
            =~= x.to_multiset().add(y.to_multiset()));
    }
    while a.len() > 0 || b.len() > 0
        invariant
            o == T::rank(),
            lawful(o),
            sorted(a.deep_view() + down.deep_view().reverse(), o),
            sorted(b.deep_view() + down.deep_view().reverse(), o),
            down.deep_view().to_multiset().add(a.deep_view().to_multiset()).add(
                b.deep_view().to_multiset(),
            ) == x.to_multiset().add(y.to_multiset()),
        decreases a.len() + b.len(),
    {
        let ghost a0 = a.deep_view();
        let ghost b0 = b.deep_view();
        let ghost d0 = down.deep_view();
        let from_a = if b.len() == 0 {
            true
        } else if a.len() == 0 {
            false
        } else {
            match a[a.len() - 1].compare(&b[b.len() - 1]) {
                Order::After => true,
                _ => false,
            }
        };
        if from_a {
            move_last(&mut a, &b, &mut down);
            proof {
                assert(a0 =~= a.deep_view().push(a0.last()));
                to_multiset_build(a.deep_view(), a0.last());
            }
        } else {
            move_last(&mut b, &a, &mut down);
            proof {
                assert(b0 =~= b.deep_view().push(b0.last()));
                to_multiset_build(b.deep_view(), b0.last());
            }
        }
        proof {
            to_multiset_build(d0, down.deep_view().last());
            assert(down.deep_view().to_multiset().add(a.deep_view().to_multiset()).add(
                b.deep_view().to_multiset(),
            ) =~= d0.to_multiset().add(a0.to_multiset()).add(b0.to_multiset()));
        }
    }
    proof {
        assert(a.deep_view().to_multiset() =~= Multiset::<T::V>::empty()) by {
            to_multiset_len(a.deep_view());
        }
        assert(b.deep_view().to_multiset() =~= Multiset::<T::V>::empty()) by {
            to_multiset_len(b.deep_view());
        }
    }
    down
}

/// Turns a vector round: the last element comes first.
fn turn_round<T: DeepView>(v: Vec<T>) -> (r: Vec<T>)
    ensures
        r.deep_view() == v.deep_view().reverse(),
{
    let ghost d = v.deep_view();
    let mut v = v;
    let mut r: Vec<T> = Vec::new();
    while v.len() > 0
        invariant
            v.len() <= d.len(),
            v.deep_view() == d.take(v.len() as int),
            r.len() == d.len() - v.len(),
            forall|k: int| 0 <= k < r.len() ==> #[trigger] r.deep_view()[k] == d[d.len() - 1 - k],
        decreases v.len(),
    {
        let ghost v0 = v;
        let ghost r0 = r;
        let e = v.pop().unwrap();
        r.push(e);
        proof {
            lemma_deep_view_pop(v0, v);
            lemma_deep_view_push(r0, r, e);
        }
    }
    r
}

/// Merges two sorted vectors into one.
fn merge<T: Ranked>(a: Vec<T>, b: Vec<T>) -> (r: Vec<T>)
    requires
        sorted(a.deep_view(), T::rank()),
        sorted(b.deep_view(), T::rank()),
    ensures
        sorted(r.deep_view(), T::rank()),
        r.deep_view().to_multiset() == a.deep_view().to_multiset().add(
            b.deep_view().to_multiset(),
        ),
{
    let down = merge_down(a, b);
    proof {
        down.deep_view().lemma_reverse_to_multiset();
    }
    turn_round(down)
}

/// Sorts `v`: the result holds what `v` held, each as often as `v` did, and
/// no element of it comes after a later one.
pub fn sort<T: Ranked>(v: Vec<T>) -> (r: Vec<T>)
    ensures
        sorted(r.deep_view(), T::rank()),
        r.deep_view().to_multiset() == v.deep_view().to_multiset(),
    decreases v.len(),
{
    if v.len() <= 1 {
        return v;
    }
    let mut left = v;
    let half = left.len() / 2;
    let right = left.split_off(half);
    proof {
        assert(v.deep_view() =~= left.deep_view() + right.deep_view());
        lemma_multiset_commutative(left.deep_view(), right.deep_view());
    }
    merge(sort(left), sort(right))
}

/// Drops the repeats from the sorted `v`: the result holds each element of
/// `v` once, every one before each later one.
pub(crate) fn dedup_sorted<T: Ranked>(v: Vec<T>) -> (r: Vec<T>)
    requires
        sorted(v.deep_view(), T::rank()),
    ensures
        strictly_sorted(r.deep_view(), T::rank()),
        r.deep_view().to_set() == v.deep_view().to_set(),
{
    let ghost src = v.deep_view();
    let ghost o = T::rank();
    let mut out: Vec<T> = Vec::new();
    proof {
        T::lemma_rank_lawful();
    }
    for x in it: v.into_iter()
        invariant
            it.seq() == v@,
            src == v.deep_view(),
            o == T::rank(),
            lawful(o),
            sorted(src, o),
            strictly_sorted(out.deep_view(), o),
            out.deep_view().to_set() == src.take(it.index() as int).to_set(),
            out.len() <= it.index(),
            it.index() > 0 ==> out.len() > 0 && out.deep_view().last() == src[it.index() - 1],
    {
        let ghost k = it.index() as int;
        let ghost held = out.deep_view();
        proof {
            assert(src.take(k + 1) =~= src.take(k).push(src[k]));
            src.take(k).lemma_push_to_set_commute(src[k]);
        }
        let fresh = out.len() == 0 || !same(&out[out.len() - 1], &x);
        if fresh {
            let ghost before = out;
            out.push(x);
            proof {
                lemma_deep_view_push(before, out, x);
                held.lemma_push_to_set_commute(src[k]);
            }
        }
    }
    assert(src.take(src.len() as int) =~= src);
    out
}

/// In a total order there is one way to sort: two sorted sequences that
/// hold the same elements equally often are equal.
pub proof fn lemma_sorted_unique<A>(a: Seq<A>, b: Seq<A>, o: spec_fn(A, A) -> Order)
    requires
        lawful(o),
        sorted(a, o),
        sorted(b, o),
        a.to_multiset() == b.to_multiset(),
    ensures
        a == b,
    decreases a.len(),
{
    to_multiset_len(a);
    to_multiset_len(b);
    if a.len() > 0 {
        let x = a.last();
        let y = b.last();
        let front = a.drop_last();
        let back = b.drop_last();
        to_multiset_contains(a, y);
        to_multiset_contains(b, x);
        assert(a =~= front.push(x));
        assert(b =~= back.push(y));
        to_multiset_build(front, x);
        to_multiset_build(back, y);
        assert(front.to_multiset() =~= a.to_multiset().remove(x));
        assert(back.to_multiset() =~= b.to_multiset().remove(y));
        lemma_sorted_unique(front, back, o);
    }
}

/// In a total order there is one way to list a set: two strictly sorted
/// sequences that hold the same elements are equal.
pub proof fn lemma_strictly_sorted_unique<A>(a: Seq<A>, b: Seq<A>, o: spec_fn(A, A) -> Order)
    requires
        lawful(o),
        strictly_sorted(a, o),
        strictly_sorted(b, o),
        a.to_set() == b.to_set(),
    ensures
        a == b,
    decreases a.len(),
{
    if a.len() == 0 {
        if b.len() > 0 {
            assert(b.to_set().contains(b[0]));
        }
    } else {
        let x = a.last();
        let y = b.last();
        let front = a.drop_last();
        let back = b.drop_last();
        assert(a.to_set().contains(x));
        assert(b.to_set().contains(y));
        assert forall|e: A| front.to_set().contains(e) <==> back.to_set().contains(e) by {
            if front.to_set().contains(e) {
                assert(b.to_set().contains(e));
                let q = choose|q: int| 0 <= q < b.len() && b[q] == e;
                assert(back[q] == e);
            }
            if back.to_set().contains(e) {
                assert(a.to_set().contains(e));
                let q = choose|q: int| 0 <= q < a.len() && a[q] == e;
                assert(front[q] == e);
            }
        }
        assert(front.to_set() =~= back.to_set());
        lemma_strictly_sorted_unique(front, back, o);
        assert(a =~= front.push(x));
    }
}

} // verus!
