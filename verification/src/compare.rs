//! Comparison of texts, values, tags and records in their total order.

use vstd::prelude::*;
use vstd::std_specs::iter::IteratorSpec;
use crate::order::{
    char_order, lawful, lemma_record_order_lawful, lemma_tag_order_lawful, lemma_text_order_lawful,
    lemma_value_order_lawful, lex, lex_order, option_order, record_order, tag_order, text_order,
    value_order, Order,
};
use crate::record::{FTagFile, Record};
use crate::tag::{FTag, Tag};
use crate::value::{FTagData, TagValue};

verus! {

/// Compares two characters by code point.
pub fn compare_chars(a: char, b: char) -> (o: Order)
    ensures
        o == char_order()(a, b),
{
    if a < b {
        Order::Before
    } else if a == b {
        Order::Same
    } else {
        Order::After
    }
}

/// Compares two texts character by character.
pub fn compare_text(a: &str, b: &str) -> (o: Order)
    ensures
        o == text_order()(a@, b@),
{
    let mut left = a.chars();
    let mut right = b.chars();
    let ghost mut k: int = 0;
    assert(a@.skip(0) =~= a@ && b@.skip(0) =~= b@);
    loop
        invariant
            0 <= k <= a@.len(),
            k <= b@.len(),
            left.remaining() == a@.skip(k),
            right.remaining() == b@.skip(k),
            lex_order(a@, b@, char_order()) == lex_order(a@.skip(k), b@.skip(k), char_order()),
        decreases a@.len() - k,
    {
        let x = left.next();
        let y = right.next();
        match (x, y) {
            (None, None) => {
                return Order::Same;
            },
            (None, Some(_)) => {
                return Order::Before;
            },
            (Some(_), None) => {
                return Order::After;
            },
            (Some(p), Some(q)) => {
                let o = compare_chars(p, q);
                match o {
                    Order::Same => {
                        proof {
                            assert(a@.skip(k).skip(1) =~= a@.skip(k + 1));
                            assert(b@.skip(k).skip(1) =~= b@.skip(k + 1));
                            k = k + 1;
                        }
                    },
                    _ => {
                        return o;
                    },
                }
            },
        }
    }
}

/// Tells whether two texts are the same.
pub fn same_text(a: &str, b: &str) -> (r: bool)
    ensures
        r == (a@ == b@),
{
    proof {
        lemma_text_order_lawful();
    }
    match compare_text(a, b) {
        Order::Same => true,
        _ => false,
    }
}

/// A type whose values stand in a total order, by what they mean.
pub trait Ranked: DeepView + Sized {
    /// The order of the values.
    spec fn rank() -> spec_fn(Self::V, Self::V) -> Order;

    /// The order is total.
    proof fn lemma_rank_lawful()
        ensures
            lawful(Self::rank()),
    ;

    /// Where `self` stands to `other`.
    fn compare(&self, other: &Self) -> (o: Order)
        ensures
            o == Self::rank()(self.deep_view(), other.deep_view()),
    ;
}

/// Compares two vectors by their first difference.
pub fn compare_vecs<T: Ranked>(a: &Vec<T>, b: &Vec<T>) -> (o: Order)
    ensures
        o == lex(T::rank())(a.deep_view(), b.deep_view()),
{
    let ghost x = a.deep_view();
    let ghost y = b.deep_view();
    let mut k: usize = 0;
    assert(x.skip(0) =~= x && y.skip(0) =~= y);
    while k < a.len() && k < b.len()
        invariant
            k <= a.len(),
            k <= b.len(),
            x == a.deep_view(),
            y == b.deep_view(),
            lex_order(x, y, T::rank()) == lex_order(x.skip(k as int), y.skip(k as int), T::rank()),
        decreases a.len() - k,
    {
        let o = a[k].compare(&b[k]);
        match o {
            Order::Same => {
                proof {
                    assert(x.skip(k as int).skip(1) =~= x.skip(k + 1));
                    assert(y.skip(k as int).skip(1) =~= y.skip(k + 1));
                }
            },
            _ => {
                return o;
            },
        }
        k += 1;
    }
    if k < b.len() {
        Order::Before
    } else if k < a.len() {
        Order::After
    } else {
        Order::Same
    }
}

impl Ranked for String {
    open spec fn rank() -> spec_fn(Seq<char>, Seq<char>) -> Order {
        text_order()
    }

    proof fn lemma_rank_lawful() {
        lemma_text_order_lawful();
    }

    fn compare(&self, other: &Self) -> (o: Order) {
        compare_text(self.as_str(), other.as_str())
    }
}

impl Ranked for FTagData {
    open spec fn rank() -> spec_fn(TagValue, TagValue) -> Order {
        value_order()
    }

    proof fn lemma_rank_lawful() {
        lemma_value_order_lawful();
    }

    fn compare(&self, other: &Self) -> (o: Order) {
        match (self, other) {
            (FTagData::Single(a), FTagData::Single(b)) => a.compare(b),
            (FTagData::Single(_), FTagData::List(_)) => Order::Before,
            (FTagData::List(_), FTagData::Single(_)) => Order::After,
            (FTagData::List(a), FTagData::List(b)) => compare_vecs(a, b),
        }
    }
}

/// Compares what two tags carry: no value comes before any value.
pub fn compare_data(a: &Option<FTagData>, b: &Option<FTagData>) -> (o: Order)
    ensures
        o == option_order(value_order())(a.deep_view(), b.deep_view()),
{
    match (a, b) {
        (None, None) => Order::Same,
        (None, Some(_)) => Order::Before,
        (Some(_), None) => Order::After,
        (Some(x), Some(y)) => x.compare(y),
    }
}

impl Ranked for FTag {
    open spec fn rank() -> spec_fn(Tag, Tag) -> Order {
        tag_order()
    }

    proof fn lemma_rank_lawful() {
        lemma_tag_order_lawful();
    }

    fn compare(&self, other: &Self) -> (o: Order) {
        match self.name.compare(&other.name) {
            Order::Same => compare_data(&self.data, &other.data),
            o => o,
        }
    }
}

impl Ranked for FTagFile {
    open spec fn rank() -> spec_fn(Record, Record) -> Order {
        record_order()
    }

    proof fn lemma_rank_lawful() {
        lemma_record_order_lawful();
    }

    fn compare(&self, other: &Self) -> (o: Order) {
        match self.file.compare(&other.file) {
            Order::Same => compare_vecs(&self.tags, &other.tags),
            o => o,
        }
    }
}

/// Tells whether two values mean the same.
pub fn same<T: Ranked>(a: &T, b: &T) -> (r: bool)
    ensures
        r == (a.deep_view() == b.deep_view()),
{
    proof {
        T::lemma_rank_lawful();
    }
    match a.compare(b) {
        Order::Same => true,
        _ => false,
    }
}

} // verus!
