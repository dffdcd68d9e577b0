//! The total order in which texts, values, tags and records are sorted.
//!
//! Texts are ordered character by character, by code point; a text comes
//! after each of its proper prefixes. A tag without a value comes before one
//! with a value, a scalar before a list, and lists are ordered item by item.
//! Tags are ordered by name and then by value; records by path and then tag
//! by tag.

use vstd::prelude::*;
use crate::record::Record;
use crate::tag::Tag;
use crate::value::TagValue;

verus! {

/// How one value stands to another in an order.
#[derive(Clone, Copy, Debug, PartialEq, Eq, Structural)]
pub enum Order {
    Before,
    Same,
    After,
}

/// `o` is a total order: only equal values are on the same place, the order
/// of two values turns round when they change places, and it is transitive.
pub open spec fn lawful<A>(o: spec_fn(A, A) -> Order) -> bool {
    &&& forall|x: A, y: A| (#[trigger] o(x, y) == Order::Same) <==> x == y
    &&& forall|x: A, y: A| (#[trigger] o(x, y) == Order::Before) <==> o(y, x) == Order::After
    &&& forall|x: A, y: A, z: A|
        #[trigger] o(x, y) == Order::Before && #[trigger] o(y, z) == Order::Before ==> o(x, z)
            == Order::Before
}

/// The order of two sequences by their first difference: the elements there
/// decide, and where one sequence ends first, it comes first.
pub open spec fn lex_order<A>(a: Seq<A>, b: Seq<A>, o: spec_fn(A, A) -> Order) -> Order
    decreases a.len(),
{
    if a.len() == 0 {
        if b.len() == 0 {
            Order::Same
        } else {
            Order::Before
        }
    } else if b.len() == 0 {
        Order::After
    } else {
        match o(a[0], b[0]) {
            Order::Same => lex_order(a.skip(1), b.skip(1), o),
            other => other,
        }
    }
}

/// `lex_order` over `o`, as an order of its own.
pub open spec fn lex<A>(o: spec_fn(A, A) -> Order) -> spec_fn(Seq<A>, Seq<A>) -> Order {
    |a: Seq<A>, b: Seq<A>| lex_order(a, b, o)
}

/// Only equal sequences are on the same place.
proof fn lemma_lex_same<A>(a: Seq<A>, b: Seq<A>, o: spec_fn(A, A) -> Order)
    requires
        lawful(o),
    ensures
        lex_order(a, b, o) == Order::Same <==> a == b,
    decreases a.len(),
{
    if a.len() == 0 {
        if b.len() == 0 {
            assert(a =~= b);
        }
    } else if b.len() > 0 && o(a[0], b[0]) == Order::Same {
        lemma_lex_same(a.skip(1), b.skip(1), o);
        if a.skip(1) == b.skip(1) {
            assert forall|i: int| 0 <= i < a.len() implies a[i] == b[i] by {
                if i > 0 {
                    assert(a[i] == a.skip(1)[i - 1]);
                }
            }
            assert(a =~= b);
        }
    }
}

/// The order of two sequences turns round when they change places.
proof fn lemma_lex_turn<A>(a: Seq<A>, b: Seq<A>, o: spec_fn(A, A) -> Order)
    requires
        lawful(o),
    ensures
        lex_order(a, b, o) == Order::Before <==> lex_order(b, a, o) == Order::After,
    decreases a.len(),
{
    if a.len() > 0 && b.len() > 0 && o(a[0], b[0]) == Order::Same {
        lemma_lex_turn(a.skip(1), b.skip(1), o);
    }
}

/// The order of sequences is transitive.
proof fn lemma_lex_chain<A>(a: Seq<A>, b: Seq<A>, c: Seq<A>, o: spec_fn(A, A) -> Order)
    requires
        lawful(o),
        lex_order(a, b, o) == Order::Before,
        lex_order(b, c, o) == Order::Before,
    ensures
        lex_order(a, c, o) == Order::Before,
    decreases a.len(),
{
    if a.len() > 0 && o(a[0], b[0]) == Order::Same && o(b[0], c[0]) == Order::Same {
        lemma_lex_chain(a.skip(1), b.skip(1), c.skip(1), o);
    }
}

/// Sequences over a total order are totally ordered by `lex_order`.
pub proof fn lemma_lex_lawful<A>(o: spec_fn(A, A) -> Order)
    requires
        lawful(o),
    ensures
        lawful(lex(o)),
{
    let l = lex(o);
    assert forall|x: Seq<A>, y: Seq<A>| (#[trigger] l(x, y) == Order::Same) <==> x == y by {
        lemma_lex_same(x, y, o);
    }
    assert forall|x: Seq<A>, y: Seq<A>| (#[trigger] l(x, y) == Order::Before) <==> l(y, x)
        == Order::After by {
        lemma_lex_turn(x, y, o);
    }
    assert forall|x: Seq<A>, y: Seq<A>, z: Seq<A>|
        #[trigger] l(x, y) == Order::Before && #[trigger] l(y, z) == Order::Before implies l(x, z)
        == Order::Before by {
        lemma_lex_chain(x, y, z, o);
    }
}

/// Characters by code point.
pub open spec fn char_order() -> spec_fn(char, char) -> Order {
    |a: char, b: char|
        if a < b {
            Order::Before
        } else if a == b {
            Order::Same
        } else {
            Order::After
        }
}

/// Texts, character by character.
pub open spec fn text_order() -> spec_fn(Seq<char>, Seq<char>) -> Order {
    lex(char_order())
}

/// Values: a scalar before a list, scalars as texts, lists item by item.
pub open spec fn value_order() -> spec_fn(TagValue, TagValue) -> Order {
    |a: TagValue, b: TagValue|
        match (a, b) {
            (TagValue::Scalar(x), TagValue::Scalar(y)) => text_order()(x, y),
            (TagValue::Scalar(_), TagValue::List(_)) => Order::Before,
            (TagValue::List(_), TagValue::Scalar(_)) => Order::After,
            (TagValue::List(x), TagValue::List(y)) => lex(text_order())(x, y),
        }
}

/// No value before any value, and values by `o`.
pub open spec fn option_order<A>(o: spec_fn(A, A) -> Order) -> spec_fn(
    Option<A>,
    Option<A>,
) -> Order {
    |a: Option<A>, b: Option<A>|
        match (a, b) {
            (None, None) => Order::Same,
            (None, Some(_)) => Order::Before,
            (Some(_), None) => Order::After,
            (Some(x), Some(y)) => o(x, y),
        }
}

/// Tags: by name, and tags of one name by value.
pub open spec fn tag_order() -> spec_fn(Tag, Tag) -> Order {
    |a: Tag, b: Tag|
        match text_order()(a.name, b.name) {
            Order::Same => option_order(value_order())(a.value, b.value),
            other => other,
        }
}

/// Records: by path, and records of one path tag by tag.
pub open spec fn record_order() -> spec_fn(Record, Record) -> Order {
    |a: Record, b: Record|
        match text_order()(a.path, b.path) {
            Order::Same => lex(tag_order())(a.tags, b.tags),
            other => other,
        }
}

/// The order of texts is total.
pub proof fn lemma_text_order_lawful()
    ensures
        lawful(text_order()),
{
    lemma_lex_lawful(char_order());
}

/// The order of values is total.
pub proof fn lemma_value_order_lawful()
    ensures
        lawful(value_order()),
{
    lemma_text_order_lawful();
    lemma_lex_lawful(text_order());
}

/// The order of tags is total.
pub proof fn lemma_tag_order_lawful()
    ensures
        lawful(tag_order()),
{
    lemma_text_order_lawful();
    lemma_value_order_lawful();
}

/// The order of records is total.
pub proof fn lemma_record_order_lawful()
    ensures
        lawful(record_order()),
{
    lemma_text_order_lawful();
    lemma_tag_order_lawful();
    lemma_lex_lawful(tag_order());
}

} // verus!
