//! The search for the records that a query matches.
//!
//! A query is a sequence of tags. A record matches in part when one of its
//! tags has the name of one of the query's tags. It matches in full when
//! such a pair also agrees on the value, or the query's tag has no value. One
//! pair is enough: the tags of a query are alternatives, not joint demands.

use vstd::prelude::*;
use crate::compare::same;
use vstd::seq_lib::{to_multiset_build, to_multiset_len};
use crate::order::{lemma_record_order_lawful, record_order};
use crate::record::{FTagFile, Record};
use crate::sort::{lemma_sorted_unique, sort, sorted};
use crate::tag::{FTag, Tag};
use crate::vecs::lemma_deep_view_index;

verus! {

/// The tag of a file has the name that the tag of a query asks for.
pub open spec fn hit(file_tag: Tag, query_tag: Tag) -> bool {
    file_tag.name == query_tag.name
}

/// The tag of a file has the name that the tag of a query asks for, and the
/// value too, where the query asks for one.
pub open spec fn full_hit(file_tag: Tag, query_tag: Tag) -> bool {
    &&& file_tag.name == query_tag.name
    &&& query_tag.value is None || query_tag.value == file_tag.value
}

/// Some tag of the query hits `file_tag`.
pub open spec fn tag_partial(file_tag: Tag, query: Seq<Tag>) -> bool {
    exists|j: int| 0 <= j < query.len() && hit(file_tag, #[trigger] query[j])
}

/// Some tag of the query hits `file_tag` in full.
pub open spec fn tag_full(file_tag: Tag, query: Seq<Tag>) -> bool {
    exists|j: int| 0 <= j < query.len() && full_hit(file_tag, #[trigger] query[j])
}

/// The record matches the query in part.
pub open spec fn partial_match(r: Record, query: Seq<Tag>) -> bool {
    exists|i: int| 0 <= i < r.tags.len() && tag_partial(#[trigger] r.tags[i], query)
}

/// The record matches the query in full.
pub open spec fn full_match(r: Record, query: Seq<Tag>) -> bool {
    exists|i: int| 0 <= i < r.tags.len() && tag_full(#[trigger] r.tags[i], query)
}

/// The test that a record matches `query` in part.
pub open spec fn is_partial(query: Seq<Tag>) -> spec_fn(Record) -> bool {
    |r: Record| partial_match(r, query)
}

/// The test that a record matches `query` in full.
pub open spec fn is_full(query: Seq<Tag>) -> spec_fn(Record) -> bool {
    |r: Record| full_match(r, query)
}

/// A record that matches in full matches in part.
pub proof fn lemma_full_is_partial(r: Record, query: Seq<Tag>)
    requires
        full_match(r, query),
    ensures
        partial_match(r, query),
{
}

/// A tag of a query that has no value matches in full every record that has
/// a tag of its name, whatever the value of that tag.
pub proof fn lemma_name_alone_matches(r: Record, query: Seq<Tag>, i: int, j: int)
    requires
        0 <= i < r.tags.len(),
        0 <= j < query.len(),
        r.tags[i].name == query[j].name,
        query[j].value is None,
    ensures
        full_match(r, query),
{
}

/// A query that is one tag with a value matches a record in full only where
/// the record has that very tag, and in part where it has a tag of that
/// name.
pub proof fn lemma_single_query(r: Record, q: Tag)
    requires
        q.value is Some,
    ensures
        full_match(r, seq![q]) <==> r.tags.contains(q),
        partial_match(r, seq![q]) <==> exists|i: int|
            0 <= i < r.tags.len() && (#[trigger] r.tags[i]).name == q.name,
{
    let query = seq![q];
    if exists|i: int| 0 <= i < r.tags.len() && (#[trigger] r.tags[i]).name == q.name {
        let i = choose|i: int| 0 <= i < r.tags.len() && (#[trigger] r.tags[i]).name == q.name;
        assert(hit(r.tags[i], query[0]));
    }
}

/// What `search` may return for the records `db` and the query `query`:
/// the full matches and the partial matches, each sorted.
pub open spec fn is_search_result(
    db: Seq<Record>,
    query: Seq<Tag>,
    full: Seq<Record>,
    partial: Seq<Record>,
) -> bool {
    &&& sorted(full, record_order())
    &&& sorted(partial, record_order())
    &&& full.to_multiset() == db.filter(is_full(query)).to_multiset()
    &&& partial.to_multiset() == db.filter(is_partial(query)).to_multiset()
}

/// A database and a query have one search result.
pub proof fn lemma_search_result_unique(
    db: Seq<Record>,
    query: Seq<Tag>,
    full: Seq<Record>,
    partial: Seq<Record>,
    other_full: Seq<Record>,
    other_partial: Seq<Record>,
)
    requires
        is_search_result(db, query, full, partial),
        is_search_result(db, query, other_full, other_partial),
    ensures
        full == other_full,
        partial == other_partial,
{
    lemma_record_order_lawful();
    lemma_sorted_unique(full, other_full, record_order());
    lemma_sorted_unique(partial, other_partial, record_order());
}

/// Every full match is among the partial matches, as often as it is among
/// the full ones or oftener.
pub proof fn lemma_full_matches_are_partial(
    db: Seq<Record>,
    query: Seq<Tag>,
    full: Seq<Record>,
    partial: Seq<Record>,
    r: Record,
)
    requires
        is_search_result(db, query, full, partial),
    ensures
        full.to_multiset().count(r) <= partial.to_multiset().count(r),
{
    lemma_filter_count(db, is_full(query), r);
    lemma_filter_count(db, is_partial(query), r);
}

/// A filter keeps every copy of what passes and nothing of what does not.
proof fn lemma_filter_count(s: Seq<Record>, p: spec_fn(Record) -> bool, r: Record)
    ensures
        s.filter(p).to_multiset().count(r) == if p(r) {
            s.to_multiset().count(r)
        } else {
            0
        },
    decreases s.len(),
{
    reveal(Seq::filter);
    if s.len() == 0 {
        assert(s.filter(p).to_multiset().count(r) == 0) by {
            to_multiset_len(s.filter(p));
        }
    } else {
        let front = s.drop_last();
        let last = s.last();
        lemma_filter_count(front, p, r);
        assert(s =~= front.push(last));
        to_multiset_build(front, last);
        if p(last) {
            to_multiset_build(front.filter(p), last);
        }
    }
}

/// How one tag of a file stands to a query: whether it is hit, and whether
/// it is hit in full.
fn match_tag(file_tag: &FTag, query: &Vec<FTag>) -> (r: (bool, bool))
    ensures
        r.0 == tag_partial(file_tag@, query.deep_view()),
        r.1 == tag_full(file_tag@, query.deep_view()),
{
    let ghost q = query.deep_view();
    let mut partial = false;
    let mut full = false;
    let mut j: usize = 0;
    while j < query.len()
        invariant
            j <= query.len(),
            q == query.deep_view(),
            partial == exists|n: int| 0 <= n < j && hit(file_tag@, #[trigger] q[n]),
            full == exists|n: int| 0 <= n < j && full_hit(file_tag@, #[trigger] q[n]),
        decreases query.len() - j,
    {
        let search_tag = &query[j];
        proof {
            lemma_deep_view_index(*query);
        }
        if file_tag.name == search_tag.name {
            partial = true;
            match &search_tag.data {
                Some(wanted) => {
                    match &file_tag.data {
                        Some(found) => {
                            if same(wanted, found) {
                                full = true;
                            }
                        },
                        None => {},
                    }
                },
                None => {
                    full = true;
                },
            }
        }
        j += 1;
    }
    (partial, full)
}

/// How a record stands to a query: whether it matches in part, and whether
/// it matches in full.
pub fn match_record(file: &FTagFile, query: &Vec<FTag>) -> (r: (bool, bool))
    ensures
        r.0 == partial_match(file@, query.deep_view()),
        r.1 == full_match(file@, query.deep_view()),
{
    let ghost q = query.deep_view();
    let ghost tags = file@.tags;
    let mut partial = false;
    let mut full = false;
    let mut i: usize = 0;
    while i < file.tags.len()
        invariant
            i <= file.tags.len(),
            q == query.deep_view(),
            tags == file.tags.deep_view(),
            partial == exists|n: int| 0 <= n < i && tag_partial(#[trigger] tags[n], q),
            full == exists|n: int| 0 <= n < i && tag_full(#[trigger] tags[n], q),
        decreases file.tags.len() - i,
    {
        let found = match_tag(&file.tags[i], query);
        proof {
            lemma_deep_view_index(file.tags);
        }
        if found.0 {
            partial = true;
        }
        if found.1 {
            full = true;
        }
        i += 1;
    }
    (partial, full)
}

/// Searches the database. The first result holds the records that match
/// the query in full, the second those that match it in part; each holds
/// every such record as often as the database does, in the order of records.
pub fn search(db: &Vec<FTagFile>, query: &Vec<FTag>) -> (r: (Vec<FTagFile>, Vec<FTagFile>))
    ensures
        is_search_result(db.deep_view(), query.deep_view(), r.0.deep_view(), r.1.deep_view()),
{
    let ghost records = db.deep_view();
    let ghost q = query.deep_view();
    let mut full_matches: Vec<FTagFile> = Vec::new();
    let mut partial_matches: Vec<FTagFile> = Vec::new();
    let mut k: usize = 0;
    while k < db.len()
        invariant
            k <= db.len(),
            records == db.deep_view(),
            q == query.deep_view(),
            full_matches.deep_view() == records.take(k as int).filter(is_full(q)),
            partial_matches.deep_view() == records.take(k as int).filter(is_partial(q)),
        decreases db.len() - k,
    {
        let tag_file = &db[k];
        let found = match_record(tag_file, query);
        proof {
            assert(records.take(k + 1) =~= records.take(k as int).push(tag_file@));
            records.take(k as int).lemma_filter_push(tag_file@, is_full(q));
            records.take(k as int).lemma_filter_push(tag_file@, is_partial(q));
        }
        if found.0 {
            let copy = tag_file.clone();
            partial_matches.push(copy);
        }
        if found.1 {
            let copy = tag_file.clone();
            full_matches.push(copy);
        }
        k += 1;
    }
    assert(records.take(k as int) =~= records);
    (sort(full_matches), sort(partial_matches))
}

} // verus!
