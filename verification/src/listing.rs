//! The list of the tags that a database uses: each tag once, in the order of
//! tags, however often and wherever it occurs.

use vstd::prelude::*;
use vstd::seq_lib::to_multiset_contains;
use crate::order::{lemma_tag_order_lawful, tag_order};
use crate::record::{FTagFile, Record};
use crate::sort::{dedup_sorted, lemma_strictly_sorted_unique, sort, strictly_sorted};
use crate::tag::{FTag, Tag};
use crate::vecs::lemma_deep_view_push;

verus! {

/// The tags of a record.
pub open spec fn tags_of() -> spec_fn(Record) -> Seq<Tag> {
    |r: Record| r.tags
}

/// The tags of all records, one record after the other.
pub open spec fn all_tags(db: Seq<Record>) -> Seq<Tag> {
    db.flat_map(tags_of())
}

/// `out` lists the tags of `tags`: it holds the same tags, each once, and
/// every one before each later one.
pub open spec fn is_listing(out: Seq<Tag>, tags: Seq<Tag>) -> bool {
    &&& strictly_sorted(out, tag_order())
    &&& out.to_set() == tags.to_set()
}

/// Lists the tags that the database uses.
pub fn list_tags(db: &Vec<FTagFile>) -> (tags: Vec<FTag>)
    ensures
        is_listing(tags.deep_view(), all_tags(db.deep_view())),
{
    let ghost records = db.deep_view();
    let mut all: Vec<FTag> = Vec::new();
    let mut k: usize = 0;
    while k < db.len()
        invariant
            k <= db.len(),
            records == db.deep_view(),
            all.deep_view() == all_tags(records.take(k as int)),
        decreases db.len() - k,
    {
        let file = &db[k];
        let ghost start = all.deep_view();
        let mut i: usize = 0;
        while i < file.tags.len()
            invariant
                i <= file.tags.len(),
                all.deep_view() == start + file@.tags.take(i as int),
            decreases file.tags.len() - i,
        {
            let ghost before = all;
            let tag = file.tags[i].clone();
            all.push(tag);
            proof {
                lemma_deep_view_push(before, all, tag);
            }
            i += 1;
        }
        proof {
            records.lemma_flat_map_take_append(tags_of(), k as int);
        }
        k += 1;
    }
    assert(records.take(k as int) =~= records);
    let ghost tags = all.deep_view();
    let in_order = sort(all);
    proof {
        assert forall|t: Tag| in_order.deep_view().to_set().contains(t) <==> tags.to_set().contains(
            t,
        ) by {
            to_multiset_contains(in_order.deep_view(), t);
            to_multiset_contains(tags, t);
        }
        assert(in_order.deep_view().to_set() =~= tags.to_set());
    }
    dedup_sorted(in_order)
}

/// A database has one listing of its tags.
pub proof fn lemma_listing_unique(tags: Seq<Tag>, a: Seq<Tag>, b: Seq<Tag>)
    requires
        is_listing(a, tags),
        is_listing(b, tags),
    ensures
        a == b,
{
    lemma_tag_order_lawful();
    lemma_strictly_sorted_unique(a, b, tag_order());
}

/// Listing is idempotent: the listing of a listing is that listing.
pub proof fn lemma_listing_idempotent(tags: Seq<Tag>, once: Seq<Tag>, twice: Seq<Tag>)
    requires
        is_listing(once, tags),
        is_listing(twice, once),
    ensures
        twice == once,
{
    lemma_tag_order_lawful();
    lemma_strictly_sorted_unique(twice, once, tag_order());
}

/// Listing the tags of a database whose one record holds a listing gives
/// that listing again.
pub proof fn lemma_list_tags_twice(
    db: Seq<Record>,
    once: Seq<Tag>,
    path: Seq<char>,
    twice: Seq<Tag>,
)
    requires
        is_listing(once, all_tags(db)),
        is_listing(twice, all_tags(seq![Record { path, tags: once }])),
    ensures
        twice == once,
{
    let one = seq![Record { path, tags: once }];
    one.lemma_flat_map_singleton(tags_of());
    lemma_listing_idempotent(all_tags(db), once, twice);
}

/// A listing holds no tag twice, and holds every tag of the database:
/// a tag that two records share stands in it once.
pub proof fn lemma_listing_holds_each_once(db: Seq<Record>, out: Seq<Tag>, i: int, n: int)
    requires
        is_listing(out, all_tags(db)),
        0 <= i < db.len(),
        0 <= n < db[i].tags.len(),
    ensures
        out.no_duplicates(),
        out.contains(db[i].tags[n]),
{
    lemma_tag_order_lawful();
    lemma_all_tags_hold(db, i, n);
    assert(out.to_set().contains(db[i].tags[n]));
}

/// Every tag of every record is among the tags of the database.
pub proof fn lemma_all_tags_hold(db: Seq<Record>, i: int, n: int)
    requires
        0 <= i < db.len(),
        0 <= n < db[i].tags.len(),
    ensures
        all_tags(db).contains(db[i].tags[n]),
{
    db.lemma_flat_map_take_append(tags_of(), i);
    let at = all_tags(db.take(i)).len() + n;
    lemma_all_tags_grow(db, i + 1, at);
}

/// What the tags of the first records hold, the tags of the database hold
/// at the same place.
proof fn lemma_all_tags_grow(db: Seq<Record>, k: int, at: int)
    requires
        0 <= k <= db.len(),
        0 <= at < all_tags(db.take(k)).len(),
    ensures
        at < all_tags(db).len(),
        all_tags(db)[at] == all_tags(db.take(k))[at],
    decreases db.len() - k,
{
    if k == db.len() {
        assert(db.take(k) =~= db);
    } else {
        db.lemma_flat_map_take_append(tags_of(), k);
        lemma_all_tags_grow(db, k + 1, at);
    }
}

} // verus!
