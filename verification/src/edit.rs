//! Changes to a database: tags are added to a path, taken from it, or the
//! path is dropped. Where several records have one path, the first of them
//! is the one that is meant.

use vstd::prelude::*;
use crate::compare::{same, same_text};
use crate::error::NotFound;
use crate::record::{FTagFile, Record};
use crate::tag::{FTag, Tag};
use crate::text::{first_where, lemma_first_where_is};
use crate::vecs::lemma_deep_view_index;

verus! {

/// The test that a record has the path `path`.
pub open spec fn has_path(path: Seq<char>) -> spec_fn(Record) -> bool {
    |r: Record| r.path == path
}

/// The place of the first record of `db` with the path `path`.
pub open spec fn find_path(db: Seq<Record>, path: Seq<char>) -> Option<int> {
    let i = first_where(db, has_path(path));
    if 0 <= i < db.len() {
        Some(i)
    } else {
        None
    }
}

/// The test that a record has a tag.
pub open spec fn has_tags() -> spec_fn(Record) -> bool {
    |r: Record| r.tags.len() > 0
}

/// `db` without the records that have no tag.
pub open spec fn purged(db: Seq<Record>) -> Seq<Record> {
    db.filter(has_tags())
}

/// The test that a tag is none of `tags`.
pub open spec fn not_among(tags: Seq<Tag>) -> spec_fn(Tag) -> bool {
    |t: Tag| !tags.contains(t)
}

/// Some tag of `held` is among `tags`.
pub open spec fn holds_any(held: Seq<Tag>, tags: Seq<Tag>) -> bool {
    exists|n: int| 0 <= n < held.len() && tags.contains(#[trigger] held[n])
}

/// `db` after `tags` were added to `path`: behind the tags of the first
/// record of that path, or in a new last record where there is none.
pub open spec fn with_tags(db: Seq<Record>, path: Seq<char>, tags: Seq<Tag>) -> Seq<Record> {
    match find_path(db, path) {
        Some(i) => db.update(i, Record { path: db[i].path, tags: db[i].tags + tags }),
        None => db.push(Record { path, tags }),
    }
}

/// `db` after the tags among `tags` were taken from the record at `i`, and
/// the records that have no tag were dropped.
pub open spec fn without_tags(db: Seq<Record>, i: int, tags: Seq<Tag>) -> Seq<Record> {
    purged(db.update(i, Record { path: db[i].path, tags: db[i].tags.filter(not_among(tags)) }))
}

/// `db` after the record at `i` was dropped, and with it the records that
/// have no tag.
pub open spec fn without_record(db: Seq<Record>, i: int) -> Seq<Record> {
    purged(db.remove(i))
}

/// Finds the first record with the path `file`.
pub fn find_file(db: &Vec<FTagFile>, file: &str) -> (r: Option<usize>)
    ensures
        match r {
            Some(i) => find_path(db.deep_view(), file@) == Some(i as int),
            None => find_path(db.deep_view(), file@) is None,
        },
{
    let ghost records = db.deep_view();
    let mut k: usize = 0;
    while k < db.len()
        invariant
            k <= db.len(),
            records == db.deep_view(),
            forall|j: int| 0 <= j < k ==> !has_path(file@)(#[trigger] records[j]),
        decreases db.len() - k,
    {
        if same_text(db[k].file.as_str(), file) {
            proof {
                lemma_first_where_is(records, has_path(file@), k as int);
            }
            return Some(k);
        }
        k += 1;
    }
    proof {
        lemma_first_where_is(records, has_path(file@), k as int);
    }
    None
}

/// Adds `tags` to the path `file`.
pub fn add_tags(db: &mut Vec<FTagFile>, file: String, tags: Vec<FTag>)
    ensures
        final(db).deep_view() == with_tags(old(db).deep_view(), file@, tags.deep_view()),
{
    let mut tags = tags;
    let ghost added = tags.deep_view();
    match find_file(db, file.as_str()) {
        Some(i) => {
            let mut record = db.remove(i);
            let ghost had = record.tags;
            record.tags.append(&mut tags);
            db.insert(i, record);
            proof {
                assert(record.tags.deep_view() =~= had.deep_view() + added);
            }
        },
        None => {
            let record = FTagFile { file, tags };
            db.push(record);
        },
    }
}

/// Tells whether `tag` is one of `tags`.
pub fn contains_tag(tags: &Vec<FTag>, tag: &FTag) -> (r: bool)
    ensures
        r == tags.deep_view().contains(tag@),
{
    let ghost s = tags.deep_view();
    let mut k: usize = 0;
    while k < tags.len()
        invariant
            k <= tags.len(),
            s == tags.deep_view(),
            forall|j: int| 0 <= j < k ==> s[j] != tag@,
        decreases tags.len() - k,
    {
        proof {
            lemma_deep_view_index(*tags);
        }
        if same(&tags[k], tag) {
            return true;
        }
        k += 1;
    }
    false
}

/// Drops the records that have no tag.
pub fn purge(db: &mut Vec<FTagFile>)
    ensures
        final(db).deep_view() == purged(old(db).deep_view()),
{
    let ghost records = db.deep_view();
    let mut all: Vec<FTagFile> = Vec::new();
    core::mem::swap(db, &mut all);
    let mut kept: Vec<FTagFile> = Vec::new();
    for record in it: all.into_iter()
        invariant
            it.seq() == all@,
            records == all.deep_view(),
            kept.deep_view() == records.take(it.index() as int).filter(has_tags()),
    {
        proof {
            let k = it.index() as int;
            assert(records.take(k + 1) =~= records.take(k).push(record@));
            records.take(k).lemma_filter_push(record@, has_tags());
        }
        if record.tags.len() > 0 {
            kept.push(record);
        }
    }
    assert(records.take(records.len() as int) =~= records);
    *db = kept;
}

/// Drops the first record with the path `file`, and with it the records that
/// have no tag. Where no record has that path, nothing changes.
pub fn remove_file(db: &mut Vec<FTagFile>, file: &str) -> (r: Result<(), NotFound>)
    ensures
        match find_path(old(db).deep_view(), file@) {
            Some(i) => r is Ok && final(db).deep_view() == without_record(old(db).deep_view(), i),
            None => r is Err && final(db).deep_view() == old(db).deep_view(),
        },
{
    let ghost records = db.deep_view();
    match find_file(db, file) {
        Some(i) => {
            db.remove(i);
            proof {
                assert(db.deep_view() =~= records.remove(i as int));
            }
            purge(db);
            Ok(())
        },
        None => Err(NotFound),
    }
}

/// Takes the tags among `tags` from the first record with the path `file`,
/// and drops the records that have no tag. Tells whether that record had any
/// of `tags`. Where no record has that path, nothing changes.
pub fn remove_tags(db: &mut Vec<FTagFile>, file: &str, tags: &Vec<FTag>) -> (r: Result<
    bool,
    NotFound,
>)
    ensures
        match find_path(old(db).deep_view(), file@) {
            Some(i) => {
                &&& r == Ok::<bool, NotFound>(
                    holds_any(old(db).deep_view()[i].tags, tags.deep_view()),
                )
                &&& final(db).deep_view() == without_tags(
                    old(db).deep_view(),
                    i,
                    tags.deep_view(),
                )
            },
            None => r is Err && final(db).deep_view() == old(db).deep_view(),
        },
{
    let ghost records = db.deep_view();
    let ghost unwanted = tags.deep_view();
    match find_file(db, file) {
        None => Err(NotFound),
        Some(i) => {
            let record = db.remove(i);
            let FTagFile { file: path, tags: held } = record;
            let ghost had = held.deep_view();
            let mut kept: Vec<FTag> = Vec::new();
            let mut found = false;
            for tag in it: held.into_iter()
                invariant
                    it.seq() == held@,
                    had == held.deep_view(),
                    unwanted == tags.deep_view(),
                    kept.deep_view() == had.take(it.index() as int).filter(not_among(unwanted)),
                    found == holds_any(had.take(it.index() as int), unwanted),
            {
                proof {
                    let k = it.index() as int;
                    assert(had.take(k + 1) =~= had.take(k).push(tag@));
                    had.take(k).lemma_filter_push(tag@, not_among(unwanted));
                    if unwanted.contains(tag@) {
                        assert(had.take(k + 1)[k] == tag@);
                    }
                }
                if contains_tag(tags, &tag) {
                    found = true;
                } else {
                    kept.push(tag);
                }
            }
            assert(had.take(had.len() as int) =~= had);
            let changed = FTagFile { file: path, tags: kept };
            db.insert(i, changed);
            proof {
                assert(db.deep_view() =~= records.update(i as int, changed@));
            }
            purge(db);
            Ok(found)
        },
    }
}

} // verus!
