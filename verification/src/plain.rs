//! Databases without reserved characters, and which of them come back from
//! their text.

use vstd::prelude::*;
use crate::database::{database_text, parse_database};
use crate::error::LineFault;
use crate::record::{tag_texts, Record};
use crate::roundtrip::{database_survives, theorem_round_trip, theorem_round_trip_exact};
use crate::tag::Tag;
use crate::text::{is_whitespace, lacks, lemma_joined_lacks, lemma_trimmed, trim_stable};
use crate::value::TagValue;

verus! {

/// The characters that the format gives a meaning to.
pub open spec fn reserved(c: char) -> bool {
    c == ':' || c == ',' || c == '[' || c == ']' || c == ' ' || c == '\n'
}

/// `s` holds no reserved character.
pub open spec fn unreserved(s: Seq<char>) -> bool {
    forall|i: int| 0 <= i < s.len() ==> !reserved(#[trigger] s[i])
}

impl TagValue {
    /// The scalar, or every item of the list, holds no reserved character.
    pub open spec fn unreserved(self) -> bool {
        match self {
            TagValue::Scalar(s) => unreserved(s),
            TagValue::List(items) => forall|k: int|
                0 <= k < items.len() ==> unreserved(#[trigger] items[k]),
        }
    }

    /// A value without reserved characters that trimming leaves alone: a
    /// scalar that is not empty and does not end in whitespace, or a list
    /// that is not empty, of items without whitespace at their ends.
    pub open spec fn plain(self) -> bool {
        &&& self.unreserved()
        &&& match self {
            TagValue::Scalar(s) => s.len() > 0 && !is_whitespace(s.last()),
            TagValue::List(items) => {
                &&& items.len() > 0
                &&& forall|k: int| 0 <= k < items.len() ==> trim_stable(#[trigger] items[k])
            },
        }
    }
}

impl Tag {
    /// Neither the name nor the value holds a reserved character.
    pub open spec fn unreserved(self) -> bool {
        &&& unreserved(self.name)
        &&& self.value matches Some(v) ==> v.unreserved()
    }

    /// A tag without reserved characters that trimming leaves alone: the
    /// name does not begin in whitespace; without a value it does not end in
    /// whitespace either; and the value, where there is one, is plain.
    pub open spec fn plain(self) -> bool {
        &&& self.unreserved()
        &&& self.name.len() > 0 ==> !is_whitespace(self.name[0])
        &&& match self.value {
            None => self.name.len() > 0 ==> !is_whitespace(self.name.last()),
            Some(v) => v.plain(),
        }
    }

    /// The text of a plain tag holds neither `,` nor a newline, and neither
    /// begins nor ends in whitespace.
    proof fn lemma_plain_text(self)
        requires
            self.plain(),
        ensures
            lacks(self.text(), ','),
            lacks(self.text(), '\n'),
            trim_stable(self.text()),
    {
        if let Some(TagValue::List(items)) = self.value {
            lemma_joined_lacks(items, seq![' '], ',');
            lemma_joined_lacks(items, seq![' '], '\n');
        }
    }

    /// A tag without reserved characters that survives, with a text that
    /// trimming leaves alone, is plain.
    proof fn lemma_unreserved_plain(self)
        requires
            self.unreserved(),
            self.survives(),
            trim_stable(self.text()),
        ensures
            self.plain(),
    {
        if let Some(TagValue::List(items)) = self.value {
            assert forall|k: int| 0 <= k < items.len() implies trim_stable(#[trigger] items[k]) by {
                lemma_trimmed(items[k]);
            }
        }
    }
}

impl Record {
    /// Neither the path nor a tag holds a reserved character.
    pub open spec fn unreserved(self) -> bool {
        &&& unreserved(self.path)
        &&& forall|k: int| 0 <= k < self.tags.len() ==> (#[trigger] self.tags[k]).unreserved()
    }

    /// The record has a tag, its path holds no reserved character, and its
    /// tags are plain.
    pub open spec fn plain(self) -> bool {
        &&& self.tags.len() > 0
        &&& unreserved(self.path)
        &&& forall|k: int| 0 <= k < self.tags.len() ==> (#[trigger] self.tags[k]).plain()
    }
}

/// No path, name, scalar or item of `db` holds a reserved character.
pub open spec fn database_unreserved(db: Seq<Record>) -> bool {
    forall|k: int| 0 <= k < db.len() ==> (#[trigger] db[k]).unreserved()
}

/// Every record of `db` is plain.
pub open spec fn database_plain(db: Seq<Record>) -> bool {
    forall|k: int| 0 <= k < db.len() ==> (#[trigger] db[k]).plain()
}

/// A database of plain records survives.
pub proof fn lemma_plain_survives(db: Seq<Record>)
    requires
        database_plain(db),
    ensures
        database_survives(db),
{
    assert forall|k: int| 0 <= k < db.len() implies (#[trigger] db[k]).survives() && lacks(
        db[k].text(),
        '\n',
    ) by {
        let r = db[k];
        let texts = tag_texts(r.tags);
        assert forall|j: int| 0 <= j < r.tags.len() implies (#[trigger] r.tags[j]).survives()
            && lacks(r.tags[j].text(), ',') && trim_stable(r.tags[j].text()) && lacks(
            r.tags[j].text(),
            '\n',
        ) by {
            r.tags[j].lemma_plain_text();
        }
        lemma_joined_lacks(texts, seq![',', ' '], '\n');
    }
}

/// Among the databases without reserved characters, the plain ones are
/// those that survive.
pub proof fn lemma_unreserved_exact(db: Seq<Record>)
    requires
        database_unreserved(db),
    ensures
        database_plain(db) <==> database_survives(db),
{
    if database_plain(db) {
        lemma_plain_survives(db);
    }
    if database_survives(db) {
        assert forall|k: int| 0 <= k < db.len() implies (#[trigger] db[k]).plain() by {
            let r = db[k];
            assert forall|j: int| 0 <= j < r.tags.len() implies (#[trigger] r.tags[j]).plain() by {
                r.tags[j].lemma_unreserved_plain();
            }
        }
    }
}

/// A database without reserved characters comes back from its text where
/// it is plain, and there only: every record must have a tag, no scalar and
/// no list may be empty, and nothing that is trimmed may begin or end in
/// whitespace.
pub proof fn theorem_unreserved_round_trip(db: Seq<Record>)
    requires
        database_unreserved(db),
    ensures
        parse_database(database_text(db)) == Ok::<Seq<Record>, LineFault>(db) <==> database_plain(
            db,
        ),
{
    lemma_unreserved_exact(db);
    theorem_round_trip_exact(db);
}

/// Decoding the text of a database gives the database back, where paths,
/// names, scalars and items hold no reserved character, every record has a
/// tag, no scalar and no list is empty, and nothing that is trimmed begins
/// or ends in whitespace.
pub proof fn theorem_plain_round_trip(db: Seq<Record>)
    requires
        database_plain(db),
    ensures
        parse_database(database_text(db)) == Ok::<Seq<Record>, LineFault>(db),
{
    lemma_plain_survives(db);
    theorem_round_trip(db);
}

} // verus!
