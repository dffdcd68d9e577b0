//! Which values come back unchanged when they are written as text and the
//! text is decoded again.

use vstd::prelude::*;
use crate::database::{database_text, is_fault, line_record, parse_database, record_texts};
use crate::decoded::lemma_decoded_record_lacks;
use crate::error::{DecodeError, LineFault};
use crate::record::{parse_piece, tag_texts, Record};
use crate::tag::Tag;
use crate::text::{
    first_index, joined, lacks, lemma_first_index, lemma_first_index_is, lemma_first_where,
    lemma_first_where_is, lemma_joined_spaced, lemma_pieces_count, lemma_pieces_joined,
    lemma_pieces_lack, lemma_trimmed, lemma_trimmed_lead, pieces, spaced, trim_stable,
};
use crate::value::{list_item, TagValue};

verus! {

impl TagValue {
    /// This value can be told from its text. A scalar must not be empty and
    /// must not look like a list. A list must have an item, and each item
    /// must be free of spaces and stand between the brackets as it is.
    pub open spec fn survives(self) -> bool {
        match self {
            TagValue::Scalar(s) => s.len() > 0 && !(s[0] == '[' && s.last() == ']'),
            TagValue::List(items) => {
                &&& items.len() > 0
                &&& forall|k: int|
                    0 <= k < items.len() ==> lacks(#[trigger] items[k], ' ') && list_item(items[k])
                        == items[k]
            },
        }
    }

    /// Decoding the text of a value that survives gives the value back.
    pub proof fn lemma_round_trip(self)
        requires
            self.survives(),
        ensures
            TagValue::parse(self.text()) == Ok::<TagValue, DecodeError>(self),
    {
        match self {
            TagValue::Scalar(s) => {},
            TagValue::List(items) => {
                let inner = joined(items, seq![' ']);
                let text = self.text();
                assert(text.subrange(1, text.len() - 1) =~= inner);
                lemma_pieces_joined(items, ' ');
                assert(items.map_values(|piece: Seq<char>| list_item(piece)) =~= items);
            },
        }
    }
}

impl Tag {
    /// This tag can be told from its text: the name holds no `:`, and the
    /// value, where there is one, survives.
    pub open spec fn survives(self) -> bool {
        &&& lacks(self.name, ':')
        &&& self.value matches Some(v) ==> v.survives()
    }

    /// Decoding the text of a tag that survives gives the tag back.
    pub proof fn lemma_round_trip(self)
        requires
            self.survives(),
        ensures
            Tag::parse(self.text()) == Ok::<Tag, DecodeError>(self),
    {
        match self.value {
            None => {
                lemma_first_index_is(self.name, ':', self.name.len() as int);
            },
            Some(v) => {
                let text = self.text();
                let i = self.name.len() as int;
                lemma_first_index_is(text, ':', i);
                assert(text.take(i) =~= self.name);
                assert(text.skip(i + 1) =~= v.text());
                v.lemma_round_trip();
            },
        }
    }
}

impl Record {
    /// This record can be told from its line. It has a tag; the path holds no
    /// `:`; and each tag survives, with a text that holds no `,` and neither
    /// begins nor ends in whitespace.
    pub open spec fn survives(self) -> bool {
        &&& self.tags.len() > 0
        &&& lacks(self.path, ':')
        &&& forall|k: int|
            0 <= k < self.tags.len() ==> {
                &&& (#[trigger] self.tags[k]).survives()
                &&& lacks(self.tags[k].text(), ',')
                &&& trim_stable(self.tags[k].text())
            }
    }

    /// Decoding the line of a record that survives gives the record back.
    pub proof fn lemma_round_trip(self)
        requires
            self.survives(),
        ensures
            Record::parse(self.text()) == Ok::<Record, DecodeError>(self),
    {
        let line = self.text();
        let i = self.path.len() as int;
        let texts = tag_texts(self.tags);
        let list = joined(texts, seq![',', ' ']);
        lemma_first_index_is(line, ':', i);
        assert(line.take(i) =~= self.path);
        let rest = line.skip(i + 1);
        assert(rest =~= seq![' '] + list);
        lemma_joined_spaced(texts);
        let parts = spaced(texts);
        lemma_pieces_joined(parts, ',');
        assert forall|k: int| 0 <= k < parts.len() implies parse_piece(#[trigger] parts[k]) == Ok::<
            Tag,
            DecodeError,
        >(self.tags[k]) by {
            let text = self.tags[k].text();
            lemma_trimmed_lead(' ', text);
            self.tags[k].lemma_round_trip();
        }
        assert(parts.map_values(|piece: Seq<char>| parse_piece(piece)->Ok_0) =~= self.tags);
    }
}

/// Every record of `db` survives, on a line of its own.
pub open spec fn database_survives(db: Seq<Record>) -> bool {
    forall|k: int|
        0 <= k < db.len() ==> (#[trigger] db[k]).survives() && lacks(db[k].text(), '\n')
}

/// Where no line is blank, every line adds its record.
proof fn lemma_every_line_counts(lines: Seq<Seq<char>>)
    requires
        forall|k: int| 0 <= k < lines.len() ==> (#[trigger] lines[k]).len() > 0,
    ensures
        lines.filter_map(line_record()) == lines.map_values(
            |line: Seq<char>| Record::parse(line)->Ok_0,
        ),
    decreases lines.len(),
{
    if lines.len() > 0 {
        lemma_every_line_counts(lines.drop_last());
    }
    assert(lines.filter_map(line_record()) =~= lines.map_values(
        |line: Seq<char>| Record::parse(line)->Ok_0,
    ));
}

/// Decoding the text of a database gives the database back, where every
/// record survives on a line of its own.
pub proof fn theorem_round_trip(db: Seq<Record>)
    requires
        database_survives(db),
    ensures
        parse_database(database_text(db)) == Ok::<Seq<Record>, LineFault>(db),
{
    let lines = record_texts(db);
    let text = database_text(db);
    if db.len() == 0 {
        let got = pieces(text, '\n');
        lemma_first_where_is(got, is_fault(), 1);
        assert(got.drop_last().filter_map(line_record()) =~= Seq::<Record>::empty());
        assert(got.filter_map(line_record()) =~= db);
    } else {
        lemma_pieces_joined(lines, '\n');
        assert forall|k: int| 0 <= k < lines.len() implies (#[trigger] lines[k]).len() > 0
            && Record::parse(lines[k]) == Ok::<Record, DecodeError>(db[k]) by {
            db[k].lemma_round_trip();
        }
        lemma_first_where_is(lines, is_fault(), lines.len() as int);
        lemma_every_line_counts(lines);
        assert(lines.map_values(|line: Seq<char>| Record::parse(line)->Ok_0) =~= db);
    }
}

/// Only a value that survives comes back from its text.
pub proof fn lemma_value_must_survive(v: TagValue)
    requires
        TagValue::parse(v.text()) == Ok::<TagValue, DecodeError>(v),
    ensures
        v.survives(),
{
    match v {
        TagValue::Scalar(s) => {},
        TagValue::List(items) => {
            let inner = joined(items, seq![' ']);
            let text = v.text();
            assert(text.subrange(1, text.len() - 1) =~= inner);
            let parts = pieces(inner, ' ');
            lemma_pieces_count(items, ' ');
            lemma_pieces_joined(items, ' ');
            assert forall|k: int| 0 <= k < items.len() implies list_item(#[trigger] items[k])
                == items[k] by {
                assert(parts.map_values(|piece: Seq<char>| list_item(piece))[k] == list_item(
                    parts[k],
                ));
            }
        },
    }
}

/// Only a tag that survives comes back from its text.
pub proof fn lemma_tag_must_survive(t: Tag)
    requires
        Tag::parse(t.text()) == Ok::<Tag, DecodeError>(t),
    ensures
        t.survives(),
{
    let text = t.text();
    lemma_first_index(text, ':');
    let i = first_index(text, ':');
    match t.value {
        None => {},
        Some(v) => {
            let n = t.name.len() as int;
            assert(text.skip(n + 1) =~= v.text());
            lemma_value_must_survive(v);
        },
    }
}

/// Only a record that survives comes back from its line.
pub proof fn lemma_record_must_survive(r: Record)
    requires
        Record::parse(r.text()) == Ok::<Record, DecodeError>(r),
    ensures
        r.survives(),
{
    let line = r.text();
    lemma_first_index(line, ':');
    let i = first_index(line, ':');
    let n = r.path.len() as int;
    let texts = tag_texts(r.tags);
    let rest = line.skip(n + 1);
    assert(rest =~= seq![' '] + joined(texts, seq![',', ' ']));
    lemma_joined_spaced(texts);
    let parts = spaced(texts);
    lemma_pieces_count(parts, ',');
    lemma_pieces_joined(parts, ',');
    assert forall|k: int| 0 <= k < r.tags.len() implies (#[trigger] r.tags[k]).survives() && lacks(
        r.tags[k].text(),
        ',',
    ) && trim_stable(r.tags[k].text()) by {
        let text = r.tags[k].text();
        assert forall|j: int| 0 <= j < text.len() implies text[j] != ',' by {
            assert(parts[k][j + 1] == text[j]);
        }
        lemma_trimmed(parts[k]);
        lemma_trimmed_lead(' ', text);
        lemma_tag_must_survive(r.tags[k]);
    }
}

/// Lines add at most one record each, and one each only where none is
/// blank.
proof fn lemma_lines_count(lines: Seq<Seq<char>>)
    ensures
        lines.filter_map(line_record()).len() <= lines.len(),
        lines.filter_map(line_record()).len() == lines.len() ==> forall|k: int|
            0 <= k < lines.len() ==> (#[trigger] lines[k]).len() > 0,
    decreases lines.len(),
{
    if lines.len() > 0 {
        let front = lines.drop_last();
        lemma_lines_count(front);
        if lines.filter_map(line_record()).len() == lines.len() {
            assert forall|k: int| 0 <= k < lines.len() implies (#[trigger] lines[k]).len()
                > 0 by {
                if k < front.len() {
                    assert(lines[k] == front[k]);
                }
            }
        }
    }
}

/// Only a database that survives comes back from its text.
pub proof fn lemma_database_must_survive(db: Seq<Record>)
    requires
        parse_database(database_text(db)) == Ok::<Seq<Record>, LineFault>(db),
    ensures
        database_survives(db),
{
    if db.len() > 0 {
        let lines = record_texts(db);
        let text = database_text(db);
        let got = pieces(text, '\n');
        lemma_first_where(got, is_fault());
        lemma_pieces_lack(text, '\n');
        assert forall|k: int| 0 <= k < lines.len() implies lacks(#[trigger] lines[k], '\n') by {
            let r = db[k];
            got.lemma_filter_map_contains(line_record(), r);
            let line = choose|line: Seq<char>| #[trigger]
                got.contains(line) && line_record()(line) == Some(r);
            lemma_decoded_record_lacks(line);
        }
        lemma_pieces_joined(lines, '\n');
        lemma_lines_count(lines);
        lemma_every_line_counts(lines);
        assert forall|k: int| 0 <= k < db.len() implies (#[trigger] db[k]).survives() && lacks(
            db[k].text(),
            '\n',
        ) by {
            lemma_record_must_survive(db[k]);
        }
    }
}

/// A database comes back from its text where every record survives on a
/// line of its own, and there only.
pub proof fn theorem_round_trip_exact(db: Seq<Record>)
    ensures
        parse_database(database_text(db)) == Ok::<Seq<Record>, LineFault>(db)
            <==> database_survives(db),
{
    if database_survives(db) {
        theorem_round_trip(db);
    }
    if parse_database(database_text(db)) == Ok::<Seq<Record>, LineFault>(db) {
        lemma_database_must_survive(db);
    }
}

/// Records without tags leave no trace: the text of a database of such
/// records holds nothing but the newlines between their empty lines, and it
/// decodes to the empty database.
pub proof fn lemma_untagged_leave_no_trace(db: Seq<Record>)
    requires
        forall|k: int| 0 <= k < db.len() ==> (#[trigger] db[k]).tags.len() == 0,
    ensures
        forall|k: int| 0 <= k < db.len() ==> (#[trigger] db[k]).text().len() == 0,
        forall|i: int|
            0 <= i < database_text(db).len() ==> (#[trigger] database_text(db)[i]) == '\n',
        parse_database(database_text(db)) == Ok::<Seq<Record>, LineFault>(Seq::empty()),
{
    let lines = record_texts(db);
    let text = database_text(db);
    lemma_joined_blank(lines, '\n');
    let got = pieces(text, '\n');
    if db.len() > 0 {
        lemma_pieces_joined(lines, '\n');
    }
    lemma_first_where_is(got, is_fault(), got.len() as int);
    lemma_blank_lines_add_nothing(got);
}

/// Empty parts joined with `c` make a text of nothing but `c`.
proof fn lemma_joined_blank(parts: Seq<Seq<char>>, c: char)
    requires
        forall|k: int| 0 <= k < parts.len() ==> (#[trigger] parts[k]).len() == 0,
    ensures
        forall|i: int|
            0 <= i < joined(parts, seq![c]).len() ==> (#[trigger] joined(parts, seq![c])[i]) == c,
    decreases parts.len(),
{
    if parts.len() >= 2 {
        let front = parts.drop_last();
        lemma_joined_blank(front, c);
        assert(joined(parts, seq![c]) =~= joined(front, seq![c]).push(c));
    }
}

/// Blank lines add no record.
proof fn lemma_blank_lines_add_nothing(lines: Seq<Seq<char>>)
    requires
        forall|k: int| 0 <= k < lines.len() ==> (#[trigger] lines[k]).len() == 0,
    ensures
        lines.filter_map(line_record()) == Seq::<Record>::empty(),
    decreases lines.len(),
{
    if lines.len() > 0 {
        lemma_blank_lines_add_nothing(lines.drop_last());
    }
}

} // verus!
