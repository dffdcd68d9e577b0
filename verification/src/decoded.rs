//! What decoding returns: the names, paths and texts of decoded values hold
//! nothing that the decoded text did not hold.

use vstd::prelude::*;
use crate::record::{tag_texts, Record};
use crate::tag::Tag;
use crate::text::{
    first_index, lacks, lemma_first_index, lemma_joined_lacks, lemma_pieces_lack,
    lemma_pieces_parts_lack, lemma_trimmed, lemma_trimmed_lacks, pieces, trim_stable, trimmed,
};
use crate::value::{list_item, TagValue};

verus! {

/// The name of a decoded tag holds no `:`.
pub proof fn lemma_decoded_name(text: Seq<char>)
    requires
        Tag::parse(text) is Ok,
    ensures
        lacks(Tag::parse(text)->Ok_0.name, ':'),
{
    lemma_first_index(text, ':');
}

/// What a piece of a list does not hold, its item does not hold.
pub proof fn lemma_list_item_lacks(piece: Seq<char>, c: char)
    requires
        lacks(piece, c),
    ensures
        lacks(list_item(piece), c),
{
    let a = if piece.len() > 0 && piece[0] == '[' {
        piece.skip(1)
    } else {
        piece
    };
    let b = if a.len() > 0 && a.last() == ']' {
        a.drop_last()
    } else {
        a
    };
    lemma_trimmed_lacks(b, c);
}

/// The text of a decoded value holds no character that the decoded text
/// did not hold, but for brackets and spaces.
pub proof fn lemma_decoded_value_lacks(text: Seq<char>, c: char)
    requires
        TagValue::parse(text) is Ok,
        lacks(text, c),
        c != '[' && c != ']' && c != ' ',
    ensures
        lacks(TagValue::parse(text)->Ok_0.text(), c),
{
    match TagValue::parse(text)->Ok_0 {
        TagValue::Scalar(s) => {},
        TagValue::List(items) => {
            let inner = text.subrange(1, text.len() - 1);
            let parts = pieces(inner, ' ');
            lemma_pieces_parts_lack(inner, ' ', c);
            assert forall|k: int| 0 <= k < items.len() implies lacks(#[trigger] items[k], c) by {
                lemma_list_item_lacks(parts[k], c);
            }
            lemma_joined_lacks(items, seq![' '], c);
        },
    }
}

/// The text of a decoded tag holds no character that the decoded text did
/// not hold, but for brackets and spaces.
pub proof fn lemma_decoded_tag_lacks(text: Seq<char>, c: char)
    requires
        Tag::parse(text) is Ok,
        lacks(text, c),
        c != '[' && c != ']' && c != ' ' && c != ':',
    ensures
        lacks(Tag::parse(text)->Ok_0.text(), c),
{
    lemma_first_index(text, ':');
    let i = first_index(text, ':');
    if i < text.len() {
        lemma_decoded_value_lacks(text.skip(i + 1), c);
    }
}

/// The text of a tag that was decoded from trim-stable text is
/// trim-stable.
pub proof fn lemma_decoded_tag_stable(text: Seq<char>)
    requires
        Tag::parse(text) is Ok,
        trim_stable(text),
    ensures
        trim_stable(Tag::parse(text)->Ok_0.text()),
{
}

/// The line of a decoded record holds no newline where the decoded line
/// held none.
pub proof fn lemma_decoded_record_lacks(line: Seq<char>)
    requires
        Record::parse(line) is Ok,
        lacks(line, '\n'),
    ensures
        lacks(Record::parse(line)->Ok_0.text(), '\n'),
{
    let r = Record::parse(line)->Ok_0;
    let i = first_index(line, ':');
    let rest = line.skip(i + 1);
    if rest.len() > 0 {
        let parts = pieces(rest, ',');
        lemma_pieces_parts_lack(rest, ',', '\n');
        let texts = tag_texts(r.tags);
        assert forall|k: int| 0 <= k < texts.len() implies lacks(#[trigger] texts[k], '\n') by {
            lemma_trimmed_lacks(parts[k], '\n');
            lemma_decoded_tag_lacks(trimmed(parts[k]), '\n');
        }
        lemma_joined_lacks(texts, seq![',', ' '], '\n');
    }
}

/// The path of a decoded record holds no `:`. No name of its tags holds
/// `:`, and no text of its tags holds `,` or begins or ends in whitespace.
pub proof fn lemma_decoded_record(line: Seq<char>)
    requires
        Record::parse(line) is Ok,
    ensures
        lacks(Record::parse(line)->Ok_0.path, ':'),
        forall|k: int|
            0 <= k < Record::parse(line)->Ok_0.tags.len() ==> {
                &&& lacks((#[trigger] Record::parse(line)->Ok_0.tags[k]).name, ':')
                &&& lacks(Record::parse(line)->Ok_0.tags[k].text(), ',')
                &&& trim_stable(Record::parse(line)->Ok_0.tags[k].text())
            },
{
    lemma_first_index(line, ':');
    let r = Record::parse(line)->Ok_0;
    let i = first_index(line, ':');
    let rest = line.skip(i + 1);
    if rest.len() > 0 {
        let parts = pieces(rest, ',');
        lemma_pieces_lack(rest, ',');
        assert forall|k: int| 0 <= k < r.tags.len() implies lacks((#[trigger] r.tags[k]).name, ':')
            && lacks(r.tags[k].text(), ',') && trim_stable(r.tags[k].text()) by {
            let piece = trimmed(parts[k]);
            lemma_decoded_name(piece);
            lemma_trimmed_lacks(parts[k], ',');
            lemma_trimmed(parts[k]);
            lemma_decoded_tag_lacks(piece, ',');
        }
    }
}

} // verus!
