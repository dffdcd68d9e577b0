//! The value that a tag may carry: one text, or a list of texts.

use vstd::prelude::*;
use crate::encode::{texts, write_joined, Encode};
use crate::error::DecodeError;
use crate::text::{chars_of, joined, pieces, push_char, split, string_of, trim, trimmed};
use crate::vecs::lemma_deep_view_push;

verus! {

/// The mathematical value of an [`FTagData`]. A list stays a list whatever
/// its length: the empty list and a list of one item differ from every scalar.
pub enum TagValue {
    Scalar(Seq<char>),
    List(Seq<Seq<char>>),
}

/// What one piece between the brackets of a list stands for: the piece
/// without one leading `[`, without one trailing `]`, and then without the
/// whitespace around it.
pub open spec fn list_item(piece: Seq<char>) -> Seq<char> {
    let a = if piece.len() > 0 && piece[0] == '[' {
        piece.skip(1)
    } else {
        piece
    };
    let b = if a.len() > 0 && a.last() == ']' {
        a.drop_last()
    } else {
        a
    };
    trimmed(b)
}

impl TagValue {
    /// The text that stands for this value: a scalar is written as it is, a
    /// list between brackets with one space between neighbours.
    pub open spec fn text(self) -> Seq<char> {
        match self {
            TagValue::Scalar(s) => s,
            TagValue::List(items) => seq!['['] + joined(items, seq![' ']) + seq![']'],
        }
    }

    /// The value that `text` stands for. Text from `[` to `]` is a list, cut
    /// at every space between the brackets; any other text is a scalar, taken
    /// as it is. Empty text stands for no value.
    pub open spec fn parse(text: Seq<char>) -> Result<TagValue, DecodeError> {
        if text.len() == 0 {
            Err(DecodeError::MalformedValue)
        } else if text[0] == '[' && text.last() == ']' {
            Ok(
                TagValue::List(
                    pieces(text.subrange(1, text.len() - 1), ' ').map_values(
                        |piece: Seq<char>| list_item(piece),
                    ),
                ),
            )
        } else {
            Ok(TagValue::Scalar(text))
        }
    }
}

/// The value of a tag.
#[derive(Debug, PartialEq, Eq, PartialOrd, Ord)]
pub enum FTagData {
    Single(String),
    List(Vec<String>),
}

impl DeepView for FTagData {
    type V = TagValue;

    open spec fn deep_view(&self) -> TagValue {
        match self {
            FTagData::Single(s) => TagValue::Scalar(s@),
            FTagData::List(items) => TagValue::List(items.deep_view()),
        }
    }
}

impl View for FTagData {
    type V = TagValue;

    open spec fn view(&self) -> TagValue {
        self.deep_view()
    }
}

/// What a decoder of values returned, as a mathematical value.
pub open spec fn value_outcome(r: Result<FTagData, DecodeError>) -> Result<TagValue, DecodeError> {
    match r {
        Ok(v) => Ok(v@),
        Err(e) => Err(e),
    }
}

/// Reads one piece of a list.
fn read_item(piece: &[char]) -> (item: String)
    ensures
        item@ == list_item(piece@),
{
    let mut rest: &[char] = piece;
    if rest.len() > 0 && rest[0] == '[' {
        rest = &rest[1..rest.len()];
    }
    if rest.len() > 0 && rest[rest.len() - 1] == ']' {
        rest = &rest[0..rest.len() - 1];
    }
    string_of(trim(rest))
}

impl FTagData {
    /// Decodes the characters of a value.
    pub fn from_chars(text: &[char]) -> (r: Result<FTagData, DecodeError>)
        ensures
            value_outcome(r) == TagValue::parse(text@),
    {
        let n = text.len();
        if n == 0 {
            Err(DecodeError::MalformedValue)
        } else if text[0] == '[' && text[n - 1] == ']' {
            let parts = split(&text[1..n - 1], ' ');
            let ghost want = pieces(text@.subrange(1, n - 1), ' ').map_values(
                |piece: Seq<char>| list_item(piece),
            );
            let mut items: Vec<String> = Vec::new();
            let mut k: usize = 0;
            while k < parts.len()
                invariant
                    k <= parts.len(),
                    parts@.len() == want.len(),
                    forall|j: int|
                        0 <= j < parts@.len() ==> list_item((#[trigger] parts@[j])@) == want[j],
                    items.deep_view() == want.take(k as int),
                decreases parts.len() - k,
            {
                let item = read_item(parts[k]);
                let ghost before = items;
                items.push(item);
                proof {
                    lemma_deep_view_push(before, items, item);
                }
                k += 1;
            }
            assert(items.deep_view() =~= want);
            Ok(FTagData::List(items))
        } else {
            Ok(FTagData::Single(string_of(text)))
        }
    }

    /// Decodes the text of a value.
    pub fn from_str(s: &str) -> (r: Result<FTagData, DecodeError>)
        ensures
            value_outcome(r) == TagValue::parse(s@),
    {
        let text = chars_of(s);
        FTagData::from_chars(text.as_slice())
    }

    /// The text of this value.
    pub fn to_string(&self) -> (s: String)
        ensures
            s@ == self@.text(),
    {
        let mut s = String::new();
        self.write_to(&mut s);
        s
    }
}

impl Encode for FTagData {
    open spec fn text(&self) -> Seq<char> {
        self@.text()
    }

    fn write_to(&self, out: &mut String) {
        match self {
            FTagData::Single(s) => {
                s.write_to(out);
            },
            FTagData::List(items) => {
                push_char(out, '[');
                write_joined(items, " ", out);
                push_char(out, ']');
                proof {
                    reveal_strlit(" ");
                    assert(" "@ =~= seq![' ']);
                    assert(texts(items@) =~= items.deep_view());
                }
            },
        }
    }
}

impl Clone for FTagData {
    fn clone(&self) -> (r: Self)
        ensures
            r@ == self@,
    {
        match self {
            FTagData::Single(s) => FTagData::Single(s.clone()),
            FTagData::List(items) => {
                let copy = items.clone();
                FTagData::List(copy)
            },
        }
    }
}

} // verus!
