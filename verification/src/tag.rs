//! A tag: a name, alone or with a value.

use vstd::prelude::*;
use crate::encode::Encode;
use crate::error::DecodeError;
use crate::text::{chars_of, find, first_index, push_char, string_of};
use crate::value::{FTagData, TagValue};

verus! {

/// The mathematical value of an [`FTag`].
pub struct Tag {
    pub name: Seq<char>,
    pub value: Option<TagValue>,
}

impl Tag {
    /// The text that stands for this tag: the name, and behind it `:` and the
    /// value where there is one.
    pub open spec fn text(self) -> Seq<char> {
        match self.value {
            None => self.name,
            Some(v) => self.name + seq![':'] + v.text(),
        }
    }

    /// The tag that `text` stands for. Text without `:` is a name. Other text
    /// is cut at its first `:` into the name and the text of the value.
    pub open spec fn parse(text: Seq<char>) -> Result<Tag, DecodeError> {
        let i = first_index(text, ':');
        if 0 <= i < text.len() {
            match TagValue::parse(text.skip(i + 1)) {
                Ok(v) => Ok(Tag { name: text.take(i), value: Some(v) }),
                Err(_) => Err(DecodeError::MalformedTag),
            }
        } else {
            Ok(Tag { name: text, value: None })
        }
    }
}

/// A tag of a file.
#[derive(Debug, PartialEq, Eq, PartialOrd, Ord)]
pub struct FTag {
    pub name: String,
    pub data: Option<FTagData>,
}

impl DeepView for FTag {
    type V = Tag;

    open spec fn deep_view(&self) -> Tag {
        Tag { name: self.name@, value: self.data.deep_view() }
    }
}

impl View for FTag {
    type V = Tag;

    open spec fn view(&self) -> Tag {
        self.deep_view()
    }
}

/// What a decoder of tags returned, as a mathematical value.
pub open spec fn tag_outcome(r: Result<FTag, DecodeError>) -> Result<Tag, DecodeError> {
    match r {
        Ok(t) => Ok(t@),
        Err(e) => Err(e),
    }
}

impl FTag {
    /// Decodes the characters of a tag.
    pub fn from_chars(text: &[char]) -> (r: Result<FTag, DecodeError>)
        ensures
            tag_outcome(r) == Tag::parse(text@),
    {
        let n = text.len();
        let i = find(text, ':');
        if i < n {
            match FTagData::from_chars(&text[i + 1..n]) {
                Ok(data) => Ok(FTag { name: string_of(&text[0..i]), data: Some(data) }),
                Err(_) => Err(DecodeError::MalformedTag),
            }
        } else {
            Ok(FTag { name: string_of(text), data: None })
        }
    }

    /// Decodes the text of a tag.
    pub fn from_str(s: &str) -> (r: Result<FTag, DecodeError>)
        ensures
            tag_outcome(r) == Tag::parse(s@),
    {
        let text = chars_of(s);
        FTag::from_chars(text.as_slice())
    }

    /// The text of this tag.
    pub fn to_string(&self) -> (s: String)
        ensures
            s@ == self@.text(),
    {
        let mut s = String::new();
        self.write_to(&mut s);
        s
    }
}

impl Encode for FTag {
    open spec fn text(&self) -> Seq<char> {
        self@.text()
    }

    fn write_to(&self, out: &mut String) {
        self.name.write_to(out);
        match &self.data {
            Some(data) => {
                push_char(out, ':');
                data.write_to(out);
            },
            None => {},
        }
    }
}

impl Clone for FTag {
    fn clone(&self) -> (r: Self)
        ensures
            r@ == self@,
    {
        let data = match &self.data {
            Some(data) => Some(data.clone()),
            None => None,
        };
        FTag { name: self.name.clone(), data }
    }
}

} // verus!
