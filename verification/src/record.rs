//! A record: one line of the database, a path and the tags of that path.

use vstd::prelude::*;
use crate::encode::{texts, write_joined, Encode};
use crate::error::DecodeError;
use crate::tag::{FTag, Tag};
use crate::text::{chars_of, find, first_index, joined, pieces, split, string_of, trim, trimmed};
use crate::vecs::lemma_deep_view_push;

verus! {

/// The mathematical value of an [`FTagFile`].
pub struct Record {
    pub path: Seq<char>,
    pub tags: Seq<Tag>,
}

/// The tag that one piece of a tag list stands for: the piece is trimmed,
/// then decoded.
pub open spec fn parse_piece(piece: Seq<char>) -> Result<Tag, DecodeError> {
    Tag::parse(trimmed(piece))
}

/// The tags that the pieces of a tag list stand for, where each piece is a
/// tag.
pub open spec fn parse_tags(parts: Seq<Seq<char>>) -> Result<Seq<Tag>, DecodeError> {
    if forall|k: int| 0 <= k < parts.len() ==> parse_piece(#[trigger] parts[k]) is Ok {
        Ok(parts.map_values(|piece: Seq<char>| parse_piece(piece)->Ok_0))
    } else {
        Err(DecodeError::MalformedTag)
    }
}

/// The texts of `tags`, in order.
pub open spec fn tag_texts(tags: Seq<Tag>) -> Seq<Seq<char>> {
    tags.map_values(|t: Tag| t.text())
}

impl Record {
    /// The line that stands for this record: the path, `: `, and the tags with
    /// `, ` between neighbours. A record without tags has no line: its text is
    /// empty.
    pub open spec fn text(self) -> Seq<char> {
        if self.tags.len() == 0 {
            Seq::empty()
        } else {
            self.path + seq![':', ' '] + joined(tag_texts(self.tags), seq![',', ' '])
        }
    }

    /// The record that `line` stands for. The line is cut at its first `:`
    /// into the path, taken as it is, and the tag list, which is cut at every
    /// `,`. Nothing behind the `:` means no tags. A line without `:` is no
    /// record.
    pub open spec fn parse(line: Seq<char>) -> Result<Record, DecodeError> {
        let i = first_index(line, ':');
        if 0 <= i < line.len() {
            let rest = line.skip(i + 1);
            if rest.len() == 0 {
                Ok(Record { path: line.take(i), tags: Seq::empty() })
            } else {
                match parse_tags(pieces(rest, ',')) {
                    Ok(tags) => Ok(Record { path: line.take(i), tags }),
                    Err(e) => Err(e),
                }
            }
        } else {
            Err(DecodeError::MalformedRecord)
        }
    }
}

/// A file and its tags.
#[derive(Debug, PartialEq, Eq, PartialOrd, Ord)]
pub struct FTagFile {
    pub file: String,
    pub tags: Vec<FTag>,
}

impl DeepView for FTagFile {
    type V = Record;

    open spec fn deep_view(&self) -> Record {
        Record { path: self.file@, tags: self.tags.deep_view() }
    }
}

impl View for FTagFile {
    type V = Record;

    open spec fn view(&self) -> Record {
        self.deep_view()
    }
}

/// What a decoder of records returned, as a mathematical value.
pub open spec fn record_outcome(r: Result<FTagFile, DecodeError>) -> Result<Record, DecodeError> {
    match r {
        Ok(f) => Ok(f@),
        Err(e) => Err(e),
    }
}

impl FTagFile {
    /// Decodes the characters of one line.
    pub fn from_chars(line: &[char]) -> (r: Result<FTagFile, DecodeError>)
        ensures
            record_outcome(r) == Record::parse(line@),
    {
        let n = line.len();
        let i = find(line, ':');
        if i >= n {
            return Err(DecodeError::MalformedRecord);
        }
        let file = string_of(&line[0..i]);
        let mut tags: Vec<FTag> = Vec::new();
        if i + 1 == n {
            assert(tags.deep_view() =~= Seq::<Tag>::empty());
            return Ok(FTagFile { file, tags });
        }
        let parts = split(&line[i + 1..n], ',');
        let ghost want = pieces(line@.skip(i + 1), ',');
        let mut k: usize = 0;
        while k < parts.len()
            invariant
                k <= parts.len(),
                i == first_index(line@, ':'),
                i + 1 < n == line@.len(),
                want == pieces(line@.skip(i + 1), ','),
                parts@.len() == want.len(),
                forall|j: int| 0 <= j < parts@.len() ==> (#[trigger] parts@[j])@ == want[j],
                forall|j: int| 0 <= j < k ==> parse_piece(#[trigger] want[j]) is Ok,
                tags.deep_view() == want.take(k as int).map_values(
                    |piece: Seq<char>| parse_piece(piece)->Ok_0,
                ),
            decreases parts.len() - k,
        {
            match FTag::from_chars(trim(parts[k])) {
                Ok(tag) => {
                    let ghost before = tags;
                    tags.push(tag);
                    proof {
                        lemma_deep_view_push(before, tags, tag);
                        assert(tags.deep_view() =~= want.take(k + 1).map_values(
                            |piece: Seq<char>| parse_piece(piece)->Ok_0,
                        ));
                    }
                },
                Err(_) => {
                    return Err(DecodeError::MalformedTag);
                },
            }
            k += 1;
        }
        assert(want.take(k as int) =~= want);
        Ok(FTagFile { file, tags })
    }

    /// Decodes one line.
    pub fn from_str(s: &str) -> (r: Result<FTagFile, DecodeError>)
        ensures
            record_outcome(r) == Record::parse(s@),
    {
        let line = chars_of(s);
        FTagFile::from_chars(line.as_slice())
    }

    /// The line of this record.
    pub fn to_string(&self) -> (s: String)
        ensures
            s@ == self@.text(),
    {
        let mut s = String::new();
        self.write_to(&mut s);
        s
    }
}

impl Encode for FTagFile {
    open spec fn text(&self) -> Seq<char> {
        self@.text()
    }

    fn write_to(&self, out: &mut String) {
        if self.tags.len() == 0 {
            return ;
        }
        self.file.write_to(out);
        ": ".write_to(out);
        write_joined(&self.tags, ", ", out);
        proof {
            reveal_strlit(": ");
            reveal_strlit(", ");
            assert(": "@ =~= seq![':', ' ']);
            assert(", "@ =~= seq![',', ' ']);
            assert(texts(self.tags@) =~= tag_texts(self.tags.deep_view()));
        }
    }
}

impl Clone for FTagFile {
    fn clone(&self) -> (r: Self)
        ensures
            r@ == self@,
    {
        let tags = self.tags.clone();
        FTagFile { file: self.file.clone(), tags }
    }
}

} // verus!
