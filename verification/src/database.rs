//! The database: the records of a text, one per line, in the order of the
//! lines.

use vstd::prelude::*;
use crate::encode::{texts, write_joined};
use crate::error::{DecodeError, LineFault, MalformedRecord};
use crate::record::{FTagFile, Record};
use crate::text::{
    chars_of, first_where, joined, lacks, lemma_first_index_is, lemma_first_where,
    lemma_first_where_is, pieces, split, string_of,
};

verus! {

/// The lines of `db`, in order.
pub open spec fn record_texts(db: Seq<Record>) -> Seq<Seq<char>> {
    db.map_values(|r: Record| r.text())
}

/// The text that stands for `db`: the lines of its records with a newline
/// between neighbours, and none behind the last.
pub open spec fn database_text(db: Seq<Record>) -> Seq<char> {
    joined(record_texts(db), seq!['\n'])
}

/// The test that a line stops the decoding of a database: it is not blank
/// and it is no record.
pub open spec fn is_fault() -> spec_fn(Seq<char>) -> bool {
    |line: Seq<char>| line.len() > 0 && Record::parse(line) is Err
}

/// What a line adds to a database: nothing where it is blank, else the
/// record that it stands for.
pub open spec fn line_record() -> spec_fn(Seq<char>) -> Option<Record> {
    |line: Seq<char>|
        if line.len() == 0 {
            None
        } else {
            Some(Record::parse(line)->Ok_0)
        }
}

/// The database that `text` stands for. The text is cut at every newline;
/// blank lines are passed over; every other line is a record. The first line
/// that is no record stops the decoding, and nothing is returned but that
/// line, its number and what was wrong with it.
pub open spec fn parse_database(text: Seq<char>) -> Result<Seq<Record>, LineFault> {
    let lines = pieces(text, '\n');
    let k = first_where(lines, is_fault());
    if 0 <= k < lines.len() {
        Err(
            LineFault {
                line: (k + 1) as nat,
                content: lines[k],
                cause: Record::parse(lines[k])->Err_0,
            },
        )
    } else {
        Ok(lines.filter_map(line_record()))
    }
}

/// A line that is not blank and holds no `:` is no record, and a text with
/// such a line is no database: decoding stops at that line or before it, and
/// returns no record.
pub proof fn lemma_bare_line_is_rejected(text: Seq<char>, k: int)
    requires
        0 <= k < pieces(text, '\n').len(),
        pieces(text, '\n')[k].len() > 0,
        lacks(pieces(text, '\n')[k], ':'),
    ensures
        Record::parse(pieces(text, '\n')[k]) == Err::<Record, DecodeError>(
            DecodeError::MalformedRecord,
        ),
        parse_database(text) matches Err(fault) && fault.line <= k + 1,
{
    let lines = pieces(text, '\n');
    let line = lines[k];
    lemma_first_index_is(line, ':', line.len() as int);
    lemma_first_where(lines, is_fault());
}

/// A list of tagged files that can be read from a text and written as one.
pub trait FTLTrait: Sized {
    /// The records that this list holds.
    spec fn records(&self) -> Seq<Record>;

    /// Decodes the text of a database.
    fn from_string(string: String) -> (r: Result<Self, MalformedRecord>)
        ensures
            match r {
                Ok(list) => parse_database(string@) matches Ok(records) && records
                    == list.records(),
                Err(e) => parse_database(string@) matches Err(fault) && fault == e@,
            },
    ;

    /// The text of this database. It does not end in a newline.
    fn to_string(&self) -> (s: String)
        ensures
            s@ == database_text(self.records()),
    ;
}

/// The usual list of tagged files.
pub type FTagList = Vec<FTagFile>;

impl FTLTrait for Vec<FTagFile> {
    open spec fn records(&self) -> Seq<Record> {
        self.deep_view()
    }

    fn from_string(string: String) -> (r: Result<Self, MalformedRecord>) {
        let text = chars_of(string.as_str());
        let lines = split(text.as_slice(), '\n');
        let ghost want = pieces(string@, '\n');
        let mut list: Vec<FTagFile> = Vec::new();
        let mut k: usize = 0;
        while k < lines.len()
            invariant
                k <= lines.len(),
                want == pieces(string@, '\n'),
                lines@.len() == want.len(),
                forall|j: int| 0 <= j < lines@.len() ==> (#[trigger] lines@[j])@ == want[j],
                forall|j: int| 0 <= j < k ==> !is_fault()(#[trigger] want[j]),
                list.deep_view() == want.take(k as int).filter_map(line_record()),
            decreases lines.len() - k,
        {
            let line = lines[k];
            proof {
                want.lemma_filter_map_take_succ(line_record(), k as int);
            }
            if line.len() != 0 {
                match FTagFile::from_chars(line) {
                    Ok(file) => {
                        list.push(file);
                    },
                    Err(cause) => {
                        proof {
                            lemma_first_where_is(want, is_fault(), k as int);
                        }
                        return Err(MalformedRecord { line: k + 1, content: string_of(line), cause });
                    },
                }
            }
            k += 1;
        }
        proof {
            lemma_first_where_is(want, is_fault(), k as int);
            assert(want.take(k as int) =~= want);
        }
        Ok(list)
    }

    fn to_string(&self) -> (s: String) {
        let mut out = String::new();
        write_joined(self, "\n", &mut out);
        proof {
            reveal_strlit("\n");
            assert("\n"@ =~= seq!['\n']);
            assert(texts(self@) =~= record_texts(self.deep_view()));
        }
        out
    }
}

} // verus!
