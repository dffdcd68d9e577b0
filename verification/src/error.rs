//! The ways in which text fails to be a value, a tag, a record or a database.

use vstd::prelude::*;

verus! {

/// Why a piece of text was rejected.
#[derive(Clone, Copy, Debug, PartialEq, Eq, Structural)]
pub enum DecodeError {
    /// The text of a value is empty.
    MalformedValue,
    /// A tag has a `:` and the text behind it is no value.
    MalformedTag,
    /// A record has no `:` between its path and its tags.
    MalformedRecord,
}

/// The first line of a database text that is no record.
#[derive(Debug, PartialEq, Eq)]
pub struct MalformedRecord {
    /// The number of the line, counted from 1, blank lines included.
    pub line: usize,
    /// The line as it stands in the text.
    pub content: String,
    /// What was wrong with it.
    pub cause: DecodeError,
}

/// The mathematical value of a [`MalformedRecord`].
pub struct LineFault {
    pub line: nat,
    pub content: Seq<char>,
    pub cause: DecodeError,
}

impl View for MalformedRecord {
    type V = LineFault;

    open spec fn view(&self) -> LineFault {
        LineFault { line: self.line as nat, content: self.content@, cause: self.cause }
    }
}

impl Clone for MalformedRecord {
    fn clone(&self) -> (r: Self)
        ensures
            r@ == self@,
    {
        MalformedRecord { line: self.line, content: self.content.clone(), cause: self.cause }
    }
}

/// No record of the database has the path that was asked for.
#[derive(Clone, Copy, Debug, PartialEq, Eq, Structural)]
pub struct NotFound;

} // verus!
