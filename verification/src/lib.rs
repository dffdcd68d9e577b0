//! A line-oriented tag database: every record names a file path and the tags
//! attached to it. The crate holds the text codec of that format and the
//! operations on a decoded database, each with a machine-checked contract.
//!
//! ```text
//! <path>: <tag>, <tag>, ...
//! ```
//!
//! A tag is a name, or a name, `:` and a value. A value is a text, or a list
//! of texts between brackets with spaces between them. The format has no
//! escapes: `:`, `,`, `[`, `]`, the space and the newline always mean what
//! the format says. A record without tags has no line.

pub mod compare;
pub mod database;
pub mod decoded;
pub mod edit;
pub mod encode;
pub mod error;
pub mod listing;
pub mod order;
pub mod plain;
pub mod record;
pub mod render;
pub mod roundtrip;
pub mod search;
pub mod sort;
pub mod tag;
pub mod text;
pub mod value;
pub mod vecs;

pub use crate::database::{FTLTrait, FTagList};
pub use crate::error::{DecodeError, MalformedRecord, NotFound};
pub use crate::record::FTagFile;
pub use crate::tag::FTag;
pub use crate::value::FTagData;
