//! What a listing and a search look like as text.

use vstd::prelude::*;
use vstd::string::StringExecFns;
use crate::database::record_texts;
use crate::encode::{texts, write_joined};
use crate::record::{tag_texts, FTagFile, Record};
use crate::tag::FTag;
use crate::text::joined;

verus! {

/// What stands between the tags of a listing: a newline where a script
/// reads it, else a comma and a space.
pub open spec fn tag_delimiter(script: bool) -> Seq<char> {
    if script {
        seq!['\n']
    } else {
        seq![',', ' ']
    }
}

/// The text of a listing of tags.
pub fn render_tags(tags: &Vec<FTag>, script: bool) -> (out: String)
    ensures
        out@ == joined(tag_texts(tags.deep_view()), tag_delimiter(script)),
{
    proof {
        reveal_strlit("\n");
        reveal_strlit(", ");
        assert("\n"@ =~= seq!['\n']);
        assert(", "@ =~= seq![',', ' ']);
    }
    let mut out = String::new();
    if script {
        write_joined(tags, "\n", &mut out);
    } else {
        write_joined(tags, ", ", &mut out);
    }
    assert(texts(tags@) =~= tag_texts(tags.deep_view()));
    out
}

/// The lines of `records`, each but the first on a new line behind four
/// spaces.
pub open spec fn block(records: Seq<Record>) -> Seq<char> {
    joined(record_texts(records), "\n    "@)
}

/// Writes the lines of `records` with four spaces before each but the
/// first.
fn render_block(records: &Vec<FTagFile>) -> (out: String)
    ensures
        out@ == block(records.deep_view()),
{
    let mut out = String::new();
    write_joined(records, "\n    ", &mut out);
    assert(texts(records@) =~= record_texts(records.deep_view()));
    out
}

/// The text of a search result. The full matches come first, under their
/// heading. The partial matches follow under theirs, behind a blank line
/// where there were full matches; they are left out where their block would
/// read as that of the full matches does. A result without records has no
/// section.
pub open spec fn search_text(full: Seq<Record>, partial: Seq<Record>) -> Seq<char> {
    let first = if full.len() > 0 {
        "Full matches:\n    "@ + block(full) + "\n"@
    } else {
        Seq::empty()
    };
    let gap = if full.len() > 0 {
        "\n"@
    } else {
        Seq::empty()
    };
    let second = if partial.len() > 0 && !(full.len() > 0 && block(full) == block(partial)) {
        gap + "Partial Matches:\n    "@ + block(partial) + "\n"@
    } else {
        Seq::empty()
    };
    first + second
}

/// Writes the text of a search result.
pub fn render_search(full: &Vec<FTagFile>, partial: &Vec<FTagFile>) -> (out: String)
    ensures
        out@ == search_text(full.deep_view(), partial.deep_view()),
{
    let mut out = String::new();
    let full_block = render_block(full);
    if full.len() > 0 {
        out.append("Full matches:\n    ");
        out.append(full_block.as_str());
        out.append("\n");
    }
    let ghost first = out@;
    assert(first =~= if full.len() > 0 {
        "Full matches:\n    "@ + block(full.deep_view()) + "\n"@
    } else {
        Seq::empty()
    });
    if partial.len() > 0 {
        let partial_block = render_block(partial);
        if full.len() > 0 {
            if full_block == partial_block {
                return out;
            }
            out.append("\n");
        }
        out.append("Partial Matches:\n    ");
        out.append(partial_block.as_str());
        out.append("\n");
    }
    out
}

} // verus!
