//! Writing values as text.

use vstd::prelude::*;
use vstd::string::StringExecFns;
use crate::text::joined;

verus! {

/// A value that is written as a text.
pub trait Encode {
    /// The text that stands for this value.
    spec fn text(&self) -> Seq<char>;

    /// Writes the text of this value behind what `out` holds.
    fn write_to(&self, out: &mut String)
        ensures
            final(out)@ == old(out)@ + self.text(),
    ;
}

impl Encode for String {
    open spec fn text(&self) -> Seq<char> {
        self@
    }

    fn write_to(&self, out: &mut String) {
        out.append(self.as_str());
    }
}

impl<'a> Encode for &'a str {
    open spec fn text(&self) -> Seq<char> {
        self@
    }

    fn write_to(&self, out: &mut String) {
        out.append(*self);
    }
}

/// The texts of `items`, in order.
pub open spec fn texts<T: Encode>(items: Seq<T>) -> Seq<Seq<char>> {
    items.map_values(|item: T| item.text())
}

/// Writes the texts of `items` behind what `out` holds, with `delimiter`
/// between neighbours.
pub fn write_joined<T: Encode>(items: &Vec<T>, delimiter: &str, out: &mut String)
    ensures
        final(out)@ == old(out)@ + joined(texts(items@), delimiter@),
{
    let ghost all = texts(items@);
    let mut k: usize = 0;
    while k < items.len()
        invariant
            k <= items.len(),
            all == texts(items@),
            out@ == old(out)@ + joined(all.take(k as int), delimiter@),
        decreases items.len() - k,
    {
        if k != 0 {
            out.append(delimiter);
        }
        items[k].write_to(out);
        proof {
            let done = all.take(k + 1);
            assert(done.drop_last() =~= all.take(k as int));
        }
        k += 1;
    }
    assert(all.take(k as int) =~= all);
}

/// The texts of `vec` one after the other, with `delimiter` between
/// neighbours.
pub fn join_vec<T: Encode>(vec: Vec<T>, delimiter: &str) -> (out: String)
    ensures
        out@ == joined(texts(vec@), delimiter@),
{
    let mut out = String::new();
    write_joined(&vec, delimiter, &mut out);
    out
}

} // verus!
