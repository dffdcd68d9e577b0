//! Character sequences: the vocabulary that the codec contracts are written in.

use vstd::prelude::*;

verus! {

/// The characters that `trim` removes: those that Unicode marks as
/// `White_Space`.
pub open spec fn is_whitespace(c: char) -> bool {
    ||| '\u{9}' <= c <= '\u{d}'
    ||| c == ' '
    ||| c == '\u{85}'
    ||| c == '\u{a0}'
    ||| c == '\u{1680}'
    ||| '\u{2000}' <= c <= '\u{200a}'
    ||| c == '\u{2028}'
    ||| c == '\u{2029}'
    ||| c == '\u{202f}'
    ||| c == '\u{205f}'
    ||| c == '\u{3000}'
}

/// Tells whether `c` is a whitespace character.
pub fn whitespace(c: char) -> (r: bool)
    ensures
        r == is_whitespace(c),
{
    ('\u{9}' <= c && c <= '\u{d}') || c == ' ' || c == '\u{85}' || c == '\u{a0}' || c == '\u{1680}'
        || ('\u{2000}' <= c && c <= '\u{200a}') || c == '\u{2028}' || c == '\u{2029}' || c
        == '\u{202f}' || c == '\u{205f}' || c == '\u{3000}'
}

/// The first position of `s` whose element meets `p`, or `s.len()` where
/// no element does.
pub open spec fn first_where<A>(s: Seq<A>, p: spec_fn(A) -> bool) -> int
    decreases s.len(),
{
    if s.len() == 0 || p(s[0]) {
        0
    } else {
        1 + first_where(s.skip(1), p)
    }
}

/// The test that a character is `c`.
pub open spec fn is_char(c: char) -> spec_fn(char) -> bool {
    |x: char| x == c
}

/// Where the first `c` of `s` stands, or `s.len()` where `s` holds none.
pub open spec fn first_index(s: Seq<char>, c: char) -> int {
    first_where(s, is_char(c))
}

/// The pieces of `s` that lie between its occurrences of `c`. There is always
/// at least one piece, and a piece may be empty.
pub open spec fn pieces(s: Seq<char>, c: char) -> Seq<Seq<char>>
    decreases s.len(),
{
    let i = first_index(s, c);
    if 0 <= i < s.len() {
        seq![s.take(i)] + pieces(s.skip(i + 1), c)
    } else {
        seq![s]
    }
}

/// `parts` written one after the other with `sep` between neighbours.
pub open spec fn joined(parts: Seq<Seq<char>>, sep: Seq<char>) -> Seq<char>
    decreases parts.len(),
{
    if parts.len() == 0 {
        Seq::empty()
    } else if parts.len() == 1 {
        parts[0]
    } else {
        joined(parts.drop_last(), sep) + sep + parts.last()
    }
}

/// `s` without its leading whitespace.
pub open spec fn trim_start(s: Seq<char>) -> Seq<char>
    decreases s.len(),
{
    if s.len() > 0 && is_whitespace(s[0]) {
        trim_start(s.skip(1))
    } else {
        s
    }
}

/// `s` without its trailing whitespace.
pub open spec fn trim_end(s: Seq<char>) -> Seq<char>
    decreases s.len(),
{
    if s.len() > 0 && is_whitespace(s.last()) {
        trim_end(s.drop_last())
    } else {
        s
    }
}

/// `s` without the whitespace at either end.
pub open spec fn trimmed(s: Seq<char>) -> Seq<char> {
    trim_end(trim_start(s))
}

/// `first_where` is the least position that meets `p`, and no position at
/// all where nothing meets `p`.
pub proof fn lemma_first_where<A>(s: Seq<A>, p: spec_fn(A) -> bool)
    ensures
        0 <= first_where(s, p) <= s.len(),
        first_where(s, p) < s.len() ==> p(s[first_where(s, p)]),
        forall|j: int| 0 <= j < first_where(s, p) ==> !p(#[trigger] s[j]),
    decreases s.len(),
{
    if s.len() > 0 && !p(s[0]) {
        let rest = s.skip(1);
        lemma_first_where(rest, p);
        assert forall|j: int| 0 <= j < first_where(s, p) implies !p(#[trigger] s[j]) by {
            if j > 0 {
                assert(s[j] == rest[j - 1]);
            }
        }
    }
}

/// A position with nothing before it that meets `p`, and which meets `p`
/// unless it is the end, is the first such position.
pub proof fn lemma_first_where_is<A>(s: Seq<A>, p: spec_fn(A) -> bool, i: int)
    requires
        0 <= i <= s.len(),
        i < s.len() ==> p(s[i]),
        forall|j: int| 0 <= j < i ==> !p(#[trigger] s[j]),
    ensures
        first_where(s, p) == i,
{
    lemma_first_where(s, p);
}

/// `first_index` is the least position of `c`, and no position at all where
/// `c` does not occur.
pub proof fn lemma_first_index(s: Seq<char>, c: char)
    ensures
        0 <= first_index(s, c) <= s.len(),
        first_index(s, c) < s.len() ==> s[first_index(s, c)] == c,
        forall|j: int| 0 <= j < first_index(s, c) ==> s[j] != c,
{
    lemma_first_where(s, is_char(c));
}

/// A position with no `c` before it, and `c` on it unless it is the end, is
/// the first index.
pub proof fn lemma_first_index_is(s: Seq<char>, c: char, i: int)
    requires
        0 <= i <= s.len(),
        i < s.len() ==> s[i] == c,
        forall|j: int| 0 <= j < i ==> s[j] != c,
    ensures
        first_index(s, c) == i,
{
    lemma_first_where_is(s, is_char(c), i);
}

/// `s` holds no `c`.
pub open spec fn lacks(s: Seq<char>, c: char) -> bool {
    forall|i: int| 0 <= i < s.len() ==> s[i] != c
}

/// Trimming leaves `s` as it is: it neither begins nor ends in whitespace.
pub open spec fn trim_stable(s: Seq<char>) -> bool {
    s.len() == 0 || (!is_whitespace(s[0]) && !is_whitespace(s.last()))
}

/// Text without `c` is one piece.
pub proof fn lemma_pieces_whole(s: Seq<char>, c: char)
    requires
        lacks(s, c),
    ensures
        pieces(s, c) == seq![s],
{
    lemma_first_index_is(s, c, s.len() as int);
}

/// Where `head` holds no `c`, the pieces of `head`, `c`, `tail` are `head`
/// and then the pieces of `tail`.
pub proof fn lemma_pieces_cut(head: Seq<char>, c: char, tail: Seq<char>)
    requires
        lacks(head, c),
    ensures
        pieces(head + seq![c] + tail, c) == seq![head] + pieces(tail, c),
{
    let s = head + seq![c] + tail;
    lemma_first_index_is(s, c, head.len() as int);
    assert(s.take(head.len() as int) =~= head);
    assert(s.skip(head.len() as int + 1) =~= tail);
}

/// No piece holds the character that the text was cut at.
pub proof fn lemma_pieces_lack(s: Seq<char>, c: char)
    ensures
        forall|k: int| 0 <= k < pieces(s, c).len() ==> lacks(#[trigger] pieces(s, c)[k], c),
    decreases s.len(),
{
    lemma_first_index(s, c);
    let i = first_index(s, c);
    if i < s.len() {
        let rest = s.skip(i + 1);
        lemma_pieces_lack(rest, c);
        assert forall|k: int| 0 <= k < pieces(s, c).len() implies lacks(
            #[trigger] pieces(s, c)[k],
            c,
        ) by {
            if k > 0 {
                assert(pieces(s, c)[k] == pieces(rest, c)[k - 1]);
            }
        }
    }
}

/// What a text does not hold, none of its pieces holds.
pub proof fn lemma_pieces_parts_lack(s: Seq<char>, cut: char, c: char)
    requires
        lacks(s, c),
    ensures
        forall|k: int| 0 <= k < pieces(s, cut).len() ==> lacks(#[trigger] pieces(s, cut)[k], c),
    decreases s.len(),
{
    lemma_first_index(s, cut);
    let i = first_index(s, cut);
    if i < s.len() {
        let rest = s.skip(i + 1);
        lemma_pieces_parts_lack(rest, cut, c);
        assert forall|k: int| 0 <= k < pieces(s, cut).len() implies lacks(
            #[trigger] pieces(s, cut)[k],
            c,
        ) by {
            if k > 0 {
                assert(pieces(s, cut)[k] == pieces(rest, cut)[k - 1]);
            }
        }
    }
}

/// What a text does not hold, the trimmed text does not hold.
pub proof fn lemma_trimmed_lacks(s: Seq<char>, c: char)
    requires
        lacks(s, c),
    ensures
        lacks(trimmed(s), c),
{
    lemma_trim_start_lacks(s, c);
    lemma_trim_end_lacks(trim_start(s), c);
}

/// What a text does not hold, it does not hold without its leading
/// whitespace.
proof fn lemma_trim_start_lacks(s: Seq<char>, c: char)
    requires
        lacks(s, c),
    ensures
        lacks(trim_start(s), c),
    decreases s.len(),
{
    if s.len() > 0 && is_whitespace(s[0]) {
        lemma_trim_start_lacks(s.skip(1), c);
    }
}

/// What a text does not hold, it does not hold without its trailing
/// whitespace.
proof fn lemma_trim_end_lacks(s: Seq<char>, c: char)
    requires
        lacks(s, c),
    ensures
        lacks(trim_end(s), c),
    decreases s.len(),
{
    if s.len() > 0 && is_whitespace(s.last()) {
        lemma_trim_end_lacks(s.drop_last(), c);
    }
}

/// Joining can be unfolded at the first part as well as at the last.
pub proof fn lemma_joined_first(parts: Seq<Seq<char>>, sep: Seq<char>)
    requires
        parts.len() >= 2,
    ensures
        joined(parts, sep) == parts[0] + sep + joined(parts.skip(1), sep),
    decreases parts.len(),
{
    if parts.len() == 2 {
        assert(joined(parts.drop_last(), sep) == parts[0]);
    } else {
        let front = parts.drop_last();
        lemma_joined_first(front, sep);
        assert(front.skip(1) =~= parts.skip(1).drop_last());
    }
}

/// Cutting at `c` undoes joining with `c`, where no part holds `c` and there
/// is at least one part.
pub proof fn lemma_pieces_joined(parts: Seq<Seq<char>>, c: char)
    requires
        parts.len() > 0,
        forall|k: int| 0 <= k < parts.len() ==> lacks(#[trigger] parts[k], c),
    ensures
        pieces(joined(parts, seq![c]), c) == parts,
    decreases parts.len(),
{
    if parts.len() == 1 {
        lemma_pieces_whole(parts[0], c);
    } else {
        let rest = parts.skip(1);
        lemma_joined_first(parts, seq![c]);
        lemma_pieces_joined(rest, c);
        lemma_pieces_cut(parts[0], c, joined(rest, seq![c]));
    }
}

/// A text has at least one piece, and text of one piece holds no `c`.
pub proof fn lemma_pieces_one(s: Seq<char>, c: char)
    ensures
        pieces(s, c).len() >= 1,
        pieces(s, c).len() == 1 ==> lacks(s, c),
    decreases s.len(),
{
    lemma_first_index(s, c);
    let i = first_index(s, c);
    if i < s.len() {
        lemma_pieces_one(s.skip(i + 1), c);
    }
}

/// The pieces of two texts with `c` between them are the pieces of the one
/// and then the pieces of the other.
pub proof fn lemma_pieces_concat(head: Seq<char>, c: char, tail: Seq<char>)
    ensures
        pieces(head + seq![c] + tail, c) == pieces(head, c) + pieces(tail, c),
    decreases head.len(),
{
    lemma_first_index(head, c);
    let i = first_index(head, c);
    if i < head.len() {
        let whole = head + seq![c] + tail;
        let rest = head.skip(i + 1);
        lemma_first_index_is(whole, c, i);
        assert(whole.take(i) =~= head.take(i));
        assert(whole.skip(i + 1) =~= rest + seq![c] + tail);
        lemma_pieces_concat(rest, c, tail);
    } else {
        lemma_pieces_cut(head, c, tail);
    }
}

/// Cutting at `c` what was joined with `c` gives at least as many pieces as
/// there were parts, and as many only where no part holds `c`.
pub proof fn lemma_pieces_count(parts: Seq<Seq<char>>, c: char)
    requires
        parts.len() > 0,
    ensures
        pieces(joined(parts, seq![c]), c).len() >= parts.len(),
        pieces(joined(parts, seq![c]), c).len() == parts.len() ==> forall|k: int|
            0 <= k < parts.len() ==> lacks(#[trigger] parts[k], c),
    decreases parts.len(),
{
    if parts.len() == 1 {
        lemma_pieces_one(parts[0], c);
    } else {
        let front = parts.drop_last();
        lemma_pieces_count(front, c);
        lemma_pieces_concat(joined(front, seq![c]), c, parts.last());
        lemma_pieces_one(parts.last(), c);
        if pieces(joined(parts, seq![c]), c).len() == parts.len() {
            assert forall|k: int| 0 <= k < parts.len() implies lacks(#[trigger] parts[k], c) by {
                if k < front.len() {
                    assert(parts[k] == front[k]);
                }
            }
        }
    }
}

/// Text without its leading whitespace is an end of the text that does not
/// begin in whitespace.
pub proof fn lemma_trim_start(s: Seq<char>)
    ensures
        trim_start(s).len() <= s.len(),
        trim_start(s) == s.skip(s.len() - trim_start(s).len()),
        trim_start(s).len() > 0 ==> !is_whitespace(trim_start(s)[0]),
    decreases s.len(),
{
    if s.len() > 0 && is_whitespace(s[0]) {
        let rest = s.skip(1);
        lemma_trim_start(rest);
    }
}

/// Text without its trailing whitespace is a beginning of the text that
/// does not end in whitespace.
pub proof fn lemma_trim_end(s: Seq<char>)
    ensures
        trim_end(s).len() <= s.len(),
        trim_end(s) == s.take(trim_end(s).len() as int),
        trim_end(s).len() > 0 ==> !is_whitespace(trim_end(s).last()),
    decreases s.len(),
{
    if s.len() > 0 && is_whitespace(s.last()) {
        let rest = s.drop_last();
        lemma_trim_end(rest);
    }
}

/// Trimmed text is trim-stable, and only trim-stable text is left as it is.
pub proof fn lemma_trimmed(s: Seq<char>)
    ensures
        trim_stable(trimmed(s)),
        trimmed(s).len() <= s.len(),
        trimmed(s) == s <==> trim_stable(s),
{
    lemma_trim_start(s);
    let t = trim_start(s);
    lemma_trim_end(t);
}

/// What neither the parts nor the separator hold, the joined text does not
/// hold.
pub proof fn lemma_joined_lacks(parts: Seq<Seq<char>>, sep: Seq<char>, c: char)
    requires
        forall|k: int| 0 <= k < parts.len() ==> lacks(#[trigger] parts[k], c),
        lacks(sep, c),
    ensures
        lacks(joined(parts, sep), c),
    decreases parts.len(),
{
    if parts.len() >= 2 {
        let front = parts.drop_last();
        lemma_joined_lacks(front, sep, c);
    }
}

/// Each part with one space before it.
pub open spec fn spaced(parts: Seq<Seq<char>>) -> Seq<Seq<char>> {
    parts.map_values(|part: Seq<char>| seq![' '] + part)
}

/// A space and then the parts joined with `, ` is the spaced parts joined
/// with `,`.
pub proof fn lemma_joined_spaced(parts: Seq<Seq<char>>)
    requires
        parts.len() > 0,
    ensures
        seq![' '] + joined(parts, seq![',', ' ']) == joined(spaced(parts), seq![',']),
    decreases parts.len(),
{
    if parts.len() > 1 {
        let front = parts.drop_last();
        lemma_joined_spaced(front);
        assert(spaced(parts).drop_last() =~= spaced(front));
    }
}

/// Whitespace in front does not change what is left after trimming.
pub proof fn lemma_trimmed_lead(c: char, s: Seq<char>)
    requires
        is_whitespace(c),
    ensures
        trimmed(seq![c] + s) == trimmed(s),
{
    assert((seq![c] + s).skip(1) =~= s);
}

/// The characters of `s`, in order.
pub fn chars_of(s: &str) -> (v: Vec<char>)
    ensures
        v@ == s@,
{
    let mut v: Vec<char> = Vec::new();
    for c in it: s.chars()
        invariant
            v@ == it.seq().take(it.index()),
    {
        v.push(c);
    }
    v
}

/// Appends one character to a string.
///
/// Wraps `String::push`, which puts `c` behind the last character of `s` and
/// changes nothing else.
#[verifier::external_body]
pub(crate) fn push_char(s: &mut String, c: char)
    ensures
        final(s)@ == old(s)@.push(c),
{
    s.push(c)
}

/// The string spelled by `chars`.
pub fn string_of(chars: &[char]) -> (s: String)
    ensures
        s@ == chars@,
{
    let mut s = String::new();
    let mut i: usize = 0;
    while i < chars.len()
        invariant
            i <= chars.len(),
            s@ == chars@.take(i as int),
        decreases chars.len() - i,
    {
        push_char(&mut s, chars[i]);
        i += 1;
    }
    s
}

/// The position of the first `c` in `text`, or the length of `text` where it
/// holds none.
pub fn find(text: &[char], c: char) -> (i: usize)
    ensures
        i == first_index(text@, c),
{
    let mut i: usize = 0;
    while i < text.len() && text[i] != c
        invariant
            i <= text.len(),
            forall|j: int| 0 <= j < i ==> text@[j] != c,
        decreases text.len() - i,
    {
        i += 1;
    }
    proof {
        lemma_first_index_is(text@, c, i as int);
    }
    i
}

/// Cuts `text` at every `c`. The pieces come in the order of the text and do
/// not hold the `c` that parted them.
pub fn split(text: &[char], c: char) -> (parts: Vec<&[char]>)
    ensures
        parts@.len() == pieces(text@, c).len(),
        forall|k: int| 0 <= k < parts@.len() ==> (#[trigger] parts@[k])@ == pieces(text@, c)[k],
{
    let mut parts: Vec<&[char]> = Vec::new();
    let mut rest: &[char] = text;
    loop
        invariant_except_break
            pieces(text@, c) == Seq::new(parts@.len(), |k: int| parts@[k]@) + pieces(rest@, c),
        ensures
            parts@.len() == pieces(text@, c).len(),
            forall|k: int|
                0 <= k < parts@.len() ==> (#[trigger] parts@[k])@ == pieces(text@, c)[k],
        decreases rest@.len(),
    {
        let ghost before = Seq::new(parts@.len(), |k: int| parts@[k]@);
        let i = find(rest, c);
        if i < rest.len() {
            parts.push(&rest[0..i]);
            rest = &rest[i + 1..rest.len()];
            assert(Seq::new(parts@.len(), |k: int| parts@[k]@) =~= before + seq![
                parts@.last()@,
            ]);
        } else {
            parts.push(rest);
            break;
        }
    }
    parts
}

/// `text` without the whitespace at either end.
pub fn trim(text: &[char]) -> (r: &[char])
    ensures
        r@ == trimmed(text@),
{
    let mut lo: usize = 0;
    assert(text@.skip(0) =~= text@);
    while lo < text.len() && whitespace(text[lo])
        invariant
            lo <= text.len(),
            trim_start(text@) == trim_start(text@.skip(lo as int)),
        decreases text.len() - lo,
    {
        assert(text@.skip(lo as int).skip(1) =~= text@.skip(lo + 1));
        lo += 1;
    }
    let mut hi: usize = text.len();
    while lo < hi && whitespace(text[hi - 1])
        invariant
            lo <= hi <= text.len(),
            trimmed(text@) == trim_end(text@.subrange(lo as int, hi as int)),
        decreases hi - lo,
    {
        assert(text@.subrange(lo as int, hi as int).drop_last() =~= text@.subrange(
            lo as int,
            hi - 1,
        ));
        hi -= 1;
    }
    &text[lo..hi]
}

} // verus!
