//! Splitting text on a delimiter, and the model that the contracts of the
//! whole crate are stated over.

use vstd::prelude::*;
use vstd::string::*;
use crate::offsets::{byte_offset, cut, encoded_len, lemma_offset_step};

verus! {

/// The parts that `delimiter` cuts `text` into, read off character by
/// character: a delimiter closes the part in progress and opens an empty one,
/// any other character extends the part in progress.
///
/// [`lemma_split_is_clean`], [`lemma_join_of_split`] and [`lemma_split_of_join`]
/// say the same without the recursion: the parts are the one non-empty sequence
/// of delimiter-free texts that, joined by the delimiter, give `text`.
pub open spec fn split_text(text: Seq<char>, delimiter: char) -> Seq<Seq<char>>
    decreases text.len(),
{
    if text.len() == 0 {
        seq![Seq::empty()]
    } else {
        let before = split_text(text.drop_last(), delimiter);
        if text.last() == delimiter {
            before.push(Seq::empty())
        } else {
            before.drop_last().push(before.last().push(text.last()))
        }
    }
}

/// `parts` written one after the other with `delimiter` between neighbours.
pub open spec fn join_text(parts: Seq<Seq<char>>, delimiter: char) -> Seq<char>
    decreases parts.len(),
{
    if parts.len() == 0 {
        Seq::empty()
    } else if parts.len() == 1 {
        parts[0]
    } else {
        join_text(parts.drop_last(), delimiter).push(delimiter) + parts.last()
    }
}

/// No part holds the delimiter.
pub open spec fn is_clean(parts: Seq<Seq<char>>, delimiter: char) -> bool {
    forall|i: int| 0 <= i < parts.len() ==> !(#[trigger] parts[i]).contains(delimiter)
}

/// Splitting never yields zero parts, and no part holds the delimiter.
pub proof fn lemma_split_is_clean(text: Seq<char>, delimiter: char)
    ensures
        split_text(text, delimiter).len() >= 1,
        is_clean(split_text(text, delimiter), delimiter),
    decreases text.len(),
{
    if text.len() > 0 {
        lemma_split_is_clean(text.drop_last(), delimiter);
    }
}

/// Round trip on one rank: the parts of a text, joined by the delimiter they
/// were split on, are the text again.
pub proof fn lemma_join_of_split(text: Seq<char>, delimiter: char)
    ensures
        join_text(split_text(text, delimiter), delimiter) == text,
    decreases text.len(),
{
    if text.len() > 0 {
        let shorter = text.drop_last();
        lemma_join_of_split(shorter, delimiter);
        lemma_split_is_clean(shorter, delimiter);
        let before = split_text(shorter, delimiter);
        let parts = split_text(text, delimiter);
        if text.last() == delimiter {
            assert(parts.drop_last() =~= before);
        } else if before.len() > 1 {
            assert(parts.drop_last() =~= before.drop_last());
        }
        assert(shorter.push(text.last()) =~= text);
    }
}

/// A text without the delimiter is its own single part.
pub proof fn lemma_split_without_delimiter(text: Seq<char>, delimiter: char)
    requires
        !text.contains(delimiter),
    ensures
        split_text(text, delimiter) == seq![text],
    decreases text.len(),
{
    if text.len() > 0 {
        let shorter = text.drop_last();
        assert forall|k: int| 0 <= k < shorter.len() implies shorter[k] != delimiter by {
            assert(shorter[k] == text[k]);
        }
        lemma_split_without_delimiter(shorter, delimiter);
        assert(shorter.push(text.last()) =~= text);
    } else {
        assert(text =~= Seq::<char>::empty());
    }
}

/// Splitting distributes over a delimiter: what stands before it and what
/// stands after it are split on their own.
pub proof fn lemma_split_around_delimiter(head: Seq<char>, tail: Seq<char>, delimiter: char)
    ensures
        split_text(head.push(delimiter) + tail, delimiter) == split_text(head, delimiter)
            + split_text(tail, delimiter),
    decreases tail.len(),
{
    let whole = head.push(delimiter) + tail;
    if tail.len() == 0 {
        assert(whole.drop_last() =~= head);
    } else {
        let shorter = tail.drop_last();
        lemma_split_around_delimiter(head, shorter, delimiter);
        lemma_split_is_clean(shorter, delimiter);
        assert(whole.drop_last() =~= head.push(delimiter) + shorter);
    }
}

/// The parts are unique: a non-empty sequence of delimiter-free texts is what
/// splitting its join gives back.
pub proof fn lemma_split_of_join(parts: Seq<Seq<char>>, delimiter: char)
    requires
        parts.len() >= 1,
        is_clean(parts, delimiter),
    ensures
        split_text(join_text(parts, delimiter), delimiter) == parts,
    decreases parts.len(),
{
    if parts.len() == 1 {
        lemma_split_without_delimiter(parts[0], delimiter);
    } else {
        let init = parts.drop_last();
        assert(is_clean(init, delimiter)) by {
            assert forall|i: int| 0 <= i < init.len() implies !(#[trigger] init[i]).contains(
                delimiter,
            ) by {
                assert(init[i] == parts[i]);
            }
        }
        lemma_split_of_join(init, delimiter);
        lemma_split_around_delimiter(join_text(init, delimiter), parts.last(), delimiter);
        lemma_split_without_delimiter(parts.last(), delimiter);
    }
}

/// Cuts `text` at every `delimiter` into spans of `text`, in order, in one
/// pass over its characters. Total and exhaustive: a text without the
/// delimiter, the empty text too, is one span; two delimiters in a row have
/// an empty span between them. No escape sequence is read: a delimiter
/// preceded by the escape character still cuts.
pub fn split<'a>(text: &'a str, delimiter: char) -> (parts: Vec<&'a str>)
    ensures
        parts.deep_view() == split_text(text@, delimiter),
{
    let total = text.as_bytes().len();
    let mut parts: Vec<&'a str> = Vec::new();
    let mut start: usize = 0;
    let mut at: usize = 0;
    let ghost mut start_char: int = 0;
    assert(text@.take(0) =~= Seq::<char>::empty());
    for c in chars: text.chars()
        invariant
            chars.seq() == text@,
            total == text.spec_bytes().len(),
            0 <= start_char <= chars.index(),
            start == byte_offset(text@, start_char),
            at == byte_offset(text@, chars.index()),
            at <= total,
            split_text(text@.take(chars.index()), delimiter) == parts.deep_view().push(
                text@.subrange(start_char, chars.index()),
            ),
    {
        let ghost here = chars.index();
        let ghost open_part = text@.subrange(start_char, here);
        proof {
            lemma_offset_step(text@, here);
            assert(text@.take(here + 1).drop_last() =~= text@.take(here));
        }
        let width = encoded_len(c);
        if c == delimiter {
            let part = cut(text, start, at, Ghost(start_char), Ghost(here));
            parts.push(part);
            start = at + width;
            proof {
                start_char = here + 1;
                assert(text@.subrange(start_char, here + 1) =~= Seq::<char>::empty());
            }
        } else {
            assert(open_part.push(c) =~= text@.subrange(start_char, here + 1));
        }
        at = at + width;
    }
    assert(text@.take(text@.len() as int) =~= text@);
    let part = cut(text, start, at, Ghost(start_char), Ghost(text@.len() as int));
    parts.push(part);
    parts
}

/// `String::push` of std: the text afterwards is the text before with `c`
/// appended at its end.
#[verifier::external_body]
pub(crate) fn push_char(text: &mut String, c: char)
    ensures
        final(text)@ == old(text)@.push(c),
{
    text.push(c);
}

/// Writes `parts` one after the other with `delimiter` between neighbours:
/// the inverse of [`split`].
pub fn join(parts: &Vec<&str>, delimiter: char) -> (text: String)
    ensures
        text@ == join_text(parts.deep_view(), delimiter),
{
    let mut text = String::new();
    let mut at: usize = 0;
    while at < parts.len()
        invariant
            at <= parts.len(),
            text@ == join_text(parts.deep_view().take(at as int), delimiter),
        decreases parts.len() - at,
    {
        assert(parts.deep_view().take(at + 1).drop_last() =~= parts.deep_view().take(at as int));
        if at > 0 {
            push_char(&mut text, delimiter);
        }
        text.append(parts[at]);
        at = at + 1;
    }
    assert(parts.deep_view().take(at as int) =~= parts.deep_view());
    text
}

/// Whether two texts hold the same characters.
pub fn text_eq(a: &str, b: &str) -> (same: bool)
    ensures
        same == (a@ == b@),
{
    let left = a.as_bytes();
    let right = b.as_bytes();
    proof {
        vstd::utf8::encode_utf8_decode_utf8(a@);
        vstd::utf8::encode_utf8_decode_utf8(b@);
    }
    if left.len() != right.len() {
        return false;
    }
    let mut at: usize = 0;
    while at < left.len()
        invariant
            at <= left.len(),
            left.len() == right.len(),
            left@ == a.spec_bytes(),
            right@ == b.spec_bytes(),
            forall|k: int| 0 <= k < at ==> left@[k] == right@[k],
        decreases left.len() - at,
    {
        if left[at] != right[at] {
            return false;
        }
        at = at + 1;
    }
    assert(left@ =~= right@);
    true
}

} // verus!
