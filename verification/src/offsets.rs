//! Cutting spans out of a text. Texts are modelled as sequences of
//! characters and held in memory as UTF-8, so a place in a text is counted
//! in characters in the contracts and in bytes in the code. This module ties
//! the two together.

use vstd::prelude::*;
use vstd::std_specs::iter::IteratorSpec;
use vstd::string::*;
use vstd::utf8::{encode_scalar, encode_utf8, is_char_boundary};

verus! {

/// The number of bytes that the first `at` characters of `text` take up in
/// UTF-8, which is where character `at` starts in memory.
pub open spec fn byte_offset(text: Seq<char>, at: int) -> int {
    encode_utf8(text.take(at)).len() as int
}

/// The encoding of a text is the encoding of a first part of it followed by
/// the encoding of the rest.
pub proof fn lemma_encode_concat(head: Seq<char>, tail: Seq<char>)
    ensures
        encode_utf8(head + tail) == encode_utf8(head) + encode_utf8(tail),
    decreases head.len(),
{
    if head.len() > 0 {
        lemma_encode_concat(head.drop_first(), tail);
        assert((head + tail).drop_first() =~= head.drop_first() + tail);
    }
}

/// Where a character starts, the encoded text can be cut.
pub proof fn lemma_offset_is_boundary(head: Seq<char>, tail: Seq<char>)
    ensures
        is_char_boundary(encode_utf8(head + tail), encode_utf8(head).len() as int),
    decreases head.len(),
{
    let whole = head + tail;
    let bytes = encode_utf8(whole);
    vstd::utf8::encode_utf8_valid_utf8(whole);
    if head.len() > 0 {
        lemma_offset_is_boundary(head.drop_first(), tail);
        lemma_encode_concat(head, tail);
        vstd::utf8::encode_utf8_first_scalar(whole);
        vstd::utf8::encode_utf8_first_scalar(head);
        assert(whole.drop_first() =~= head.drop_first() + tail);
        assert(vstd::utf8::pop_first_scalar(bytes) =~= encode_utf8(whole.drop_first()));
    }
}

/// One character more takes up its own width more, and no prefix of a text
/// takes up more than the text.
pub proof fn lemma_offset_step(text: Seq<char>, at: int)
    requires
        0 <= at < text.len(),
    ensures
        byte_offset(text, at + 1) == byte_offset(text, at) + encode_scalar(text[at] as u32).len(),
        byte_offset(text, at + 1) <= encode_utf8(text).len(),
{
    let next = seq![text[at]];
    assert(text.take(at + 1) =~= text.take(at) + next);
    lemma_encode_concat(text.take(at), next);
    assert(encode_utf8(next) =~= encode_scalar(text[at] as u32)) by {
        reveal_with_fuel(encode_utf8, 2);
    }
    assert(text =~= text.take(at + 1) + text.skip(at + 1));
    lemma_encode_concat(text.take(at + 1), text.skip(at + 1));
}

/// A later character starts at a later byte.
pub proof fn lemma_offsets_grow(text: Seq<char>, from: int, to: int)
    requires
        0 <= from < to <= text.len(),
    ensures
        byte_offset(text, from) < byte_offset(text, to),
    decreases to - from,
{
    lemma_offset_step(text, to - 1);
    vstd::utf8::char_is_scalar(text[to - 1]);
    if from < to - 1 {
        lemma_offsets_grow(text, from, to - 1);
    }
}

/// The width of a character in UTF-8.
pub(crate) fn encoded_len(c: char) -> (width: usize)
    ensures
        width == encode_scalar(c as u32).len(),
        1 <= width <= 4,
{
    let scalar = c as u32;
    proof {
        vstd::utf8::char_is_scalar(c);
    }
    if scalar < 0x80 {
        1
    } else if scalar < 0x800 {
        2
    } else if scalar < 0x10000 {
        3
    } else {
        4
    }
}

/// The characters `from..to` of `text`, borrowed from it: the text is cut at
/// the bytes where the two characters start, which costs the same wherever
/// in the text they are.
pub(crate) fn cut<'a>(
    text: &'a str,
    from_byte: usize,
    to_byte: usize,
    Ghost(from): Ghost<int>,
    Ghost(to): Ghost<int>,
) -> (part: &'a str)
    requires
        0 <= from <= to <= text@.len(),
        from_byte == byte_offset(text@, from),
        to_byte == byte_offset(text@, to),
    ensures
        part@ == text@.subrange(from, to),
{
    let ghost upto = text@.take(to);
    let ghost before = text@.take(from);
    let ghost wanted = text@.subrange(from, to);
    proof {
        assert(text@ =~= upto + text@.skip(to));
        lemma_offset_is_boundary(upto, text@.skip(to));
        lemma_encode_concat(upto, text@.skip(to));
        assert(upto =~= before + wanted);
        lemma_offset_is_boundary(before, wanted);
        lemma_encode_concat(before, wanted);
    }
    let (head, _) = text.split_at(to_byte);
    proof {
        assert(head.spec_bytes() =~= encode_utf8(upto));
        vstd::utf8::encode_utf8_decode_utf8(head@);
        vstd::utf8::encode_utf8_decode_utf8(upto);
    }
    let (_, part) = head.split_at(from_byte);
    proof {
        assert(part.spec_bytes() =~= encode_utf8(wanted));
        vstd::utf8::encode_utf8_decode_utf8(part@);
        vstd::utf8::encode_utf8_decode_utf8(wanted);
    }
    part
}

/// The first `count` characters of `text`, or all of them where it has
/// fewer. Reads no further than that.
pub(crate) fn leading(text: &str, count: usize) -> (head: Vec<char>)
    ensures
        head@ == text@.take(
            if count <= text@.len() {
                count as int
            } else {
                text@.len() as int
            },
        ),
{
    let mut head: Vec<char> = Vec::new();
    let mut chars = text.chars();
    while head.len() < count
        invariant
            head.len() <= count,
            head.len() <= text@.len(),
            head@ == text@.take(head.len() as int),
            chars.remaining() == text@.skip(head.len() as int),
        ensures
            head.len() == count || head.len() == text@.len(),
        decreases count - head.len(),
    {
        match chars.next() {
            Some(c) => {
                head.push(c);
            },
            None => {
                break;
            },
        }
    }
    head
}

} // verus!
