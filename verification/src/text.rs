//! Pieces of a string addressed by byte offsets, and the few string
//! primitives the rest of the crate builds on.

use vstd::prelude::*;
use vstd::string::StringSliceAdditionalSpecFns;
use vstd::utf8::*;

verus! {

/// The UTF-8 bytes of `text`.
pub open spec fn bytes_of(text: Seq<char>) -> Seq<u8> {
    encode_utf8(text)
}

/// `from..to` is a byte range of `text` that starts and ends between characters.
pub open spec fn is_span(text: Seq<char>, from: int, to: int) -> bool {
    &&& 0 <= from <= to <= bytes_of(text).len()
    &&& is_char_boundary(bytes_of(text), from)
    &&& is_char_boundary(bytes_of(text), to)
}

/// The characters of `text` whose bytes lie in `from..to`.
pub open spec fn span_text(text: Seq<char>, from: int, to: int) -> Seq<char> {
    decode_utf8(bytes_of(text).subrange(from, to))
}

/// Whether `from..to` is a byte range of `text` that may be cut out of it.
pub(crate) fn check_span(text: &str, from: usize, to: usize) -> (ok: bool)
    ensures
        ok == is_span(text@, from as int, to as int),
{
    broadcast use encode_utf8_valid_utf8;
    from <= to && text.is_char_boundary(from) && text.is_char_boundary(to)
}

/// Cuts the byte range `from..to` out of `text`.
pub(crate) fn cut<'a>(text: &'a str, from: usize, to: usize) -> (piece: &'a str)
    requires
        is_span(text@, from as int, to as int),
    ensures
        piece@ == span_text(text@, from as int, to as int),
{
    broadcast use group_utf8_lib;
    let ghost bytes = bytes_of(text@);
    let (head, _) = text.split_at(to);
    proof {
        if from < to {
            is_char_boundary_iff_not_is_continuation_byte(bytes, from as int);
            is_char_boundary_iff_not_is_continuation_byte(head.spec_bytes(), from as int);
        }
    }
    let (_, piece) = head.split_at(from);
    proof {
        assert(piece.spec_bytes() =~= bytes.subrange(from as int, to as int));
    }
    piece
}

/// Cuts off what stands in `text` from the byte offset `from` on.
pub(crate) fn cut_from<'a>(text: &'a str, from: usize) -> (piece: &'a str)
    requires
        is_span(text@, from as int, from as int),
    ensures
        piece@ == span_text(text@, from as int, bytes_of(text@).len() as int),
{
    broadcast use group_utf8_lib;
    let (_, piece) = text.split_at(from);
    piece
}

/// Calls `String::push`: the string grows by the one character.
#[verifier::external_body]
pub(crate) fn push_char(s: &mut String, c: char)
    ensures
        final(s)@ == old(s)@.push(c),
{
    s.push(c)
}

} // verus!
