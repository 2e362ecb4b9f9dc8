//! Comparing and cutting text by way of its UTF-8 bytes.

use vstd::prelude::*;
use vstd::string::StringSliceAdditionalSpecFns;
use vstd::utf8::*;

verus! {

/// Two texts with the same UTF-8 bytes are the same text.
pub proof fn lemma_utf8_settles_text(first: Seq<char>, second: Seq<char>)
    requires
        encode_utf8(first) == encode_utf8(second),
    ensures
        first == second,
{
    encode_utf8_decode_utf8(first);
    encode_utf8_decode_utf8(second);
}

/// Whether two byte strings are equal.
pub fn bytes_eq(first: &[u8], second: &[u8]) -> (same: bool)
    ensures
        same == (first@ == second@),
{
    if first.len() != second.len() {
        return false;
    }
    let mut at: usize = 0;
    while at < first.len()
        invariant
            at <= first.len(),
            first.len() == second.len(),
            forall|k: int| 0 <= k < at ==> first@[k] == second@[k],
        decreases first.len() - at,
    {
        if first[at] != second[at] {
            return false;
        }
        at = at + 1;
    }
    proof {
        assert(first@ =~= second@);
    }
    true
}

/// Whether two texts are equal.
pub fn text_eq(first: &str, second: &str) -> (same: bool)
    ensures
        same == (first@ == second@),
{
    let same = bytes_eq(first.as_bytes(), second.as_bytes());
    proof {
        if same {
            lemma_utf8_settles_text(first@, second@);
        }
    }
    same
}

/// In valid UTF-8, a byte below 0x80 starts a character and the byte behind
/// it starts the next.
pub proof fn lemma_ascii_byte_is_a_character(bytes: Seq<u8>, at: int)
    requires
        valid_utf8(bytes),
        0 <= at < bytes.len(),
        bytes[at] < 0x80,
    ensures
        is_char_boundary(bytes, at),
        is_char_boundary(bytes, at + 1),
{
    is_char_boundary_iff_not_is_continuation_byte(bytes, at);
    valid_utf8_split(bytes, at);
    let tail = bytes.subrange(at, bytes.len() as int);
    assert(tail[0] == bytes[at]);
    assert(is_leading_byte_width_1(tail[0]));
    assert(valid_utf8(pop_first_scalar(tail)));
    assert(pop_first_scalar(tail) =~= bytes.subrange(at + 1, bytes.len() as int));
    if at + 1 < bytes.len() {
        let rest = bytes.subrange(at + 1, bytes.len() as int);
        assert(rest[0] == bytes[at + 1]);
        assert(valid_first_scalar(rest));
        is_char_boundary_iff_not_is_continuation_byte(bytes, at + 1);
    } else {
        is_char_boundary_start_end_of_seq(bytes);
    }
}

/// A character boundary of a text is one of each prefix that reaches it.
proof fn lemma_boundary_of_prefix(bytes: Seq<u8>, at: int, end: int)
    requires
        valid_utf8(bytes),
        0 <= at <= end <= bytes.len(),
        is_char_boundary(bytes, at),
        is_char_boundary(bytes, end),
    ensures
        valid_utf8(bytes.subrange(0, end)),
        is_char_boundary(bytes.subrange(0, end), at),
{
    valid_utf8_split(bytes, end);
    let prefix = bytes.subrange(0, end);
    if at < end {
        is_char_boundary_iff_not_is_continuation_byte(bytes, at);
        assert(prefix[at] == bytes[at]);
        is_char_boundary_iff_not_is_continuation_byte(prefix, at);
    } else {
        is_char_boundary_start_end_of_seq(prefix);
    }
}

/// The part of `text` between two character boundaries, given as byte
/// offsets.
pub(crate) fn cut(text: &str, from: usize, to: usize) -> (piece: String)
    requires
        from <= to <= text.spec_bytes().len(),
        is_char_boundary(text.spec_bytes(), from as int),
        is_char_boundary(text.spec_bytes(), to as int),
    ensures
        piece@ == decode_utf8(text.spec_bytes().subrange(from as int, to as int)),
{
    proof {
        encode_utf8_valid_utf8(text@);
        lemma_boundary_of_prefix(text.spec_bytes(), from as int, to as int);
    }
    let (head, _) = text.split_at(to);
    let (_, piece) = head.split_at(from);
    proof {
        assert(piece.spec_bytes() =~= text.spec_bytes().subrange(from as int, to as int));
        encode_utf8_decode_utf8(piece@);
    }
    piece.to_owned()
}

} // verus!
