//! Facts that carry a statement about the bytes of a string over to its
//! characters, and back.
//!
//! The executable code scans `str::as_bytes`, while every contract speaks of
//! the characters. The lemmas here connect the two through the UTF-8
//! encoding that `vstd::utf8` defines.
use vstd::prelude::*;
use vstd::utf8::*;

verus! {

/// Encoding a concatenation gives the concatenation of the encodings.
pub proof fn lemma_encode_concat(left: Seq<char>, right: Seq<char>)
    ensures
        encode_utf8(left + right) == encode_utf8(left) + encode_utf8(right),
    decreases left.len(),
{
    if left.len() == 0 {
    } else {
        lemma_encode_concat(left.drop_first(), right);
        assert((left + right).drop_first() =~= left.drop_first() + right);
    }
}

/// Two character sequences with the same encoding are the same sequence.
pub proof fn lemma_encode_injective(a: Seq<char>, b: Seq<char>)
    requires
        encode_utf8(a) == encode_utf8(b),
    ensures
        a == b,
{
    encode_utf8_decode_utf8(a);
    encode_utf8_decode_utf8(b);
}

/// Two characters with the same number are the same character.
pub proof fn lemma_same_number_same_char(a: char, b: char)
    requires
        a as u32 == b as u32,
    ensures
        a == b,
{
}

/// The encoding of an ASCII character is the one byte with the character's
/// own number; every byte in the encoding of any other character is `0x80`
/// or above.
pub proof fn lemma_encode_scalar_bytes(c: char)
    ensures
        c as u32 <= 0x7f ==> encode_scalar(c as u32) == seq![c as u8] && c as u8 == c as u32,
        c as u32 > 0x7f ==> forall|i: int|
            0 <= i < encode_scalar(c as u32).len() ==> #[trigger] encode_scalar(c as u32)[i]
                >= 0x80,
{
    let s: u32 = c as u32;
    assert(s <= 0x7f ==> (s & 0x7F) as u8 == s as u8) by (bit_vector);
    assert(0xC0u8 | ((s >> 6) & 0x1F) as u8 >= 0x80) by (bit_vector);
    assert(0xE0u8 | ((s >> 12) & 0x0F) as u8 >= 0x80) by (bit_vector);
    assert(0xF0u8 | ((s >> 18) & 0x7) as u8 >= 0x80) by (bit_vector);
    assert(0x80u8 | (s & 0x3F) as u8 >= 0x80) by (bit_vector);
    assert(0x80u8 | ((s >> 6) & 0x3F) as u8 >= 0x80) by (bit_vector);
    assert(0x80u8 | ((s >> 12) & 0x3F) as u8 >= 0x80) by (bit_vector);
}

/// A single character is encoded as its scalar value is.
pub proof fn lemma_encode_single(c: char)
    ensures
        encode_utf8(seq![c]) == encode_scalar(c as u32),
{
    assert(seq![c].drop_first() =~= Seq::<char>::empty());
    assert(encode_utf8(Seq::<char>::empty()) =~= Seq::<u8>::empty());
}

/// In valid UTF-8 a character starts at each ASCII byte, and the next one
/// starts directly behind it.
pub proof fn lemma_ascii_byte_boundaries(bytes: Seq<u8>, at: int)
    requires
        valid_utf8(bytes),
        0 <= at < bytes.len(),
        bytes[at] <= 0x7f,
    ensures
        is_char_boundary(bytes, at),
        is_char_boundary(bytes.skip(at), 1),
{
    is_char_boundary_iff_not_is_continuation_byte(bytes, at);
    valid_utf8_split(bytes, at);
    let tail = bytes.skip(at);
    assert(tail =~= bytes.subrange(at, bytes.len() as int));
    assert(tail[0] == bytes[at]);
    reveal_with_fuel(is_char_boundary, 2);
}

/// An ASCII byte in the encoding of `text` is the encoding of one character
/// of `text`: the bytes before it encode the characters before that
/// character, and the bytes after it encode the characters after it.
/// Returns the position of that character.
pub proof fn lemma_ascii_byte_is_char(text: Seq<char>, at: int) -> (pos: int)
    requires
        0 <= at < encode_utf8(text).len(),
        encode_utf8(text)[at] <= 0x7f,
    ensures
        0 <= pos < text.len(),
        text[pos] as u32 == encode_utf8(text)[at],
        encode_utf8(text.take(pos)) == encode_utf8(text).take(at),
        encode_utf8(text.skip(pos + 1)) == encode_utf8(text).skip(at + 1),
    decreases text.len(),
{
    let bytes = encode_utf8(text);
    let head = encode_scalar(text[0] as u32);
    let rest = text.drop_first();
    lemma_encode_scalar_bytes(text[0]);
    if at < head.len() {
        0
    } else {
        let inner = lemma_ascii_byte_is_char(rest, at - head.len());
        let pos = inner + 1;
        assert(text.take(pos) =~= seq![text[0]] + rest.take(inner));
        lemma_encode_concat(seq![text[0]], rest.take(inner));
        lemma_encode_single(text[0]);
        assert(text.skip(pos + 1) =~= rest.skip(inner + 1));
        pos
    }
}

/// An ASCII character of `text` is encoded as the one byte with its own
/// number: the bytes before it encode the characters before it, and the
/// bytes after it encode the characters after it. Returns the position of
/// that byte.
pub proof fn lemma_ascii_char_is_byte(text: Seq<char>, pos: int) -> (at: int)
    requires
        0 <= pos < text.len(),
        text[pos] as u32 <= 0x7f,
    ensures
        0 <= at < encode_utf8(text).len(),
        encode_utf8(text)[at] == text[pos] as u32,
        encode_utf8(text.take(pos)) == encode_utf8(text).take(at),
        encode_utf8(text.skip(pos + 1)) == encode_utf8(text).skip(at + 1),
{
    let before = text.take(pos);
    let single = seq![text[pos]];
    let after = text.skip(pos + 1);
    assert(text =~= before + single + after);
    lemma_encode_concat(before, single);
    lemma_encode_concat(before + single, after);
    lemma_encode_scalar_bytes(text[pos]);
    lemma_encode_single(text[pos]);
    let at = encode_utf8(before).len() as int;
    at
}

} // verus!
