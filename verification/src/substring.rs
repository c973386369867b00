//! Whether one text holds another as a contiguous part.
use vstd::prelude::*;
use vstd::utf8::*;
use vstd::string::*;
use crate::encoding::{lemma_encode_concat, lemma_encode_injective};

verus! {

/// `pattern` stands in `text` at position `at`, item for item.
pub open spec fn occurs_at<T>(text: Seq<T>, pattern: Seq<T>, at: int) -> bool {
    &&& 0 <= at
    &&& at + pattern.len() <= text.len()
    &&& text.subrange(at, at + pattern.len()) == pattern
}

/// `pattern` stands somewhere in `text`. The empty pattern stands in every
/// text.
pub open spec fn has_substring<T>(text: Seq<T>, pattern: Seq<T>) -> bool {
    exists|at: int| occurs_at(text, pattern, at)
}

/// The empty pattern stands in every text.
pub proof fn lemma_empty_pattern(text: Seq<char>, pattern: Seq<char>)
    requires
        pattern.len() == 0,
    ensures
        has_substring(text, pattern),
{
    assert(text.subrange(0, 0) =~= pattern);
    assert(occurs_at(text, pattern, 0));
}

/// A valid UTF-8 sequence that begins another one ends where a character of
/// the other ends.
proof fn lemma_prefix_ends_on_boundary(bytes: Seq<u8>, prefix: Seq<u8>)
    requires
        valid_utf8(bytes),
        valid_utf8(prefix),
        occurs_at(bytes, prefix, 0),
    ensures
        is_char_boundary(bytes, prefix.len() as int),
    decreases prefix.len(),
{
    if prefix.len() > 0 {
        assert(prefix[0] == bytes.subrange(0, prefix.len() as int)[0]);
        let width = length_of_first_scalar(prefix);
        let bytes_rest = pop_first_scalar(bytes);
        let prefix_rest = pop_first_scalar(prefix);
        assert(bytes_rest.subrange(0, prefix_rest.len() as int) =~= bytes.subrange(
            0,
            prefix.len() as int,
        ).subrange(width, prefix.len() as int));
        lemma_prefix_ends_on_boundary(bytes_rest, prefix_rest);
    }
}

/// A pattern stands in a text exactly where the pattern's encoding stands in
/// the text's encoding.
pub proof fn lemma_substring_of_encoding(text: Seq<char>, pattern: Seq<char>)
    ensures
        has_substring(text, pattern) <==> has_substring(encode_utf8(text), encode_utf8(pattern)),
{
    let bytes = encode_utf8(text);
    let wanted = encode_utf8(pattern);
    if has_substring(text, pattern) {
        let at = choose|at: int| occurs_at(text, pattern, at);
        let before = text.take(at);
        let after = text.skip(at + pattern.len());
        assert(text =~= before + pattern + after);
        lemma_encode_concat(before, pattern);
        lemma_encode_concat(before + pattern, after);
        let start = encode_utf8(before).len() as int;
        assert(bytes.subrange(start, start + wanted.len()) =~= wanted);
        assert(occurs_at(bytes, wanted, start));
    }
    if has_substring(bytes, wanted) {
        let start = choose|start: int| occurs_at(bytes, wanted, start);
        encode_utf8_valid_utf8(text);
        encode_utf8_valid_utf8(pattern);
        if wanted.len() == 0 {
            lemma_encode_injective(pattern, Seq::empty());
            lemma_empty_pattern(text, pattern);
        } else {
            assert(wanted[0] == bytes.subrange(start, start + wanted.len())[0]);
            is_char_boundary_start_end_of_seq(wanted);
            is_char_boundary_iff_not_is_continuation_byte(wanted, 0);
            is_char_boundary_iff_not_is_continuation_byte(bytes, start);
            valid_utf8_split(bytes, start);
            let head = bytes.subrange(0, start);
            let tail = bytes.subrange(start, bytes.len() as int);
            assert(tail.subrange(0, wanted.len() as int) =~= wanted);
            lemma_prefix_ends_on_boundary(tail, wanted);
            valid_utf8_split(tail, wanted.len() as int);
            let rest = tail.subrange(wanted.len() as int, tail.len() as int);
            let before = decode_utf8(head);
            let after = decode_utf8(rest);
            decode_utf8_encode_utf8(head);
            decode_utf8_encode_utf8(rest);
            lemma_encode_concat(before, pattern);
            lemma_encode_concat(before + pattern, after);
            assert(bytes =~= head + wanted + rest);
            lemma_encode_injective(text, before + pattern + after);
            let at = before.len() as int;
            assert(text.subrange(at, at + pattern.len()) =~= pattern);
            assert(occurs_at(text, pattern, at));
        }
    }
}

/// Compares `pattern` with the part of `text` that starts at `at`.
fn matches_at(text: &[u8], pattern: &[u8], at: usize) -> (same: bool)
    requires
        at + pattern@.len() <= text@.len(),
    ensures
        same == occurs_at(text@, pattern@, at as int),
{
    let end: usize = text.len();
    let mut i: usize = 0;
    while i < pattern.len()
        invariant
            i <= pattern@.len(),
            at + pattern@.len() <= text@.len() == end,
            forall|j: int| 0 <= j < i ==> text@[at + j] == pattern@[j],
        decreases pattern@.len() - i,
    {
        if text[at + i] != pattern[i] {
            return false;
        }
        i += 1;
    }
    assert(text@.subrange(at as int, at + pattern@.len()) =~= pattern@);
    true
}

/// Whether `a` and `b` hold the same characters.
pub fn same_text(a: &str, b: &str) -> (same: bool)
    ensures
        same == (a@ == b@),
{
    let left = a.as_bytes();
    let right = b.as_bytes();
    if left.len() != right.len() {
        return false;
    }
    let same = matches_at(left, right, 0);
    proof {
        assert(left@.subrange(0, left@.len() as int) =~= left@);
        if same {
            lemma_encode_injective(a@, b@);
        }
    }
    same
}

/// Whether `needle` stands somewhere in `haystack`, character for
/// character.
pub fn contains(haystack: &str, needle: &str) -> (found: bool)
    ensures
        found == has_substring(haystack@, needle@),
{
    let text = haystack.as_bytes();
    let pattern = needle.as_bytes();
    proof {
        lemma_substring_of_encoding(haystack@, needle@);
    }
    if pattern.len() > text.len() {
        return false;
    }
    let last: usize = text.len() - pattern.len();
    let mut at: usize = 0;
    loop
        invariant
            at <= last,
            last == text@.len() - pattern@.len(),
            forall|j: int| 0 <= j < at ==> !occurs_at(text@, pattern@, j),
            has_substring(haystack@, needle@) <==> has_substring(text@, pattern@),
        decreases last - at,
    {
        if matches_at(text, pattern, at) {
            return true;
        }
        if at == last {
            return false;
        }
        at += 1;
    }
}

} // verus!
