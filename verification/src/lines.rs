//! The lines of a text.
//!
//! A text is cut at each line feed. The line feed belongs to no line, and a
//! carriage return that stands directly before it is dropped with it. A text
//! that ends in a line feed has the same lines as the text without that last
//! line feed; a carriage return that no line feed follows stays in its line.
use vstd::prelude::*;
use vstd::utf8::*;
use vstd::string::*;
use crate::encoding::{
    lemma_ascii_byte_boundaries,
    lemma_ascii_byte_is_char,
    lemma_ascii_char_is_byte,
    lemma_encode_injective,
    lemma_same_number_same_char,
};

verus! {

/// The byte that encodes a line feed.
pub const LINE_FEED: u8 = 0x0a;

/// The byte that encodes a carriage return.
pub const CARRIAGE_RETURN: u8 = 0x0d;

/// The position of the first line feed in `text`, or the length of `text`
/// where it holds none.
pub open spec fn first_newline(text: Seq<char>) -> nat
    decreases text.len(),
{
    if text.len() == 0 || text[0] == '\n' {
        0
    } else {
        1 + first_newline(text.drop_first())
    }
}

/// The first line of `text`: what stands before the first line feed, less a
/// carriage return at its end; the whole of `text` where it holds no line
/// feed.
pub open spec fn first_line(text: Seq<char>) -> Seq<char> {
    let end = first_newline(text) as int;
    if 0 < end < text.len() && text[end - 1] == '\r' {
        text.take(end - 1)
    } else {
        text.take(end)
    }
}

/// What follows the first line feed of `text`; empty where it holds none.
pub open spec fn after_first_line(text: Seq<char>) -> Seq<char> {
    let end = first_newline(text) as int;
    if end < text.len() {
        text.skip(end + 1)
    } else {
        Seq::empty()
    }
}

/// The lines of `text`, in the order in which they stand in it.
pub open spec fn lines_of(text: Seq<char>) -> Seq<Seq<char>>
    decreases text.len(),
{
    if text.len() == 0 {
        Seq::empty()
    } else {
        seq![first_line(text)] + lines_of(after_first_line(text))
    }
}

/// What `first_newline` returns lies within the text, no line feed stands
/// before it, and one stands at it unless it is the end of the text.
pub proof fn lemma_first_newline(text: Seq<char>)
    ensures
        first_newline(text) <= text.len(),
        forall|i: int| 0 <= i < first_newline(text) ==> text[i] != '\n',
        first_newline(text) < text.len() ==> text[first_newline(text) as int] == '\n',
    decreases text.len(),
{
    if text.len() == 0 || text[0] == '\n' {
    } else {
        let rest = text.drop_first();
        lemma_first_newline(rest);
        assert forall|i: int| 0 <= i < first_newline(text) implies text[i] != '\n' by {
            if i > 0 {
                assert(text[i] == rest[i - 1]);
            }
        }
    }
}

/// Only one position is as `lemma_first_newline` says.
pub proof fn lemma_first_newline_is(text: Seq<char>, end: int)
    requires
        0 <= end <= text.len(),
        forall|i: int| 0 <= i < end ==> text[i] != '\n',
        end < text.len() ==> text[end] == '\n',
    ensures
        end == first_newline(text),
{
    lemma_first_newline(text);
}

/// The text that lines make up when a line feed closes each of them.
pub open spec fn closed_lines(lines: Seq<Seq<char>>) -> Seq<char>
    decreases lines.len(),
{
    if lines.len() == 0 {
        Seq::empty()
    } else {
        lines[0] + seq!['\n'] + closed_lines(lines.drop_first())
    }
}

/// No line holds a line feed.
pub proof fn lemma_lines_hold_no_line_feed(text: Seq<char>)
    ensures
        forall|k: int, i: int|
            0 <= k < lines_of(text).len() && 0 <= i < lines_of(text)[k].len() ==> lines_of(
                text,
            )[k][i] != '\n',
    decreases text.len(),
{
    if text.len() > 0 {
        lemma_first_newline(text);
        lemma_lines_hold_no_line_feed(after_first_line(text));
        // The first line is cut out of what stands before the first line
        // feed; the other lines are those of the rest.
        let others = lines_of(after_first_line(text));
        assert forall|k: int, i: int|
            0 <= k < lines_of(text).len() && 0 <= i < lines_of(text)[k].len() implies lines_of(
            text,
        )[k][i] != '\n' by {
            if k > 0 {
                assert(lines_of(text)[k] == others[k - 1]);
            }
        }
    }
}

/// A carriage return stands at `at` in `text`, and a line feed directly
/// behind it.
pub open spec fn line_ends_in_pair(text: Seq<char>, at: int) -> bool {
    &&& 0 <= at
    &&& at + 1 < text.len()
    &&& text[at] == '\r'
    &&& text[at + 1] == '\n'
}

/// The lines of a text make up the text: where no carriage return stands
/// directly before a line feed, the lines, each closed by a line feed, are
/// the text again, with a line feed added at its end if it did not end in
/// one.
pub proof fn lemma_lines_make_up_text(text: Seq<char>)
    requires
        forall|at: int| !line_ends_in_pair(text, at),
    ensures
        closed_lines(lines_of(text)) == if text.len() == 0 || text.last() == '\n' {
            text
        } else {
            text + seq!['\n']
        },
    decreases text.len(),
{
    if text.len() > 0 {
        lemma_first_newline(text);
        let end = first_newline(text) as int;
        let rest = after_first_line(text);
        let lines = lines_of(text);
        assert(lines.drop_first() =~= lines_of(rest));
        assert(lines[0] == text.take(end)) by {
            assert(!line_ends_in_pair(text, end - 1));
        }
        if end < text.len() {
            assert forall|at: int| !line_ends_in_pair(rest, at) by {
                assert(!line_ends_in_pair(text, end + 1 + at));
            }
            lemma_lines_make_up_text(rest);
            assert(text =~= text.take(end) + seq!['\n'] + rest);
        } else {
            assert(closed_lines(lines_of(rest)) =~= Seq::<char>::empty());
        }
    }
}

/// No character of `text` is a line feed where no byte of its encoding is.
proof fn lemma_no_line_feed(text: Seq<char>)
    requires
        forall|j: int| 0 <= j < encode_utf8(text).len() ==> encode_utf8(text)[j] != LINE_FEED,
    ensures
        forall|i: int| 0 <= i < text.len() ==> text[i] != '\n',
{
    assert forall|i: int| 0 <= i < text.len() implies text[i] != '\n' by {
        if text[i] == '\n' {
            lemma_ascii_char_is_byte(text, i);
        }
    }
}

/// Cuts the first line off `text`: returns that line and what follows its
/// line feed. Both are slices of `text`.
pub fn split_first_line<'a>(text: &'a str) -> (parts: (&'a str, &'a str))
    ensures
        parts.0@ == first_line(text@),
        parts.1@ == after_first_line(text@),
{
    let bytes = text.as_bytes();
    let mut end: usize = 0;
    while end < bytes.len() && bytes[end] != LINE_FEED
        invariant
            end <= bytes.len(),
            forall|j: int| 0 <= j < end ==> bytes@[j] != LINE_FEED,
        decreases bytes.len() - end,
    {
        end += 1;
    }
    proof {
        encode_utf8_valid_utf8(text@);
        if end < bytes.len() {
            lemma_ascii_byte_boundaries(bytes@, end as int);
        } else {
            is_char_boundary_start_end_of_seq(bytes@);
        }
    }
    let (head, tail) = text.split_at(end);
    if end == bytes.len() {
        proof {
            // No line feed: the whole text is its first line.
            assert(head.spec_bytes() =~= text.spec_bytes());
            lemma_encode_injective(head@, text@);
            lemma_encode_injective(tail@, Seq::empty());
            lemma_no_line_feed(text@);
            lemma_first_newline_is(text@, text@.len() as int);
        }
        return (head, tail);
    }
    proof {
        assert(tail.spec_bytes() =~= bytes@.skip(end as int));
    }
    let (_, rest) = tail.split_at(1);
    let ghost pos: int = lemma_ascii_byte_is_char(text@, end as int);
    proof {
        // The line feed at byte `end` is the character at `pos`, and the
        // first one: `head` holds what stands before it, `rest` what
        // follows.
        lemma_same_number_same_char(text@[pos], '\n');
        assert(head.spec_bytes() =~= bytes@.take(end as int));
        lemma_encode_injective(head@, text@.take(pos));
        assert(rest.spec_bytes() =~= bytes@.skip(end + 1));
        lemma_encode_injective(rest@, text@.skip(pos + 1));
        lemma_no_line_feed(head@);
        assert forall|i: int| 0 <= i < pos implies text@[i] != '\n' by {
            assert(text@[i] == head@[i]);
        }
        lemma_first_newline_is(text@, pos);
    }
    if end > 0 && bytes[end - 1] == CARRIAGE_RETURN {
        proof {
            encode_utf8_valid_utf8(head@);
            lemma_ascii_byte_boundaries(head.spec_bytes(), end - 1);
        }
        let line = head.split_at(end - 1).0;
        proof {
            // The last byte of `head` is its last character.
            let last = lemma_ascii_byte_is_char(head@, end - 1);
            assert(head.spec_bytes().skip(end as int) =~= Seq::<u8>::empty());
            lemma_encode_injective(head@.skip(last + 1), Seq::empty());
            lemma_encode_injective(line@, head@.take(last));
            lemma_same_number_same_char(head@[last], '\r');
        }
        (line, rest)
    } else {
        proof {
            // A carriage return at the end of `head` would be its last byte.
            if pos > 0 && text@[pos - 1] == '\r' {
                lemma_ascii_char_is_byte(head@, pos - 1);
            }
        }
        (head, rest)
    }
}

} // verus!
