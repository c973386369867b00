//! The two searches: the lines of a text that hold a query.
//!
//! Both walk the text once, line by line, and keep the lines that pass their
//! test. They differ in the test alone. Neither changes or copies the text:
//! what they return are slices of it.
use vstd::prelude::*;
use crate::fold::{lowercase, to_lowercase};
use crate::lines::{after_first_line, first_line, lines_of, split_first_line};
use crate::selection::{
    keeps_in_order,
    lemma_filter_keeps_all,
    lemma_filter_members,
    lemma_filter_selects,
};
use crate::substring::{contains, has_substring, lemma_empty_pattern};

verus! {

/// The test of the exact search: the line holds `query`, character for
/// character.
pub open spec fn holds(query: Seq<char>) -> spec_fn(Seq<char>) -> bool {
    |line: Seq<char>| has_substring(line, query)
}

/// The test of the search that ignores case: the lowercase form of the line
/// holds the lowercase form of `query`.
pub open spec fn holds_folded(query: Seq<char>) -> spec_fn(Seq<char>) -> bool {
    |line: Seq<char>| has_substring(lowercase(line), lowercase(query))
}

/// The lines of `contents` that hold `query`.
pub open spec fn matching_lines(query: Seq<char>, contents: Seq<char>) -> Seq<Seq<char>> {
    lines_of(contents).filter(holds(query))
}

/// The lines of `contents` that hold `query` when case is ignored.
pub open spec fn matching_lines_folded(query: Seq<char>, contents: Seq<char>) -> Seq<Seq<char>> {
    lines_of(contents).filter(holds_folded(query))
}

/// Filtering the lines of a text that is not empty: the first line is
/// judged, and the lines of the rest follow.
proof fn lemma_filter_first_line(text: Seq<char>, keep: spec_fn(Seq<char>) -> bool)
    requires
        text.len() > 0,
    ensures
        lines_of(text).filter(keep) == if keep(first_line(text)) {
            seq![first_line(text)] + lines_of(after_first_line(text)).filter(keep)
        } else {
            lines_of(after_first_line(text)).filter(keep)
        },
{
    let first = seq![first_line(text)];
    let rest = lines_of(after_first_line(text));
    Seq::filter_distributes_over_add(first, rest, keep);
    reveal_with_fuel(Seq::filter, 2);
    assert(first.filter(keep) =~= if keep(first_line(text)) {
        first
    } else {
        Seq::<Seq<char>>::empty()
    });
}

/// Filtering the lines of the empty text leaves nothing.
proof fn lemma_filter_no_lines(keep: spec_fn(Seq<char>) -> bool)
    ensures
        lines_of(Seq::empty()).filter(keep) == Seq::<Seq<char>>::empty(),
{
    reveal_with_fuel(Seq::filter, 1);
}

/// What the kept lines of a text have of their test, whichever test it is:
/// a line is kept exactly if it is a line of the text and passes the test,
/// the kept lines stand in the order of the text, one for each line that
/// passes, and the empty text has no line to keep.
pub proof fn lemma_kept_lines(contents: Seq<char>, keep: spec_fn(Seq<char>) -> bool)
    ensures
        forall|line: Seq<char>| #[trigger]
            lines_of(contents).filter(keep).contains(line) <==> lines_of(contents).contains(line)
                && keep(line),
        keeps_in_order(lines_of(contents).filter(keep), lines_of(contents), keep),
        contents.len() == 0 ==> lines_of(contents).filter(keep).len() == 0,
{
    lemma_filter_members(lines_of(contents), keep);
    lemma_filter_selects(lines_of(contents), keep);
    if contents.len() == 0 {
        lemma_filter_no_lines(keep);
    }
}

/// The lines of `contents` that hold `query`, character for character.
///
/// A line is returned exactly if it holds `query`; the lines come in the
/// order in which they stand in `contents`, one for each of its lines that
/// passes. The empty query is held by every line, so all lines are
/// returned; the empty text has no lines, so none is. Each line returned is
/// a slice of `contents`.
pub fn search<'a>(query: &str, contents: &'a str) -> (found: Vec<&'a str>)
    ensures
        found.deep_view() == matching_lines(query@, contents@),
        forall|line: Seq<char>| #[trigger]
            found.deep_view().contains(line) <==> lines_of(contents@).contains(line)
                && has_substring(line, query@),
        keeps_in_order(found.deep_view(), lines_of(contents@), holds(query@)),
        query@.len() == 0 ==> found.deep_view() == lines_of(contents@),
        contents@.len() == 0 ==> found.len() == 0,
{
    let mut found: Vec<&'a str> = Vec::new();
    let mut rest: &'a str = contents;
    proof {
        assert(Seq::<Seq<char>>::empty() + matching_lines(query@, rest@) =~= matching_lines(
            query@,
            rest@,
        ));
    }
    while !rest.is_empty()
        invariant
            matching_lines(query@, contents@) == found.deep_view() + matching_lines(
                query@,
                rest@,
            ),
        decreases rest@.len(),
    {
        let ghost before = found.deep_view();
        let (line, tail) = split_first_line(rest);
        proof {
            lemma_filter_first_line(rest@, holds(query@));
        }
        if contains(line, query) {
            found.push(line);
            proof {
                assert(before + (seq![line@] + matching_lines(query@, tail@)) =~= (before
                    + seq![line@]) + matching_lines(query@, tail@));
            }
        }
        rest = tail;
    }
    proof {
        lemma_filter_no_lines(holds(query@));
        lemma_kept_lines(contents@, holds(query@));
        if query@.len() == 0 {
            lemma_empty_query_matches_all(query@, contents@);
        }
    }
    found
}

/// The lines of `contents` that hold `query` when case is ignored.
///
/// A line is returned exactly if its lowercase form holds the lowercase
/// form of `query`; each line is folded by itself, never the text as a
/// whole. The lines come in the order in which they stand in `contents`,
/// one for each of its lines that passes, and in their own spelling. A
/// query whose lowercase form is empty is held by every line, so all lines
/// are returned; the empty text has no lines, so none is. Each line
/// returned is a slice of `contents`.
pub fn search_case_insensitive<'a>(query: &str, contents: &'a str) -> (found: Vec<&'a str>)
    ensures
        found.deep_view() == matching_lines_folded(query@, contents@),
        forall|line: Seq<char>| #[trigger]
            found.deep_view().contains(line) <==> lines_of(contents@).contains(line)
                && has_substring(lowercase(line), lowercase(query@)),
        keeps_in_order(found.deep_view(), lines_of(contents@), holds_folded(query@)),
        lowercase(query@).len() == 0 ==> found.deep_view() == lines_of(contents@),
        contents@.len() == 0 ==> found.len() == 0,
{
    let folded_query = to_lowercase(query);
    let mut found: Vec<&'a str> = Vec::new();
    let mut rest: &'a str = contents;
    proof {
        assert(Seq::<Seq<char>>::empty() + matching_lines_folded(query@, rest@)
            =~= matching_lines_folded(query@, rest@));
    }
    while !rest.is_empty()
        invariant
            folded_query@ == lowercase(query@),
            matching_lines_folded(query@, contents@) == found.deep_view() + matching_lines_folded(
                query@,
                rest@,
            ),
        decreases rest@.len(),
    {
        let ghost before = found.deep_view();
        let (line, tail) = split_first_line(rest);
        proof {
            lemma_filter_first_line(rest@, holds_folded(query@));
        }
        let folded_line = to_lowercase(line);
        if contains(folded_line.as_str(), folded_query.as_str()) {
            found.push(line);
            proof {
                assert(before + (seq![line@] + matching_lines_folded(query@, tail@)) =~= (before
                    + seq![line@]) + matching_lines_folded(query@, tail@));
            }
        }
        rest = tail;
    }
    proof {
        lemma_filter_no_lines(holds_folded(query@));
        lemma_kept_lines(contents@, holds_folded(query@));
        if lowercase(query@).len() == 0 {
            lemma_empty_folded_query_matches_all(query@, contents@);
        }
    }
    found
}

/// The empty query is held by every line: the exact search for it returns
/// all the lines of the text.
pub proof fn lemma_empty_query_matches_all(query: Seq<char>, contents: Seq<char>)
    requires
        query.len() == 0,
    ensures
        matching_lines(query, contents) == lines_of(contents),
{
    let lines = lines_of(contents);
    assert forall|k: int| 0 <= k < lines.len() implies holds(query)(#[trigger] lines[k]) by {
        lemma_empty_pattern(lines[k], query);
    }
    lemma_filter_keeps_all(lines, holds(query));
}

/// A query whose lowercase form is empty is held by every line when case
/// is ignored: the search for it returns all the lines of the text.
pub proof fn lemma_empty_folded_query_matches_all(query: Seq<char>, contents: Seq<char>)
    requires
        lowercase(query).len() == 0,
    ensures
        matching_lines_folded(query, contents) == lines_of(contents),
{
    let lines = lines_of(contents);
    assert forall|k: int| 0 <= k < lines.len() implies holds_folded(query)(
        #[trigger] lines[k],
    ) by {
        lemma_empty_pattern(lowercase(lines[k]), lowercase(query));
    }
    lemma_filter_keeps_all(lines, holds_folded(query));
}

/// Searching twice gives the same lines: what `search` returns is fixed by
/// the characters of the query and of the text. `first` and `second` stand
/// for what two calls returned.
pub proof fn lemma_search_repeats(
    query: &str,
    contents: &str,
    first: Vec<&str>,
    second: Vec<&str>,
)
    requires
        first.deep_view() == matching_lines(query@, contents@),
        second.deep_view() == matching_lines(query@, contents@),
    ensures
        first.len() == second.len(),
        forall|i: int| 0 <= i < first.len() ==> first[i]@ == second[i]@,
{
    lemma_same_lines(first, second);
}

/// Searching twice without regard to case gives the same lines: what
/// `search_case_insensitive` returns is fixed by the characters of the
/// query and of the text. `first` and `second` stand for what two calls
/// returned.
pub proof fn lemma_search_case_insensitive_repeats(
    query: &str,
    contents: &str,
    first: Vec<&str>,
    second: Vec<&str>,
)
    requires
        first.deep_view() == matching_lines_folded(query@, contents@),
        second.deep_view() == matching_lines_folded(query@, contents@),
    ensures
        first.len() == second.len(),
        forall|i: int| 0 <= i < first.len() ==> first[i]@ == second[i]@,
{
    lemma_same_lines(first, second);
}

/// Two lists of lines with the same characters are as long as each other
/// and agree line by line.
proof fn lemma_same_lines(first: Vec<&str>, second: Vec<&str>)
    requires
        first.deep_view() == second.deep_view(),
    ensures
        first.len() == second.len(),
        forall|i: int| 0 <= i < first.len() ==> first[i]@ == second[i]@,
{
    assert(first.deep_view().len() == first.len());
    assert forall|i: int| 0 <= i < first.len() implies first[i]@ == second[i]@ by {
        assert(second.deep_view()[i] == second[i]@);
    }
}

} // verus!
