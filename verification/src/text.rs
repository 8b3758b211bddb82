//! The mathematical model of text that the contracts of this crate speak of.
//!
//! A text is a sequence of characters. This module says what it means for one
//! sequence to occur in another, how a text falls into lines, and which lines
//! a query selects. Nothing here is executable.

use vstd::prelude::*;

verus! {

/// The character that ends a line.
pub open spec fn line_feed() -> char {
    '\n'
}

/// The character that may precede a line feed as part of the line ending.
pub open spec fn carriage_return() -> char {
    '\r'
}

/// `needle` stands in `haystack` at offset `at`, element for element.
pub open spec fn occurs_at<T>(needle: Seq<T>, haystack: Seq<T>, at: int) -> bool {
    &&& 0 <= at
    &&& at + needle.len() <= haystack.len()
    &&& haystack.subrange(at, at + needle.len()) == needle
}

/// `needle` is a contiguous part of `haystack`.
pub open spec fn occurs_in<T>(needle: Seq<T>, haystack: Seq<T>) -> bool {
    exists|at: int| occurs_at(needle, haystack, at)
}

/// The number of characters that stand before the first line feed of `text`,
/// or the length of `text` if it holds no line feed.
pub open spec fn line_length(text: Seq<char>) -> nat
    decreases text.len(),
{
    if text.len() == 0 || text.first() == line_feed() {
        0
    } else {
        1 + line_length(text.drop_first())
    }
}

/// `line` without the carriage return at its end, if it has one.
pub open spec fn without_carriage_return(line: Seq<char>) -> Seq<char> {
    if line.len() > 0 && line.last() == carriage_return() {
        line.drop_last()
    } else {
        line
    }
}

/// The first line of `text`, without its line ending.
///
/// A line ends with a line feed, or with a carriage return directly followed
/// by a line feed. Text that no line feed closes is a line as it stands.
pub open spec fn first_line(text: Seq<char>) -> Seq<char> {
    let n = line_length(text) as int;
    if n < text.len() {
        without_carriage_return(text.take(n))
    } else {
        text
    }
}

/// What is left of `text` once its first line and that line's ending are
/// taken away.
pub open spec fn after_first_line(text: Seq<char>) -> Seq<char> {
    let n = line_length(text) as int;
    if n < text.len() {
        text.skip(n + 1)
    } else {
        Seq::empty()
    }
}

/// The lines of `text`, in order.
///
/// The empty text has no lines, and a line ending at the very end of the text
/// opens no further line.
pub open spec fn lines(text: Seq<char>) -> Seq<Seq<char>>
    decreases text.len(),
{
    if text.len() == 0 {
        Seq::empty()
    } else {
        seq![first_line(text)] + lines(after_first_line(text))
    }
}

/// The lines of `contents` in which `query` occurs, in their original order.
pub open spec fn matching_lines(query: Seq<char>, contents: Seq<char>) -> Seq<Seq<char>> {
    lines(contents).filter(|line: Seq<char>| occurs_in(query, line))
}

/// `line` stands in `text` at offset `at` as a whole line: it begins where
/// the text or a line begins, and its end is the end of the text or a line
/// ending.
pub open spec fn is_line_at(line: Seq<char>, text: Seq<char>, at: int) -> bool {
    let end = at + line.len();
    &&& occurs_at(line, text, at)
    &&& (at == 0 || text[at - 1] == line_feed())
    &&& {
        ||| end == text.len()
        ||| text[end] == line_feed()
        ||| (end + 1 < text.len() && text[end] == carriage_return() && text[end + 1]
            == line_feed())
    }
}

/// `line_length` yields the offset of the first line feed: no line feed stands
/// before it, and one stands at it unless it is the end of the text.
pub proof fn lemma_line_length(text: Seq<char>)
    ensures
        line_length(text) <= text.len(),
        forall|i: int| 0 <= i < line_length(text) ==> text[i] != line_feed(),
        line_length(text) < text.len() ==> text[line_length(text) as int] == line_feed(),
    decreases text.len(),
{
    if text.len() == 0 || text.first() == line_feed() {
    } else {
        let rest = text.drop_first();
        lemma_line_length(rest);
        assert forall|i: int| 0 <= i < line_length(text) implies text[i] != line_feed() by {
            if i > 0 {
                assert(text[i] == rest[i - 1]);
            }
        }
        if line_length(text) < text.len() {
            assert(text[line_length(text) as int] == rest[line_length(rest) as int]);
        }
    }
}

/// An offset that no line feed precedes, and that holds a line feed or is the
/// end of the text, is the `line_length` of the text.
pub proof fn lemma_line_length_is(text: Seq<char>, n: int)
    requires
        0 <= n <= text.len(),
        forall|i: int| 0 <= i < n ==> text[i] != line_feed(),
        n < text.len() ==> text[n] == line_feed(),
    ensures
        line_length(text) == n,
    decreases n,
{
    if n == 0 {
    } else {
        let rest = text.drop_first();
        assert(text.first() != line_feed());
        assert forall|i: int| 0 <= i < n - 1 implies rest[i] != line_feed() by {
            assert(rest[i] == text[i + 1]);
        }
        lemma_line_length_is(rest, n - 1);
    }
}

/// Taking the first line away leaves a shorter text.
pub proof fn lemma_after_first_line_is_shorter(text: Seq<char>)
    requires
        text.len() > 0,
    ensures
        after_first_line(text).len() < text.len(),
{
    lemma_line_length(text);
}

/// A text has at most as many lines as characters.
pub proof fn lemma_lines_len(text: Seq<char>)
    ensures
        lines(text).len() <= text.len(),
    decreases text.len(),
{
    if text.len() > 0 {
        lemma_after_first_line_is_shorter(text);
        lemma_lines_len(after_first_line(text));
    }
}

/// Every line of a text is a contiguous part of that text, and a whole line
/// of it: line endings, or the ends of the text, stand on both its sides.
pub proof fn lemma_lines_are_parts(text: Seq<char>, i: int)
    requires
        0 <= i < lines(text).len(),
    ensures
        exists|at: int| is_line_at(lines(text)[i], text, at),
        occurs_in(lines(text)[i], text),
    decreases text.len(),
{
    lemma_line_length(text);
    let n = line_length(text) as int;
    if i == 0 {
        let line = first_line(text);
        assert(text.subrange(0, line.len() as int) =~= line);
        assert(is_line_at(line, text, 0));
    } else {
        let rest = after_first_line(text);
        let line = lines(rest)[i - 1];
        assert(lines(text)[i] == line);
        lemma_lines_are_parts(rest, i - 1);
        let at = choose|at: int| is_line_at(line, rest, at);
        assert(text.subrange(n + 1 + at, n + 1 + at + line.len()) =~= rest.subrange(
            at,
            at + line.len(),
        ));
        if at > 0 {
            assert(rest[at - 1] == text[n + at]);
        }
        let end = at + line.len();
        if end < rest.len() {
            assert(rest[end] == text[n + 1 + end]);
            if end + 1 < rest.len() {
                assert(rest[end + 1] == text[n + 2 + end]);
            }
        }
        assert(is_line_at(line, text, n + 1 + at));
    }
    let at = choose|at: int| is_line_at(lines(text)[i], text, at);
    assert(occurs_at(lines(text)[i], text, at));
}

/// No line holds a line feed.
pub proof fn lemma_lines_hold_no_line_feed(text: Seq<char>, i: int, j: int)
    requires
        0 <= i < lines(text).len(),
        0 <= j < lines(text)[i].len(),
    ensures
        lines(text)[i][j] != line_feed(),
    decreases text.len(),
{
    lemma_line_length(text);
    if i == 0 {
        assert(first_line(text)[j] == text[j]);
    } else {
        let rest = after_first_line(text);
        assert(lines(text)[i] == lines(rest)[i - 1]);
        lemma_lines_hold_no_line_feed(rest, i - 1, j);
    }
}

/// What a filter keeps, it keeps in the order in which it found it.
proof fn lemma_filter_keeps_order<A>(s: Seq<A>, pred: spec_fn(A) -> bool, i: int, j: int)
    requires
        0 <= i < j < s.filter(pred).len(),
    ensures
        exists|a: int, b: int|
            #![trigger s[a], s[b]]
            0 <= a < b < s.len() && s[a] == s.filter(pred)[i] && s[b] == s.filter(pred)[j],
    decreases s.len(),
{
    reveal(Seq::filter);
    if s.len() > 0 {
        let init = s.drop_last();
        let kept = init.filter(pred);
        if j < kept.len() {
            lemma_filter_keeps_order(init, pred, i, j);
            let (a, b) = choose|a: int, b: int|
                #![trigger init[a], init[b]]
                0 <= a < b < init.len() && init[a] == kept[i] && init[b] == kept[j];
            assert(s[a] == init[a] && s[b] == init[b]);
        } else {
            assert(kept.contains(kept[i]));
            init.lemma_filter_contains_rev(pred, kept[i]);
            let a = choose|a: int| 0 <= a < init.len() && init[a] == kept[i];
            let b = s.len() - 1;
            assert(s[a] == init[a] && s[b] == s.last());
        }
    }
}

/// The selection follows the text line by line: the empty text yields
/// nothing, and any other text yields its first line, if the query occurs in
/// it, and then what the rest of the text yields.
pub proof fn lemma_matching_lines_by_first_line(query: Seq<char>, text: Seq<char>)
    ensures
        text.len() == 0 ==> matching_lines(query, text) == Seq::<Seq<char>>::empty(),
        text.len() > 0 && occurs_in(query, first_line(text)) ==> matching_lines(query, text)
            == seq![first_line(text)] + matching_lines(query, after_first_line(text)),
        text.len() > 0 && !occurs_in(query, first_line(text)) ==> matching_lines(query, text)
            == matching_lines(query, after_first_line(text)),
{
    let selects = |line: Seq<char>| occurs_in(query, line);
    reveal_with_fuel(Seq::filter, 2);
    if text.len() > 0 {
        let first = seq![first_line(text)];
        let others = lines(after_first_line(text));
        Seq::filter_distributes_over_add(first, others, selects);
        assert(first.drop_last() =~= Seq::<Seq<char>>::empty());
        if occurs_in(query, first_line(text)) {
            assert(first.filter(selects) =~= first);
        } else {
            assert(first.filter(selects) + others.filter(selects) =~= others.filter(selects));
        }
    }
}

/// Every line that a query selects is a line of the contents and holds the
/// query, character for character.
pub proof fn lemma_matching_lines_hold_query(query: Seq<char>, contents: Seq<char>, i: int)
    requires
        0 <= i < matching_lines(query, contents).len(),
    ensures
        lines(contents).contains(matching_lines(query, contents)[i]),
        occurs_in(query, matching_lines(query, contents)[i]),
{
    let selects = |line: Seq<char>| occurs_in(query, line);
    let found = lines(contents).filter(selects);
    lines(contents).lemma_filter_pred(selects, i);
    assert(found.contains(found[i]));
    lines(contents).lemma_filter_contains_rev(selects, found[i]);
}

/// Every line of the contents that holds the query is selected.
pub proof fn lemma_matching_lines_miss_none(query: Seq<char>, contents: Seq<char>, i: int)
    requires
        0 <= i < lines(contents).len(),
        occurs_in(query, lines(contents)[i]),
    ensures
        matching_lines(query, contents).contains(lines(contents)[i]),
{
    let selects = |line: Seq<char>| occurs_in(query, line);
    lines(contents).lemma_filter_contains(selects, i);
}

/// The selected lines are no more than the lines of the contents, which are
/// no more than its characters.
pub proof fn lemma_matching_lines_len(query: Seq<char>, contents: Seq<char>)
    ensures
        matching_lines(query, contents).len() <= lines(contents).len() <= contents.len(),
{
    let selects = |line: Seq<char>| occurs_in(query, line);
    lines(contents).lemma_filter_len(selects);
    lemma_lines_len(contents);
}

/// The selected lines stand in the order of the contents: of two of them,
/// the earlier one is an earlier line of the contents.
pub proof fn lemma_matching_lines_keep_order(
    query: Seq<char>,
    contents: Seq<char>,
    i: int,
    j: int,
)
    requires
        0 <= i < j < matching_lines(query, contents).len(),
    ensures
        exists|a: int, b: int|
            #![trigger lines(contents)[a], lines(contents)[b]]
            0 <= a < b < lines(contents).len() && lines(contents)[a] == matching_lines(
                query,
                contents,
            )[i] && lines(contents)[b] == matching_lines(query, contents)[j],
{
    let selects = |line: Seq<char>| occurs_in(query, line);
    lemma_filter_keeps_order(lines(contents), selects, i, j);
}

/// The match is exact. A query one of whose characters stands nowhere in the
/// contents selects no line: no character stands for another, so a letter in
/// one case never matches the same letter in the other.
pub proof fn lemma_query_characters_must_occur(query: Seq<char>, contents: Seq<char>, k: int)
    requires
        0 <= k < query.len(),
        !contents.contains(query[k]),
    ensures
        matching_lines(query, contents) == Seq::<Seq<char>>::empty(),
{
    let found = matching_lines(query, contents);
    if found.len() > 0 {
        let line = found[0];
        lemma_matching_lines_hold_query(query, contents, 0);
        let i = choose|i: int| 0 <= i < lines(contents).len() && lines(contents)[i] == line;
        lemma_lines_are_parts(contents, i);
        let at = choose|at: int| occurs_at(query, line, at);
        let offset = choose|offset: int| occurs_at(line, contents, offset);
        assert(line.subrange(at, at + query.len())[k] == query[k]);
        assert(contents.subrange(offset, offset + line.len())[at + k] == line[at + k]);
        assert(contents[offset + at + k] == query[k]);
    }
    assert(found =~= Seq::<Seq<char>>::empty());
}

} // verus!
