//! Searching a text for the lines that hold a query.

use crate::encoding::{
    lemma_absent_byte_absent_char, lemma_ascii_char_in_encoding, lemma_cut_at_ascii_byte,
    lemma_occurs_in_encoding, lemma_view_is_decoded,
};
use crate::text::{
    after_first_line, carriage_return, first_line, lemma_after_first_line_is_shorter,
    lemma_line_length_is, lemma_matching_lines_by_first_line, line_feed, matching_lines,
    occurs_at, occurs_in, without_carriage_return,
};
use vstd::prelude::*;
use vstd::string::*;
use vstd::utf8::*;

verus! {

/// The byte that encodes a line feed.
const LINE_FEED: u8 = 0x0A;

/// The byte that encodes a carriage return.
const CARRIAGE_RETURN: u8 = 0x0D;

/// Cuts `text` around the byte at offset `at`, which is to be a byte below
/// 128, and so a character by itself: returns the text before that character
/// and the text after it.
fn split_around<'a>(text: &'a str, at: usize) -> (parts: (&'a str, &'a str))
    requires
        at < text.spec_bytes().len(),
        text.spec_bytes()[at as int] < 0x80,
    ensures
        parts.0.spec_bytes() == text.spec_bytes().take(at as int),
        parts.1.spec_bytes() == text.spec_bytes().skip(at + 1),
        text@ == parts.0@ + seq![text.spec_bytes()[at as int] as char] + parts.1@,
{
    proof {
        lemma_view_is_decoded(text);
        lemma_cut_at_ascii_byte(text.spec_bytes(), at as int);
    }
    let (before, tail) = text.split_at(at);
    proof {
        lemma_view_is_decoded(tail);
        lemma_cut_at_ascii_byte(tail.spec_bytes(), 0);
    }
    let (_, after) = tail.split_at(1);
    proof {
        lemma_view_is_decoded(before);
        lemma_view_is_decoded(after);
        assert(after.spec_bytes() =~= text.spec_bytes().skip(at + 1));
    }
    (before, after)
}

/// Takes the carriage return off the end of `line`, if it has one.
fn strip_carriage_return<'a>(line: &'a str) -> (stripped: &'a str)
    ensures
        stripped@ == without_carriage_return(line@),
{
    let bytes = line.as_bytes();
    let len = bytes.len();
    if len > 0 && bytes[len - 1] == CARRIAGE_RETURN {
        let (stripped, nothing) = split_around(line, len - 1);
        proof {
            lemma_view_is_decoded(nothing);
            assert(line@.drop_last() =~= stripped@);
        }
        stripped
    } else {
        proof {
            if line@.len() > 0 && line@.last() == carriage_return() {
                let last = line@.len() - 1;
                lemma_ascii_char_in_encoding(line@, last);
                assert(line@.skip(last + 1) =~= Seq::<char>::empty());
                let at = encode_utf8(line@.take(last)).len() as int;
                assert(bytes@.skip(at + 1).len() == 0);
            }
        }
        line
    }
}

/// Cuts the first line off `text`: returns that line, without its line
/// ending, and the text that follows the line ending. Of the empty text both
/// are empty.
pub fn split_first_line<'a>(text: &'a str) -> (parts: (&'a str, &'a str))
    ensures
        parts.0@ == first_line(text@),
        parts.1@ == after_first_line(text@),
{
    let bytes = text.as_bytes();
    let mut end: usize = 0;
    while end < bytes.len() && bytes[end] != LINE_FEED
        invariant
            end <= bytes.len(),
            forall|i: int| 0 <= i < end ==> bytes[i] != LINE_FEED,
        decreases bytes.len() - end,
    {
        end += 1;
    }
    if end == bytes.len() {
        proof {
            reveal_strlit("");
            lemma_absent_byte_absent_char(text@, line_feed());
            lemma_line_length_is(text@, text@.len() as int);
        }
        return (text, "");
    }
    let (head, rest) = split_around(text, end);
    proof {
        let n = head@.len() as int;
        lemma_absent_byte_absent_char(head@, line_feed());
        lemma_line_length_is(text@, n);
        assert(text@.take(n) =~= head@);
        assert(text@.skip(n + 1) =~= rest@);
    }
    (strip_carriage_return(head), rest)
}

/// Whether `needle` stands in `haystack` at byte offset `at`.
fn matches_at(haystack: &[u8], needle: &[u8], at: usize) -> (found: bool)
    requires
        at + needle.len() <= haystack.len(),
    ensures
        found == occurs_at(needle@, haystack@, at as int),
{
    let mut k: usize = 0;
    while k < needle.len()
        invariant
            k <= needle.len(),
            at + needle.len() <= haystack.len(),
            forall|i: int| 0 <= i < k ==> haystack[at + i] == needle[i],
        decreases needle.len() - k,
    {
        if haystack[at + k] != needle[k] {
            assert(haystack@.subrange(at as int, at + needle.len())[k as int] != needle[k as int]);
            return false;
        }
        k += 1;
    }
    assert(haystack@.subrange(at as int, at + needle.len()) =~= needle@);
    true
}

/// Whether `needle` is a contiguous part of `haystack`, character for
/// character. The empty needle is part of every text.
pub fn contains(haystack: &str, needle: &str) -> (found: bool)
    ensures
        found == occurs_in(needle@, haystack@),
{
    let bytes = haystack.as_bytes();
    let pattern = needle.as_bytes();
    proof {
        lemma_occurs_in_encoding(needle@, haystack@);
    }
    if pattern.len() > bytes.len() {
        return false;
    }
    let last = bytes.len() - pattern.len();
    let mut at: usize = 0;
    loop
        invariant
            at <= last,
            last == bytes.len() - pattern.len(),
            forall|i: int| 0 <= i < at ==> !occurs_at(pattern@, bytes@, i),
            occurs_in(pattern@, bytes@) <==> occurs_in(needle@, haystack@),
        decreases last - at,
    {
        if matches_at(bytes, pattern, at) {
            return true;
        }
        if at == last {
            return false;
        }
        at += 1;
    }
}

/// Returns the lines of `contents` in which `query` occurs, in the order in
/// which they stand in `contents`, each without its line ending.
///
/// The match is exact: no letter stands for another, whatever its case.
pub fn search<'a>(query: &str, contents: &'a str) -> (found: Vec<&'a str>)
    ensures
        found.deep_view() == matching_lines(query@, contents@),
{
    let mut found: Vec<&'a str> = Vec::new();
    let mut rest = contents;
    assert(found.deep_view() + matching_lines(query@, rest@) =~= matching_lines(query@, contents@));
    while !rest.is_empty()
        invariant
            found.deep_view() + matching_lines(query@, rest@) == matching_lines(
                query@,
                contents@,
            ),
        decreases rest@.len(),
    {
        let (line, after) = split_first_line(rest);
        let ghost before = found.deep_view();
        proof {
            lemma_matching_lines_by_first_line(query@, rest@);
            lemma_after_first_line_is_shorter(rest@);
        }
        if contains(line, query) {
            found.push(line);
            assert(found.deep_view() =~= before + seq![line@]);
            assert(before + (seq![line@] + matching_lines(query@, after@)) =~= before + seq![
                line@,
            ] + matching_lines(query@, after@));
        }
        rest = after;
    }
    proof {
        lemma_matching_lines_by_first_line(query@, rest@);
        assert(found.deep_view() + Seq::<Seq<char>>::empty() =~= found.deep_view());
    }
    found
}

} // verus!
