//! How a text relates to the bytes that store it.
//!
//! A `str` keeps its characters in UTF-8. The executable code of this crate
//! scans those bytes, while its contracts speak of characters. The lemmas of
//! this module carry facts from one side to the other.

use crate::text::{occurs_at, occurs_in};
use vstd::prelude::*;
use vstd::string::*;
use vstd::utf8::*;

verus! {

/// The characters of a `str` are what its bytes decode to.
pub proof fn lemma_view_is_decoded(s: &str)
    ensures
        valid_utf8(s.spec_bytes()),
        s@ == decode_utf8(s.spec_bytes()),
{
    encode_utf8_valid_utf8(s@);
    encode_utf8_decode_utf8(s@);
}

/// Encoding a concatenation gives the concatenation of the encodings.
pub proof fn lemma_encode_concat(a: Seq<char>, b: Seq<char>)
    ensures
        encode_utf8(a + b) == encode_utf8(a) + encode_utf8(b),
    decreases a.len(),
{
    if a.len() == 0 {
        assert(a + b =~= b);
        assert(encode_utf8(a) + encode_utf8(b) =~= encode_utf8(b));
    } else {
        lemma_encode_concat(a.drop_first(), b);
        assert((a + b).drop_first() =~= a.drop_first() + b);
        assert(encode_utf8(a + b) =~= encode_utf8(a) + encode_utf8(b));
    }
}

/// Decoding a concatenation of two valid encodings gives the concatenation
/// of what each decodes to.
pub proof fn lemma_decode_concat(a: Seq<u8>, b: Seq<u8>)
    requires
        valid_utf8(a),
        valid_utf8(b),
    ensures
        decode_utf8(a + b) == decode_utf8(a) + decode_utf8(b),
{
    decode_utf8_encode_utf8(a);
    decode_utf8_encode_utf8(b);
    lemma_encode_concat(decode_utf8(a), decode_utf8(b));
    encode_utf8_decode_utf8(decode_utf8(a) + decode_utf8(b));
}

/// A character below 128 is encoded as the one byte of the same value.
pub proof fn lemma_encode_ascii(c: char)
    requires
        (c as u32) < 0x80,
    ensures
        encode_utf8(seq![c]) == seq![c as u8],
{
    let v = c as u32;
    assert((v & 0x7F) as u8 == v as u8) by (bit_vector)
        requires
            v < 0x80,
    ;
    reveal_with_fuel(encode_utf8, 2);
    assert(seq![c].drop_first() =~= Seq::<char>::empty());
    assert(encode_utf8(seq![c]) =~= seq![c as u8]);
}

/// A byte below 128 is by itself a valid encoding, that of the character of
/// the same value.
pub proof fn lemma_decode_ascii(b: u8)
    requires
        b < 0x80,
    ensures
        valid_utf8(seq![b]),
        decode_utf8(seq![b]) == seq![b as char],
{
    let c = b as char;
    lemma_encode_ascii(c);
    encode_utf8_valid_utf8(seq![c]);
    encode_utf8_decode_utf8(seq![c]);
}

/// Where a valid encoding holds a byte below 128, a character ends before
/// that byte and the next begins after it, so the encoding can be cut on
/// either side of the byte, and the byte stands for the character of the
/// same value.
pub proof fn lemma_cut_at_ascii_byte(bytes: Seq<u8>, at: int)
    requires
        valid_utf8(bytes),
        0 <= at < bytes.len(),
        bytes[at] < 0x80,
    ensures
        is_char_boundary(bytes, at),
        is_char_boundary(bytes, at + 1),
        valid_utf8(bytes.take(at)),
        valid_utf8(bytes.skip(at + 1)),
        decode_utf8(bytes) == decode_utf8(bytes.take(at)) + seq![bytes[at] as char] + decode_utf8(
            bytes.skip(at + 1),
        ),
{
    let head = bytes.take(at);
    let tail = bytes.skip(at);
    let rest = bytes.skip(at + 1);
    is_char_boundary_iff_not_is_continuation_byte(bytes, at);
    valid_utf8_split(bytes, at);
    decode_utf8_split(bytes, at);
    assert(tail[0] == bytes[at]);
    assert(pop_first_scalar(tail) =~= rest);
    assert(valid_utf8(rest));
    lemma_decode_ascii(bytes[at]);
    assert(tail =~= seq![bytes[at]] + rest);
    lemma_decode_concat(seq![bytes[at]], rest);
    if at + 1 == bytes.len() {
        is_char_boundary_start_end_of_seq(bytes);
    } else {
        assert(rest[0] == bytes[at + 1]);
        assert(valid_first_scalar(rest));
        is_char_boundary_iff_not_is_continuation_byte(bytes, at + 1);
    }
}

/// A character below 128 shows in the encoding as the byte of the same
/// value, at the offset that the encoding of the characters before it
/// takes up; before that byte lies their encoding, and after it the
/// encoding of the characters that follow.
pub proof fn lemma_ascii_char_in_encoding(chars: Seq<char>, k: int)
    requires
        0 <= k < chars.len(),
        (chars[k] as u32) < 0x80,
    ensures
        ({
            let bytes = encode_utf8(chars);
            let at = encode_utf8(chars.take(k)).len() as int;
            &&& at < bytes.len()
            &&& bytes[at] == chars[k] as u8
            &&& bytes.take(at) == encode_utf8(chars.take(k))
            &&& bytes.skip(at + 1) == encode_utf8(chars.skip(k + 1))
        }),
{
    let before = chars.take(k);
    let after = chars.skip(k + 1);
    let bytes = encode_utf8(chars);
    let at = encode_utf8(before).len() as int;
    assert(chars =~= before + seq![chars[k]] + after);
    lemma_encode_concat(before + seq![chars[k]], after);
    lemma_encode_concat(before, seq![chars[k]]);
    lemma_encode_ascii(chars[k]);
    assert(bytes == encode_utf8(before) + seq![chars[k] as u8] + encode_utf8(after));
    assert(bytes.take(at) =~= encode_utf8(before));
    assert(bytes.skip(at + 1) =~= encode_utf8(after));
}

/// One text occurs in another exactly when its encoding occurs in the
/// encoding of the other.
pub proof fn lemma_occurs_in_encoding(needle: Seq<char>, haystack: Seq<char>)
    ensures
        occurs_in(encode_utf8(needle), encode_utf8(haystack)) <==> occurs_in(needle, haystack),
{
    let pattern = encode_utf8(needle);
    let bytes = encode_utf8(haystack);
    encode_utf8_valid_utf8(needle);
    encode_utf8_valid_utf8(haystack);
    encode_utf8_decode_utf8(needle);
    encode_utf8_decode_utf8(haystack);
    if occurs_in(needle, haystack) {
        let k = choose|k: int| occurs_at(needle, haystack, k);
        let before = haystack.take(k);
        let after = haystack.skip(k + needle.len());
        assert(haystack =~= before + needle + after);
        lemma_encode_concat(before + needle, after);
        lemma_encode_concat(before, needle);
        let at = encode_utf8(before).len() as int;
        assert(bytes.subrange(at, at + pattern.len()) =~= pattern);
        assert(occurs_at(pattern, bytes, at));
    }
    if occurs_in(pattern, bytes) {
        let at = choose|at: int| occurs_at(pattern, bytes, at);
        if needle.len() == 0 {
            assert(haystack.subrange(0, 0) =~= needle);
            assert(occurs_at(needle, haystack, 0));
        } else {
            assert(pattern[0] == bytes.subrange(at, at + pattern.len())[0]);
            is_char_boundary_iff_not_is_continuation_byte(bytes, at);
            valid_utf8_split(bytes, at);
            decode_utf8_split(bytes, at);
            let before = bytes.take(at);
            let tail = bytes.skip(at);
            let after = bytes.skip(at + pattern.len());
            assert(tail.subrange(0, pattern.len() as int) =~= pattern);
            assert(tail.subrange(pattern.len() as int, tail.len() as int) =~= after);
            if !valid_utf8(after) {
                partial_valid_partial_invalid_utf8(tail, pattern.len() as int);
            }
            assert(tail =~= pattern + after);
            lemma_decode_concat(pattern, after);
            let k = decode_utf8(before).len() as int;
            assert(haystack == decode_utf8(before) + needle + decode_utf8(after));
            assert(haystack.subrange(k, k + needle.len()) =~= needle);
            assert(occurs_at(needle, haystack, k));
        }
    }
}

/// A character below 128 whose byte stands nowhere in the encoding of a
/// text stands nowhere in the text.
pub proof fn lemma_absent_byte_absent_char(chars: Seq<char>, c: char)
    requires
        (c as u32) < 0x80,
        forall|i: int| 0 <= i < encode_utf8(chars).len() ==> encode_utf8(chars)[i] != c as u8,
    ensures
        forall|k: int| 0 <= k < chars.len() ==> chars[k] != c,
{
    assert forall|k: int| 0 <= k < chars.len() implies chars[k] != c by {
        if chars[k] == c {
            lemma_ascii_char_in_encoding(chars, k);
        }
    }
}

} // verus!
