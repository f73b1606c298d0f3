//! Facts about texts in UTF-8: where ASCII characters stand in them, and what lower case does.
use vstd::prelude::*;

use crate::text;

verus! {

/// The lower-case form of a byte that is an ASCII letter; any other byte is its own.
pub open spec fn lower_byte(b: u8) -> u8 {
    if 65 <= b <= 90 {
        (b + 32) as u8
    } else {
        b
    }
}

/// `bytes` with its ASCII letters in lower case.
pub open spec fn lowered_bytes(bytes: Seq<u8>) -> Seq<u8> {
    bytes.map_values(|b: u8| lower_byte(b))
}

/// An ASCII character is encoded as itself; in the encoding of any other, no byte is in ASCII.
proof fn lemma_encoded_char(c: char)
    ensures
        c <= '\u{7f}' ==> vstd::utf8::encode_scalar(c as u32) == seq![c as u8],
        c > '\u{7f}' ==> forall|i: int|
            0 <= i < vstd::utf8::encode_scalar(c as u32).len() ==> #[trigger]
            vstd::utf8::encode_scalar(c as u32)[i] >= 128,
        vstd::utf8::encode_scalar(c as u32).len() > 0,
{
    let u = c as u32;
    if c <= '\u{7f}' {
        assert((u & 0x7F) as u8 == u as u8) by (bit_vector)
            requires
                u <= 0x7F,
        ;
    } else {
        assert(0xC0 | ((u >> 6) & 0x1F) as u8 >= 128u8) by (bit_vector);
        assert(0xE0 | ((u >> 12) & 0x0F) as u8 >= 128u8) by (bit_vector);
        assert(0xF0 | ((u >> 18) & 0x7) as u8 >= 128u8) by (bit_vector);
        assert(0x80 | (u & 0x3F) as u8 >= 128u8) by (bit_vector);
        assert(0x80 | ((u >> 6) & 0x3F) as u8 >= 128u8) by (bit_vector);
        assert(0x80 | ((u >> 12) & 0x3F) as u8 >= 128u8) by (bit_vector);
    }
}

proof fn lemma_encoded_char_is_not(d: char, c: char)
    requires
        c <= '\u{7f}',
        d != c,
    ensures
        forall|i: int|
            0 <= i < vstd::utf8::encode_scalar(d as u32).len() ==> #[trigger]
            vstd::utf8::encode_scalar(d as u32)[i] != c as u8,
{
    lemma_encoded_char(d);
}

pub proof fn lemma_encoded_parts(a: Seq<char>, b: Seq<char>)
    ensures
        vstd::utf8::encode_utf8(a + b) == vstd::utf8::encode_utf8(a) + vstd::utf8::encode_utf8(b),
    decreases a.len(),
{
    if a.len() == 0 {
        assert(a + b =~= b);
    } else {
        lemma_encoded_parts(a.drop_first(), b);
        assert((a + b).drop_first() =~= a.drop_first() + b);
        assert(vstd::utf8::encode_utf8(a + b) =~= vstd::utf8::encode_utf8(a)
            + vstd::utf8::encode_utf8(b));
    }
}

/// A text without a certain ASCII character is encoded without its byte.
pub proof fn lemma_encoded_without(s: Seq<char>, c: char)
    requires
        c <= '\u{7f}',
        forall|i: int| 0 <= i < s.len() ==> s[i] != c,
    ensures
        forall|i: int|
            0 <= i < vstd::utf8::encode_utf8(s).len() ==> vstd::utf8::encode_utf8(s)[i] != c as u8,
        s.len() > 0 ==> vstd::utf8::encode_utf8(s).len() > 0,
    decreases s.len(),
{
    if s.len() > 0 {
        let d: char = s[0];
        lemma_encoded_char(d);
        lemma_encoded_without(s.drop_first(), c);
        let first = vstd::utf8::encode_scalar(d as u32);
        assert(d != c);
        lemma_encoded_char_is_not(d, c);
        let rest = vstd::utf8::encode_utf8(s.drop_first());
        assert forall|i: int| 0 <= i < vstd::utf8::encode_utf8(s).len() implies vstd::utf8::encode_utf8(
            s,
        )[i] != c as u8 by {
            if i < first.len() {
                assert(vstd::utf8::encode_utf8(s)[i] == first[i]);
            } else {
                assert(vstd::utf8::encode_utf8(s)[i] == rest[i - first.len()]);
            }
        }
    }
}

/// A text in lower case is encoded as its encoding in lower case.
pub proof fn lemma_encoded_lowered(s: Seq<char>)
    ensures
        vstd::utf8::encode_utf8(text::lowered(s)) == lowered_bytes(vstd::utf8::encode_utf8(s)),
    decreases s.len(),
{
    if s.len() == 0 {
        assert(vstd::utf8::encode_utf8(text::lowered(s)) =~= lowered_bytes(
            vstd::utf8::encode_utf8(s),
        ));
    } else {
        let c = s[0];
        let rest = s.drop_first();
        lemma_encoded_lowered(rest);
        lemma_encoded_char(c);
        lemma_encoded_char(text::ascii_lower(c));
        assert(text::lowered(s).drop_first() =~= text::lowered(rest));
        assert(text::lowered(s)[0] == text::ascii_lower(c));
        let first = vstd::utf8::encode_scalar(c as u32);
        assert(vstd::utf8::encode_scalar(text::ascii_lower(c) as u32) =~= lowered_bytes(first));
        assert(vstd::utf8::encode_utf8(text::lowered(s)) =~= lowered_bytes(
            vstd::utf8::encode_utf8(s),
        ));
    }
}

/// A stretch of valid UTF-8 is valid where it starts after an ASCII byte, or at the start, and ends
/// before one, or at the end.
pub proof fn lemma_valid_between(p: Seq<u8>, i: int, j: int)
    requires
        vstd::utf8::valid_utf8(p),
        0 <= i <= j <= p.len(),
        i == 0 || p[i - 1] < 128,
        j == p.len() || p[j] < 128,
    ensures
        vstd::utf8::valid_utf8(p.subrange(i, j)),
{
    let n = p.len() as int;
    let q = p.subrange(i, n);
    if i == 0 {
        assert(q =~= p);
    } else {
        assert(!vstd::utf8::is_continuation_byte(p[i - 1]));
        vstd::utf8::is_char_boundary_iff_not_is_continuation_byte(p, i - 1);
        vstd::utf8::valid_utf8_split(p, i - 1);
        let longer = p.subrange(i - 1, n);
        assert(longer[0] == p[i - 1]);
        assert(vstd::utf8::pop_first_scalar(longer) =~= q);
    }
    assert(vstd::utf8::valid_utf8(q));
    assert(q.subrange(0, j - i) =~= p.subrange(i, j));
    if j < n {
        assert(q[j - i] == p[j]);
        assert(!vstd::utf8::is_continuation_byte(q[j - i]));
        vstd::utf8::is_char_boundary_iff_not_is_continuation_byte(q, j - i);
        vstd::utf8::valid_utf8_split(q, j - i);
    } else {
        assert(q.subrange(0, j - i) =~= q);
    }
}

/// Valid UTF-8 in lower case is valid, and stands for the text in lower case.
pub proof fn lemma_decoded_lowered(bytes: Seq<u8>)
    requires
        vstd::utf8::valid_utf8(bytes),
    ensures
        vstd::utf8::valid_utf8(lowered_bytes(bytes)),
        vstd::utf8::decode_utf8(lowered_bytes(bytes)) == text::lowered(
            vstd::utf8::decode_utf8(bytes),
        ),
{
    let s = vstd::utf8::decode_utf8(bytes);
    vstd::utf8::decode_utf8_encode_utf8(bytes);
    lemma_encoded_lowered(s);
    vstd::utf8::encode_utf8_valid_utf8(text::lowered(s));
    vstd::utf8::encode_utf8_decode_utf8(text::lowered(s));
}

} // verus!
