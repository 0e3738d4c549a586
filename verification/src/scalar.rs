//! Decoding of one UTF-8 encoded Unicode scalar value.

use vstd::prelude::*;
use vstd::utf8::decode_first_scalar;
use vstd::utf8::valid_first_scalar;

verus! {

/// The number of bytes in a UTF-8 sequence that starts with `lead`, or 0
/// when no sequence starts with it.
pub open spec fn lead_width(lead: u8) -> nat {
    if lead < 0x80 {
        1
    } else if 0xC0 <= lead < 0xE0 {
        2
    } else if 0xE0 <= lead < 0xF0 {
        3
    } else if 0xF0 <= lead < 0xF8 {
        4
    } else {
        0
    }
}

/// The scalar that `bytes` begins with, if it begins with the well-formed
/// UTF-8 encoding of one: no stray or missing continuation byte, no
/// overlong form, no surrogate, nothing above U+10FFFF.
pub open spec fn scalar_of(bytes: Seq<u8>) -> Option<char> {
    if valid_first_scalar(bytes) {
        Some(decode_first_scalar(bytes) as char)
    } else {
        None
    }
}

/// The number of bytes in a UTF-8 sequence that starts with `lead`, or 0
/// when no sequence starts with it.
pub fn sequence_width(lead: u8) -> (w: usize)
    ensures
        w == lead_width(lead),
{
    if lead < 0x80 {
        1
    } else if lead < 0xC0 {
        0
    } else if lead < 0xE0 {
        2
    } else if lead < 0xF0 {
        3
    } else if lead < 0xF8 {
        4
    } else {
        0
    }
}

/// Whether `b` has the form of a continuation byte, `10xxxxxx`.
pub fn is_continuation(b: u8) -> (r: bool)
    ensures
        r <==> vstd::utf8::is_continuation_byte(b),
{
    0x80 <= b && b <= 0xBF
}

/// Decodes the scalar that the four bytes begin with. Of the four, only as
/// many count as the first one announces.
pub fn decode(b0: u8, b1: u8, b2: u8, b3: u8) -> (r: Option<char>)
    ensures
        r == scalar_of(seq![b0, b1, b2, b3]),
{
    let w = sequence_width(b0);
    if w == 0 {
        None
    } else if w == 1 {
        let cp: u32 = (b0 & 0x7F) as u32;
        assert(cp < 0x80) by (bit_vector)
            requires
                cp == (b0 & 0x7F) as u32,
        ;
        char::from_u32(cp)
    } else if w == 2 {
        if !is_continuation(b1) {
            return None;
        }
        let cp: u32 = (((b0 & 0x1F) as u32) << 6) | ((b1 & 0x3F) as u32);
        assert(cp < 0x800) by (bit_vector)
            requires
                cp == (((b0 & 0x1F) as u32) << 6) | ((b1 & 0x3F) as u32),
        ;
        if cp < 0x80 {
            return None;
        }
        char::from_u32(cp)
    } else if w == 3 {
        if !is_continuation(b1) || !is_continuation(b2) {
            return None;
        }
        let cp: u32 = (((b0 & 0x0F) as u32) << 12) | (((b1 & 0x3F) as u32) << 6) | ((b2
            & 0x3F) as u32);
        assert(cp < 0x10000) by (bit_vector)
            requires
                cp == (((b0 & 0x0F) as u32) << 12) | (((b1 & 0x3F) as u32) << 6) | ((b2
                    & 0x3F) as u32),
        ;
        if cp < 0x800 || (0xD800 <= cp && cp <= 0xDFFF) {
            return None;
        }
        char::from_u32(cp)
    } else {
        if !is_continuation(b1) || !is_continuation(b2) || !is_continuation(b3) {
            return None;
        }
        let cp: u32 = (((b0 & 0x07) as u32) << 18) | (((b1 & 0x3F) as u32) << 12) | (((b2
            & 0x3F) as u32) << 6) | ((b3 & 0x3F) as u32);
        if cp < 0x10000 || cp > 0x10FFFF {
            return None;
        }
        char::from_u32(cp)
    }
}

/// A scalar is decoded from as many bytes as its first byte announces:
/// bytes that follow them change nothing.
pub proof fn lemma_scalar_of_prefix(bytes: Seq<u8>, w: int)
    requires
        0 < bytes.len(),
        w == lead_width(bytes[0]),
        0 < w <= bytes.len(),
    ensures
        scalar_of(bytes.take(w)) == scalar_of(bytes),
{
}

/// `char::from_u32`: the character with the scalar value `v`, or `None`
/// when `v` is a surrogate or lies above U+10FFFF.
pub assume_specification[ char::from_u32 ](v: u32) -> (r: Option<char>)
    ensures
        vstd::utf8::is_scalar(v) ==> r == Some(v as char),
        !vstd::utf8::is_scalar(v) ==> r.is_none(),
;

} // verus!
