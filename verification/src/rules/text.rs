//! Text by byte offsets, and the number and character conversions that the rules need.

use vstd::prelude::*;
use vstd::string::*;
use vstd::utf8::*;

verus! {

/// Whether `from..to` is a range of byte offsets that a text can be cut at: in order, inside
/// the text, and both on a character boundary.
pub open spec fn sliceable(text: Seq<char>, from: int, to: int) -> bool {
    &&& 0 <= from <= to <= encode_utf8(text).len()
    &&& is_char_boundary(encode_utf8(text), from)
    &&& is_char_boundary(encode_utf8(text), to)
}

/// The characters of a text between two byte offsets.
pub open spec fn piece(text: Seq<char>, from: int, to: int) -> Seq<char> {
    decode_utf8(encode_utf8(text).subrange(from, to))
}

/// A prefix of valid UTF-8 that ends on a character boundary has the character boundaries
/// of the whole, up to its end.
pub proof fn lemma_boundary_in_prefix(bytes: Seq<u8>, from: int, to: int)
    requires
        valid_utf8(bytes),
        0 <= from <= to <= bytes.len(),
        is_char_boundary(bytes, from),
        is_char_boundary(bytes, to),
    ensures
        valid_utf8(bytes.subrange(0, to)),
        is_char_boundary(bytes.subrange(0, to), from),
{
    let head = bytes.subrange(0, to);
    valid_utf8_split(bytes, to);
    if from == to {
        is_char_boundary_start_end_of_seq(head);
    } else if from > 0 {
        is_char_boundary_iff_not_is_continuation_byte(bytes, from);
        is_char_boundary_iff_not_is_continuation_byte(head, from);
    }
}

/// The length of a text in bytes.
pub fn byte_len(text: &str) -> (n: usize)
    ensures
        n == encode_utf8(text@).len(),
{
    text.as_bytes().len()
}

/// The part of a text between two byte offsets.
pub fn slice<'a>(text: &'a str, from: usize, to: usize) -> (part: &'a str)
    requires
        sliceable(text@, from as int, to as int),
    ensures
        part@ == piece(text@, from as int, to as int),
{
    proof {
        encode_utf8_valid_utf8(text@);
        lemma_boundary_in_prefix(text.spec_bytes(), from as int, to as int);
    }
    let (head, _) = text.split_at(to);
    let (_, part) = head.split_at(from);
    proof {
        assert(part.spec_bytes() =~= text.spec_bytes().subrange(from as int, to as int));
        encode_utf8_decode_utf8(part@);
    }
    part
}

/// The value of a hexadecimal digit, in either case.
pub open spec fn hex_digit(c: char) -> Option<int> {
    if '0' <= c <= '9' {
        Some(c as int - '0' as int)
    } else if 'a' <= c <= 'f' {
        Some(c as int - 'a' as int + 10)
    } else if 'A' <= c <= 'F' {
        Some(c as int - 'A' as int + 10)
    } else {
        None
    }
}

/// Whether every character is a hexadecimal digit.
pub open spec fn all_hex(digits: Seq<char>) -> bool {
    forall|i: int| 0 <= i < digits.len() ==> hex_digit(#[trigger] digits[i]) is Some
}

/// The number that a sequence of hexadecimal digits denotes.
pub open spec fn hex_value(digits: Seq<char>) -> int
    decreases digits.len(),
{
    if digits.len() == 0 {
        0
    } else {
        16 * hex_value(digits.drop_last()) + match hex_digit(digits.last()) {
            Some(d) => d,
            None => 0,
        }
    }
}

/// The number that a text denotes in base 16, if it is one and is at most `max`: an optional
/// `+`, then at least one hexadecimal digit and nothing else.
pub open spec fn parse_hex(text: Seq<char>, max: int) -> Option<int> {
    let digits = if text.len() > 0 && text[0] == '+' {
        text.skip(1)
    } else {
        text
    };
    if digits.len() > 0 && all_hex(digits) && hex_value(digits) <= max {
        Some(hex_value(digits))
    } else {
        None
    }
}

/// Whether a number is a Unicode scalar value: a code point that is not a surrogate.
pub open spec fn is_scalar_value(v: u32) -> bool {
    v <= 0xD7FF || 0xE000 <= v <= 0x10FFFF
}

/// Calls `u8::from_str_radix` with radix 16. As std documents it, the text is an optional
/// `+` sign followed by digits only, and a number that does not fit is an error.
#[verifier::external_body]
pub(crate) fn hex_u8(text: &str) -> (value: Option<u8>)
    ensures
        match value {
            Some(v) => parse_hex(text@, 0xFF) == Some(v as int),
            None => parse_hex(text@, 0xFF) is None,
        },
{
    u8::from_str_radix(text, 16).ok()
}

/// Calls `u32::from_str_radix` with radix 16. As std documents it, the text is an optional
/// `+` sign followed by digits only, and a number that does not fit is an error.
#[verifier::external_body]
pub(crate) fn hex_u32(text: &str) -> (value: Option<u32>)
    ensures
        match value {
            Some(v) => parse_hex(text@, 0xFFFF_FFFF) == Some(v as int),
            None => parse_hex(text@, 0xFFFF_FFFF) is None,
        },
{
    u32::from_str_radix(text, 16).ok()
}

/// Calls `char::from_u32`, which gives the character of a number exactly when the number is
/// a Unicode scalar value.
#[verifier::external_body]
pub(crate) fn char_of(v: u32) -> (c: Option<char>)
    ensures
        match c {
            Some(c) => is_scalar_value(v) && c as u32 == v,
            None => !is_scalar_value(v),
        },
{
    char::from_u32(v)
}

/// Calls `String::from_utf8`, which makes a text of bytes exactly when they are valid UTF-8.
#[verifier::external_body]
pub(crate) fn text_of_bytes(bytes: Vec<u8>) -> (text: Option<String>)
    ensures
        match text {
            Some(t) => valid_utf8(bytes@) && t@ == decode_utf8(bytes@),
            None => !valid_utf8(bytes@),
        },
{
    String::from_utf8(bytes).ok()
}

} // verus!
