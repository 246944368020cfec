//! Unicode scalar values in UTF-8 input: how one is read from a byte
//! sequence, how one is written to it, and the character classes of the
//! Turtle grammar.

use crate::ascii::{
    DIGIT_0, DIGIT_9, LOWER_A, LOWER_F, LOWER_Z, MINUS, UNDERSCORE, UPPER_A, UPPER_F, UPPER_Z,
};
use vstd::prelude::*;

verus! {

/// What stands at some index of a byte sequence, read as UTF-8.
#[derive(Debug, Clone, Copy, PartialEq, Eq, Structural)]
pub enum Decoded {
    /// The sequence ends inside what may be a scalar value.
    Cut,
    /// No scalar value starts with these bytes.
    Invalid,
    /// A scalar value, encoded on `len` bytes.
    Scalar { code: u32, len: usize },
}

/// `10xxxxxx`
pub open spec fn is_continuation(b: u8) -> bool {
    0x80 <= b <= 0xBF
}

/// Tells whether `b` can follow the leading byte `lead` of a scalar value of
/// three or four bytes: a continuation byte that makes the encoding neither
/// overlong, nor a surrogate, nor larger than U+10FFFF.
pub open spec fn is_second_byte(lead: u8, b: u8) -> bool {
    &&& is_continuation(b)
    &&& lead == 0xE0 ==> b >= 0xA0
    &&& lead == 0xED ==> b <= 0x9F
    &&& lead == 0xF0 ==> b >= 0x90
    &&& lead == 0xF4 ==> b <= 0x8F
}

/// The scalar value that starts at index `at`.
pub open spec fn scalar_at(data: Seq<u8>, at: int) -> Decoded
    recommends
        0 <= at < data.len(),
{
    let lead = data[at];
    if lead < 0x80 {
        Decoded::Scalar { code: lead as u32, len: 1 }
    } else if lead < 0xC2 || lead > 0xF4 {
        Decoded::Invalid
    } else if at + 1 >= data.len() {
        Decoded::Cut
    } else if lead < 0xE0 {
        if is_continuation(data[at + 1]) {
            Decoded::Scalar {
                code: ((lead - 0xC0) * 64 + (data[at + 1] - 0x80)) as u32,
                len: 2,
            }
        } else {
            Decoded::Invalid
        }
    } else if !is_second_byte(lead, data[at + 1]) {
        Decoded::Invalid
    } else if at + 2 >= data.len() {
        Decoded::Cut
    } else if !is_continuation(data[at + 2]) {
        Decoded::Invalid
    } else if lead < 0xF0 {
        Decoded::Scalar {
            code: ((lead - 0xE0) * 4096 + (data[at + 1] - 0x80) * 64 + (data[at + 2]
                - 0x80)) as u32,
            len: 3,
        }
    } else if at + 3 >= data.len() {
        Decoded::Cut
    } else if !is_continuation(data[at + 3]) {
        Decoded::Invalid
    } else {
        Decoded::Scalar {
            code: ((lead - 0xF0) * 262144 + (data[at + 1] - 0x80) * 4096 + (data[at + 2] - 0x80)
                * 64 + (data[at + 3] - 0x80)) as u32,
            len: 4,
        }
    }
}

/// Reads the scalar value that starts at index `at`.
pub(crate) fn decode_scalar(data: &[u8], at: usize) -> (decoded: Decoded)
    requires
        at < data.len(),
    ensures
        decoded == scalar_at(data@, at as int),
        decoded matches Decoded::Scalar { code, len } ==> 1 <= len <= 4 && at + len <= data.len(),
{
    let lead = data[at];
    if lead < 0x80 {
        return Decoded::Scalar { code: lead as u32, len: 1 };
    }
    if lead < 0xC2 || lead > 0xF4 {
        return Decoded::Invalid;
    }
    if data.len() - at <= 1 {
        return Decoded::Cut;
    }
    let second = data[at + 1];
    if lead < 0xE0 {
        if second >= 0x80 && second <= 0xBF {
            return Decoded::Scalar {
                code: (lead - 0xC0) as u32 * 64 + (second - 0x80) as u32,
                len: 2,
            };
        }
        return Decoded::Invalid;
    }
    if second < 0x80 || second > 0xBF || (lead == 0xE0 && second < 0xA0) || (lead == 0xED && second
        > 0x9F) || (lead == 0xF0 && second < 0x90) || (lead == 0xF4 && second > 0x8F) {
        return Decoded::Invalid;
    }
    if data.len() - at <= 2 {
        return Decoded::Cut;
    }
    let third = data[at + 2];
    if third < 0x80 || third > 0xBF {
        return Decoded::Invalid;
    }
    if lead < 0xF0 {
        return Decoded::Scalar {
            code: (lead - 0xE0) as u32 * 4096 + (second - 0x80) as u32 * 64 + (third - 0x80) as u32,
            len: 3,
        };
    }
    if data.len() - at <= 3 {
        return Decoded::Cut;
    }
    let fourth = data[at + 3];
    if fourth < 0x80 || fourth > 0xBF {
        return Decoded::Invalid;
    }
    Decoded::Scalar {
        code: (lead - 0xF0) as u32 * 262144 + (second - 0x80) as u32 * 4096 + (third - 0x80) as u32
            * 64 + (fourth - 0x80) as u32,
        len: 4,
    }
}

/// Tells whether a code point is a scalar value: at most U+10FFFF and no surrogate.
pub open spec fn is_scalar_value(code: u32) -> bool {
    code < 0xD800 || (0xE000 <= code <= 0x10FFFF)
}

/// The UTF-8 encoding of a scalar value.
pub open spec fn scalar_bytes(code: u32) -> Seq<u8> {
    if code < 0x80 {
        seq![code as u8]
    } else if code < 0x800 {
        seq![(0xC0 + code / 64) as u8, (0x80 + code % 64) as u8]
    } else if code < 0x10000 {
        seq![(0xE0 + code / 4096) as u8, (0x80 + (code / 64) % 64) as u8, (0x80 + code % 64) as u8]
    } else {
        seq![
            (0xF0 + code / 262144) as u8,
            (0x80 + (code / 4096) % 64) as u8,
            (0x80 + (code / 64) % 64) as u8,
            (0x80 + code % 64) as u8,
        ]
    }
}

/// Appends the UTF-8 encoding of a scalar value.
pub(crate) fn push_scalar(out: &mut Vec<u8>, code: u32)
    requires
        is_scalar_value(code),
    ensures
        final(out)@ == old(out)@ + scalar_bytes(code),
{
    if code < 0x80 {
        out.push(code as u8);
    } else if code < 0x800 {
        out.push((0xC0 + code / 64) as u8);
        out.push((0x80 + code % 64) as u8);
    } else if code < 0x10000 {
        out.push((0xE0 + code / 4096) as u8);
        out.push((0x80 + (code / 64) % 64) as u8);
        out.push((0x80 + code % 64) as u8);
    } else {
        out.push((0xF0 + code / 262144) as u8);
        out.push((0x80 + (code / 4096) % 64) as u8);
        out.push((0x80 + (code / 64) % 64) as u8);
        out.push((0x80 + code % 64) as u8);
    }
    assert(out@ =~= old(out)@ + scalar_bytes(code));
}

/// `[0-9]`
pub open spec fn is_digit_code(code: u32) -> bool {
    DIGIT_0 <= code <= DIGIT_9
}

/// `[A-Za-z]`
pub open spec fn is_letter_code(code: u32) -> bool {
    (UPPER_A <= code <= UPPER_Z) || (LOWER_A <= code <= LOWER_Z)
}

/// `PN_CHARS_BASE`: the characters that a name can start with.
pub open spec fn is_name_start(code: u32) -> bool {
    ||| is_letter_code(code)
    ||| 0xC0 <= code <= 0xD6
    ||| 0xD8 <= code <= 0xF6
    ||| 0xF8 <= code <= 0x2FF
    ||| 0x370 <= code <= 0x37D
    ||| 0x37F <= code <= 0x1FFF
    ||| 0x200C <= code <= 0x200D
    ||| 0x2070 <= code <= 0x218F
    ||| 0x2C00 <= code <= 0x2FEF
    ||| 0x3001 <= code <= 0xD7FF
    ||| 0xF900 <= code <= 0xFDCF
    ||| 0xFDF0 <= code <= 0xFFFD
    ||| 0x10000 <= code <= 0xEFFFF
}

/// `PN_CHARS`: the characters that a name can go on with.
pub open spec fn is_name_char(code: u32) -> bool {
    ||| is_name_start(code)
    ||| code == UNDERSCORE
    ||| code == MINUS
    ||| is_digit_code(code)
    ||| code == 0xB7
    ||| 0x300 <= code <= 0x36F
    ||| 0x203F <= code <= 0x2040
}

/// Tells whether a name can start with this code point.
pub(crate) fn name_can_start_with(code: u32) -> (yes: bool)
    ensures
        yes == is_name_start(code),
{
    (code >= 0x41 && code <= 0x5A) || (code >= 0x61 && code <= 0x7A) || (code >= 0xC0 && code
        <= 0xD6) || (code >= 0xD8 && code <= 0xF6) || (code >= 0xF8 && code <= 0x2FF) || (code
        >= 0x370 && code <= 0x37D) || (code >= 0x37F && code <= 0x1FFF) || (code >= 0x200C && code
        <= 0x200D) || (code >= 0x2070 && code <= 0x218F) || (code >= 0x2C00 && code <= 0x2FEF) || (
    code >= 0x3001 && code <= 0xD7FF) || (code >= 0xF900 && code <= 0xFDCF) || (code >= 0xFDF0
        && code <= 0xFFFD) || (code >= 0x10000 && code <= 0xEFFFF)
}

/// Tells whether a name can go on with this code point.
pub(crate) fn name_can_hold(code: u32) -> (yes: bool)
    ensures
        yes == is_name_char(code),
{
    name_can_start_with(code) || code == 0x5F || code == 0x2D || (code >= 0x30 && code <= 0x39)
        || code == 0xB7 || (code >= 0x300 && code <= 0x36F) || (code >= 0x203F && code <= 0x2040)
}

/// The value of a hexadecimal digit.
pub open spec fn hex_value(b: u8) -> Option<u32> {
    if DIGIT_0 <= b <= DIGIT_9 {
        Some((b - DIGIT_0) as u32)
    } else if UPPER_A <= b <= UPPER_F {
        Some((b - UPPER_A + 10) as u32)
    } else if LOWER_A <= b <= LOWER_F {
        Some((b - LOWER_A + 10) as u32)
    } else {
        None
    }
}

/// Reads a hexadecimal digit.
pub(crate) fn hex_digit(b: u8) -> (value: Option<u32>)
    ensures
        value == hex_value(b),
        value is Some ==> value.unwrap() < 16,
{
    if b >= DIGIT_0 && b <= DIGIT_9 {
        Some((b - DIGIT_0) as u32)
    } else if b >= UPPER_A && b <= UPPER_F {
        Some((b - UPPER_A + 10) as u32)
    } else if b >= LOWER_A && b <= LOWER_F {
        Some((b - LOWER_A + 10) as u32)
    } else {
        None
    }
}

/// The value of the four hexadecimal digits that start at index `at`.
pub open spec fn hex_quad(data: Seq<u8>, at: int) -> Option<u32>
    recommends
        0 <= at,
        at + 4 <= data.len(),
{
    match (
        hex_value(data[at]),
        hex_value(data[at + 1]),
        hex_value(data[at + 2]),
        hex_value(data[at + 3]),
    ) {
        (Some(a), Some(b), Some(c), Some(d)) => Some((a * 4096 + b * 256 + c * 16 + d) as u32),
        _ => None,
    }
}

/// Reads four hexadecimal digits.
pub(crate) fn read_hex_quad(data: &[u8], at: usize) -> (value: Option<u32>)
    requires
        at + 4 <= data.len(),
    ensures
        value == hex_quad(data@, at as int),
        value is Some ==> value.unwrap() <= 0xFFFF,
{
    match (
        hex_digit(data[at]),
        hex_digit(data[at + 1]),
        hex_digit(data[at + 2]),
        hex_digit(data[at + 3]),
    ) {
        (Some(a), Some(b), Some(c), Some(d)) => Some(a * 4096 + b * 256 + c * 16 + d),
        _ => None,
    }
}

} // verus!
