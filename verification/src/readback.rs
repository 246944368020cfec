//! What the writer writes, the lexer reads back: the bytes of a named node,
//! of a quoted lexical form and of a language tag, wherever they stand in the
//! input, are one token with the text that was written.

use crate::ascii::{AT, BACKSLASH, CARET, DOUBLE_QUOTE, GREATER_THAN, LESS_THAN, MINUS};
use crate::chars::scalar_bytes;
use crate::format::{escaped_char, escaped_text};
use crate::grammar::{after_letters, is_language_tag, is_tag_letter, language_tag, lower};
use crate::lexer::{
    after_tag_chars, escape_at, iri_scan, is_blank, is_iri_forbidden, is_tag_char, string_scan,
    string_start, tag_scan, token_at, word, Escaped, ScannedModel, TokenKind,
};
use vstd::prelude::*;
use vstd::utf8::{
    decode_utf8, decode_utf8_encode_utf8, encode_scalar, encode_utf8, encode_utf8_decode_utf8,
    encode_utf8_valid_utf8, is_ascii_chars_encode_utf8, valid_utf8,
};

verus! {

/// Tells whether some bytes stand in the input from index `at` on.
pub open spec fn located(data: Seq<u8>, at: int, bytes: Seq<u8>) -> bool {
    &&& 0 <= at
    &&& at + bytes.len() <= data.len()
    &&& forall|i: int| 0 <= i < bytes.len() ==> data[at + i] == #[trigger] bytes[i]
}

/// The bytes after which every token that the writer writes is at its end:
/// a blank, or the first byte of a language tag, of `^^` or of a named node.
pub open spec fn ends_a_token(b: u8) -> bool {
    is_blank(b) || b == AT || b == CARET || b == LESS_THAN
}

/// Where bytes stand in the input, their parts stand there too.
pub proof fn lemma_located_parts(data: Seq<u8>, at: int, first: Seq<u8>, second: Seq<u8>)
    requires
        located(data, at, first + second),
    ensures
        located(data, at, first),
        located(data, at + first.len(), second),
{
    let both = first + second;
    assert forall|i: int| 0 <= i < first.len() implies data[at + i] == #[trigger] first[i] by {
        assert(both[i] == first[i]);
    }
    assert forall|i: int| 0 <= i < second.len() implies data[at + first.len() + i]
        == #[trigger] second[i] by {
        assert(both[first.len() + i] == second[i]);
    }
}

/// The encoding of two texts, one after the other, is the encoding of the one
/// followed by the encoding of the other.
pub proof fn lemma_encode_in_two(first: Seq<char>, second: Seq<char>)
    ensures
        encode_utf8(first + second) == encode_utf8(first) + encode_utf8(second),
    decreases first.len(),
{
    if first.len() == 0 {
        assert(first + second =~= second);
        assert(encode_utf8(first) + encode_utf8(second) =~= encode_utf8(second));
    } else {
        assert((first + second).drop_first() =~= first.drop_first() + second);
        assert((first + second)[0] == first[0]);
        lemma_encode_in_two(first.drop_first(), second);
        assert(encode_utf8(first + second) =~= encode_utf8(first) + encode_utf8(second));
    }
}

proof fn lemma_narrow_byte(scalar: u32)
    by (bit_vector)
    requires
        scalar <= 0x7F,
    ensures
        (scalar & 0x7F) as u8 == scalar as u8,
        (scalar & 0x7F) as u8 <= 0x7F,
{
}

proof fn lemma_wide_bytes(scalar: u32)
    by (bit_vector)
    requires
        scalar >= 0x80,
    ensures
        (0xC0 | ((scalar >> 6) & 0x1F) as u8) >= 0x80,
        (0xE0 | ((scalar >> 12) & 0x0F) as u8) >= 0x80,
        (0xF0 | ((scalar >> 18) & 0x7) as u8) >= 0x80,
        (0x80 | (scalar & 0x3F) as u8) >= 0x80,
        (0x80 | ((scalar >> 6) & 0x3F) as u8) >= 0x80,
        (0x80 | ((scalar >> 12) & 0x3F) as u8) >= 0x80,
{
}

/// The encoding of one character: the character itself where it is ASCII,
/// and bytes above the ASCII range otherwise.
pub proof fn lemma_encoded_char(c: char)
    ensures
        encode_utf8(seq![c]) == encode_scalar(c as u32),
        c as u32 <= 0x7F ==> encode_scalar(c as u32) == seq![c as u8],
        c as u32 > 0x7F ==> forall|i: int|
            0 <= i < encode_scalar(c as u32).len() ==> #[trigger] encode_scalar(c as u32)[i]
                >= 0x80,
{
    let text = seq![c];
    assert(text.drop_first() =~= Seq::<char>::empty());
    assert(encode_utf8(Seq::<char>::empty()) =~= Seq::<u8>::empty());
    assert(encode_utf8(text.drop_first()) =~= Seq::<u8>::empty());
    assert(text[0] == c);
    assert(encode_utf8(text) =~= encode_scalar(c as u32));
    let scalar = c as u32;
    if scalar <= 0x7F {
        lemma_narrow_byte(scalar);
        assert(encode_scalar(scalar) =~= seq![c as u8]);
    } else {
        lemma_wide_bytes(scalar);
    }
}

/// Tells whether a byte stands in a string between double quotes as it is.
pub open spec fn is_string_byte(b: u8) -> bool {
    b != DOUBLE_QUOTE && b != BACKSLASH && b != crate::ascii::LINE_FEED && b
        != crate::ascii::CARRIAGE_RETURN
}

/// Bytes that stand in a string as they are, are read as they are.
#[verifier::rlimit(50)]
pub proof fn lemma_string_bytes_are_scanned(
    data: Seq<u8>,
    is_end: bool,
    at: int,
    bytes: Seq<u8>,
    text: Seq<u8>,
)
    requires
        located(data, at, bytes),
        forall|i: int| 0 <= i < bytes.len() ==> is_string_byte(#[trigger] bytes[i]),
    ensures
        string_scan(data, is_end, at, DOUBLE_QUOTE, false, text, false) == string_scan(
            data,
            is_end,
            at + bytes.len(),
            DOUBLE_QUOTE,
            false,
            text + bytes,
            false,
        ),
{
    let to = at + bytes.len();
    assert forall|i: int| at <= i < to implies is_string_byte(#[trigger] data[i]) by {
        assert(data[at + (i - at)] == bytes[i - at]);
    }
    lemma_string_range_is_scanned(data, is_end, at, to, text);
    assert(data.subrange(at, to) =~= bytes) by {
        assert forall|i: int| 0 <= i < bytes.len() implies data.subrange(at, to)[i]
            == #[trigger] bytes[i] by {
            assert(data[at + i] == bytes[i]);
        }
    }
}

/// A range of bytes that stand in a string as they are, is read as it is.
#[verifier::rlimit(50)]
proof fn lemma_string_range_is_scanned(
    data: Seq<u8>,
    is_end: bool,
    at: int,
    to: int,
    text: Seq<u8>,
)
    requires
        0 <= at <= to <= data.len(),
        forall|i: int| at <= i < to ==> is_string_byte(#[trigger] data[i]),
    ensures
        string_scan(data, is_end, at, DOUBLE_QUOTE, false, text, false) == string_scan(
            data,
            is_end,
            to,
            DOUBLE_QUOTE,
            false,
            text + data.subrange(at, to),
            false,
        ),
    decreases to - at,
{
    if at == to {
        assert(text + data.subrange(at, to) =~= text);
    } else {
        assert(is_string_byte(data[at]));
        lemma_string_byte_is_scanned(data, is_end, at, text);
        lemma_string_range_is_scanned(data, is_end, at + 1, to, text.push(data[at]));
        assert(text.push(data[at]) + data.subrange(at + 1, to) =~= text + data.subrange(at, to));
    }
}

/// A byte that stands in a string as it is, is read as it is.
proof fn lemma_string_byte_is_scanned(data: Seq<u8>, is_end: bool, at: int, text: Seq<u8>)
    requires
        0 <= at < data.len(),
        is_string_byte(data[at]),
    ensures
        string_scan(data, is_end, at, DOUBLE_QUOTE, false, text, false) == string_scan(
            data,
            is_end,
            at + 1,
            DOUBLE_QUOTE,
            false,
            text.push(data[at]),
            false,
        ),
{
}

/// The two bytes of a short escape are read as the character that was escaped.
#[verifier::rlimit(50)]
proof fn lemma_short_escape_is_scanned(
    data: Seq<u8>,
    is_end: bool,
    at: int,
    letter: u8,
    code: u32,
    text: Seq<u8>,
)
    requires
        located(data, at, seq![BACKSLASH, letter]),
        crate::lexer::short_escape(letter) == Some(code),
        letter != crate::ascii::LOWER_U,
        letter != crate::ascii::UPPER_U,
        code <= 0x7F,
    ensures
        string_scan(data, is_end, at, DOUBLE_QUOTE, false, text, false) == string_scan(
            data,
            is_end,
            at + 2,
            DOUBLE_QUOTE,
            false,
            text.push(code as u8),
            false,
        ),
{
    let bytes = seq![BACKSLASH, letter];
    assert(data[at + 0] == bytes[0]);
    assert(data[at + 1] == bytes[1]);
    assert(escape_at(data, is_end, at, true) == Escaped::Value { len: 2, code });
    assert(scalar_bytes(code) =~= seq![code as u8]);
    assert(text + scalar_bytes(code) =~= text.push(code as u8));
}

/// The byte of an upper-case hexadecimal digit.
pub open spec fn upper_hex_byte(value: u32) -> u8 {
    if value < 10 {
        (0x30 + value) as u8
    } else {
        (0x41 + value - 10) as u8
    }
}

/// The six bytes of the escape `\u00XX` are read as the character that was escaped.
#[verifier::rlimit(50)]
proof fn lemma_long_escape_is_scanned(
    data: Seq<u8>,
    is_end: bool,
    at: int,
    code: u32,
    text: Seq<u8>,
)
    requires
        code <= 0x7F,
        located(
            data,
            at,
            seq![
                BACKSLASH,
                crate::ascii::LOWER_U,
                0x30u8,
                0x30u8,
                upper_hex_byte(code / 16),
                upper_hex_byte(code % 16),
            ],
        ),
    ensures
        string_scan(data, is_end, at, DOUBLE_QUOTE, false, text, false) == string_scan(
            data,
            is_end,
            at + 6,
            DOUBLE_QUOTE,
            false,
            text.push(code as u8),
            false,
        ),
{
    let bytes = seq![
        BACKSLASH,
        crate::ascii::LOWER_U,
        0x30u8,
        0x30u8,
        upper_hex_byte(code / 16),
        upper_hex_byte(code % 16),
    ];
    assert(data[at + 0] == bytes[0]);
    assert(data[at + 1] == bytes[1]);
    assert(data[at + 2] == bytes[2]);
    assert(data[at + 3] == bytes[3]);
    assert(data[at + 4] == bytes[4]);
    assert(data[at + 5] == bytes[5]);
    assert(crate::chars::hex_value(data[at + 2]) == Some(0u32));
    assert(crate::chars::hex_value(data[at + 3]) == Some(0u32));
    assert(crate::chars::hex_value(data[at + 4]) == Some((code / 16) as u32));
    assert(crate::chars::hex_value(data[at + 5]) == Some((code % 16) as u32));
    assert(crate::chars::hex_quad(data, at + 2) == Some(code));
    assert(escape_at(data, is_end, at, true) == Escaped::Value { len: 6, code });
    assert(scalar_bytes(code) =~= seq![code as u8]);
    assert(text + scalar_bytes(code) =~= text.push(code as u8));
}

/// Tells whether a character is written as a backslash and a letter.
pub open spec fn has_short_escape(c: char) -> bool {
    c == '\u{08}' || c == '\t' || c == '\n' || c == '\u{0C}' || c == '\r' || c == '"' || c == '\\'
}

/// Tells whether a character is written as `\u00XX`.
pub open spec fn has_long_escape(c: char) -> bool {
    !has_short_escape(c) && (c as u32 <= 0x1F || c == '\u{7F}')
}

/// The bytes that a character with a short escape is written as.
proof fn lemma_short_escape_bytes(c: char)
    requires
        has_short_escape(c),
    ensures
        encode_utf8(escaped_char(c)).len() == 2,
        encode_utf8(escaped_char(c))[0] == BACKSLASH,
        crate::lexer::short_escape(encode_utf8(escaped_char(c))[1]) == Some(c as u32),
        encode_utf8(escaped_char(c))[1] != crate::ascii::LOWER_U,
        encode_utf8(escaped_char(c))[1] != crate::ascii::UPPER_U,
        c as u32 <= 0x7F,
{
    let written = escaped_char(c);
    is_ascii_chars_encode_utf8(written);
    assert(written[0] == '\\');
    assert(written[0] as u8 == encode_utf8(written)[0]);
    assert(written[1] as u8 == encode_utf8(written)[1]);
}

/// The bytes that a character with a long escape is written as.
proof fn lemma_long_escape_bytes(c: char)
    requires
        has_long_escape(c),
    ensures
        encode_utf8(escaped_char(c)) == seq![
            BACKSLASH,
            crate::ascii::LOWER_U,
            0x30u8,
            0x30u8,
            upper_hex_byte(c as u32 / 16),
            upper_hex_byte(c as u32 % 16),
        ],
        c as u32 <= 0x7F,
{
    let written = escaped_char(c);
    is_ascii_chars_encode_utf8(written);
    let bytes = encode_utf8(written);
    assert(written[0] as u8 == bytes[0]);
    assert(written[1] as u8 == bytes[1]);
    assert(written[2] as u8 == bytes[2]);
    assert(written[3] as u8 == bytes[3]);
    assert(written[4] as u8 == bytes[4]);
    assert(written[5] as u8 == bytes[5]);
    assert(bytes =~= seq![
        BACKSLASH,
        crate::ascii::LOWER_U,
        0x30u8,
        0x30u8,
        upper_hex_byte(c as u32 / 16),
        upper_hex_byte(c as u32 % 16),
    ]);
}

/// The bytes that a character without escape is written as stand in a string
/// as they are.
proof fn lemma_plain_char_bytes(c: char)
    requires
        !has_short_escape(c),
        !has_long_escape(c),
    ensures
        escaped_char(c) == seq![c],
        encode_utf8(seq![c]).len() > 0,
        forall|i: int|
            0 <= i < encode_utf8(seq![c]).len() ==> is_string_byte(
                #[trigger] encode_utf8(seq![c])[i],
            ),
{
    lemma_encoded_char(c);
    let code = c as u32;
    let bytes = encode_utf8(seq![c]);
    assert forall|i: int| 0 <= i < bytes.len() implies is_string_byte(#[trigger] bytes[i]) by {
        if code <= 0x7F {
            assert(bytes[i] == c as u8);
        } else {
            assert(encode_scalar(code)[i] >= 0x80);
        }
    }
}

/// The bytes of one escaped character are read as the bytes of the character.
#[verifier::rlimit(50)]
pub proof fn lemma_escaped_char_is_scanned(
    data: Seq<u8>,
    is_end: bool,
    at: int,
    c: char,
    text: Seq<u8>,
)
    requires
        located(data, at, encode_utf8(escaped_char(c))),
    ensures
        string_scan(data, is_end, at, DOUBLE_QUOTE, false, text, false) == string_scan(
            data,
            is_end,
            at + encode_utf8(escaped_char(c)).len(),
            DOUBLE_QUOTE,
            false,
            text + encode_utf8(seq![c]),
            false,
        ),
        encode_utf8(escaped_char(c)).len() > 0,
        encode_utf8(escaped_char(c))[0] != DOUBLE_QUOTE,
{
    let bytes = encode_utf8(escaped_char(c));
    let code = c as u32;
    if has_short_escape(c) {
        lemma_short_escape_bytes(c);
        lemma_encoded_char(c);
        assert(bytes =~= seq![BACKSLASH, bytes[1]]);
        lemma_short_escape_is_scanned(data, is_end, at, bytes[1], code, text);
        assert(text.push(code as u8) =~= text + encode_utf8(seq![c]));
    } else if has_long_escape(c) {
        lemma_long_escape_bytes(c);
        lemma_encoded_char(c);
        lemma_long_escape_is_scanned(data, is_end, at, code, text);
        assert(text.push(code as u8) =~= text + encode_utf8(seq![c]));
    } else {
        lemma_plain_char_bytes(c);
        lemma_string_bytes_are_scanned(data, is_end, at, bytes, text);
        assert(is_string_byte(bytes[0]));
    }
}

/// The bytes of an escaped lexical form, before a double quote, are read as
/// the bytes of the lexical form.
#[verifier::rlimit(50)]
pub proof fn lemma_escaped_text_is_scanned(
    data: Seq<u8>,
    is_end: bool,
    at: int,
    value: Seq<char>,
    text: Seq<u8>,
)
    requires
        located(data, at, encode_utf8(escaped_text(value))),
        at + encode_utf8(escaped_text(value)).len() < data.len(),
        data[at + encode_utf8(escaped_text(value)).len()] == DOUBLE_QUOTE,
    ensures
        string_scan(data, is_end, at, DOUBLE_QUOTE, false, text, false) == word(
            TokenKind::Text,
            at + encode_utf8(escaped_text(value)).len() + 1,
            text + encode_utf8(value),
        ),
    decreases value.len(),
{
    if value.len() == 0 {
        assert(encode_utf8(value) =~= Seq::<u8>::empty());
        assert(text + encode_utf8(value) =~= text);
    } else {
        let first = escaped_char(value[0]);
        let rest = value.drop_first();
        lemma_encode_in_two(first, escaped_text(rest));
        lemma_located_parts(data, at, encode_utf8(first), encode_utf8(escaped_text(rest)));
        lemma_escaped_char_is_scanned(data, is_end, at, value[0], text);
        lemma_escaped_text_is_scanned(
            data,
            is_end,
            at + encode_utf8(first).len(),
            rest,
            text + encode_utf8(seq![value[0]]),
        );
        assert(seq![value[0]] + rest =~= value);
        lemma_encode_in_two(seq![value[0]], rest);
        assert((text + encode_utf8(seq![value[0]])) + encode_utf8(rest) =~= text + encode_utf8(
            value,
        ));
    }
}

/// A lexical form as it is written, between double quotes and escaped, is
/// read as one string with the bytes of the lexical form, wherever it stands
/// in the input before a byte that ends a token.
#[verifier::rlimit(50)]
pub proof fn lemma_quoted_text_is_read_back(
    data: Seq<u8>,
    is_end: bool,
    at: int,
    value: Seq<char>,
)
    requires
        located(
            data,
            at,
            seq![DOUBLE_QUOTE] + encode_utf8(escaped_text(value)) + seq![DOUBLE_QUOTE],
        ),
        at + encode_utf8(escaped_text(value)).len() + 2 < data.len(),
        ends_a_token(data[at + encode_utf8(escaped_text(value)).len() + 2]),
    ensures
        token_at(data, is_end, at) == word(
            TokenKind::Text,
            at + encode_utf8(escaped_text(value)).len() + 2,
            encode_utf8(value),
        ),
{
    let inner = encode_utf8(escaped_text(value));
    let whole = seq![DOUBLE_QUOTE] + inner + seq![DOUBLE_QUOTE];
    assert(whole[0] == DOUBLE_QUOTE);
    assert(data[at + 0] == whole[0]);
    assert(whole[inner.len() as int + 1] == DOUBLE_QUOTE);
    assert(data[at + (inner.len() + 1)] == whole[inner.len() as int + 1]);
    assert forall|i: int| 0 <= i < inner.len() implies data[at + 1 + i] == #[trigger] inner[i] by {
        assert(whole[i + 1] == inner[i]);
        assert(data[at + (i + 1)] == whole[i + 1]);
    }
    if value.len() == 0 {
        assert(inner =~= Seq::<u8>::empty());
        assert(encode_utf8(value) =~= Seq::<u8>::empty());
    } else {
        let first = escaped_char(value[0]);
        lemma_encode_in_two(first, escaped_text(value.drop_first()));
        lemma_located_parts(
            data,
            at + 1,
            encode_utf8(first),
            encode_utf8(escaped_text(value.drop_first())),
        );
        lemma_escaped_char_is_scanned(data, is_end, at + 1, value[0], Seq::empty());
        assert(inner[0] == encode_utf8(first)[0]);
        assert(data[at + 1] == inner[0]);
        lemma_escaped_text_is_scanned(data, is_end, at + 1, value, Seq::empty());
        assert(Seq::<u8>::empty() + encode_utf8(value) =~= encode_utf8(value));
    }
}

/// Tells whether a byte is a lower-case letter, a digit or `_`.
pub open spec fn is_label_byte(b: u8) -> bool {
    (0x61 <= b <= 0x7A) || (0x30 <= b <= 0x39) || b == 0x5F
}

/// Lower-case letters, digits and `_` before a blank are a run of name
/// characters that ends at the blank.
pub proof fn lemma_label_bytes_are_a_name_run(data: Seq<u8>, is_end: bool, at: int, to: int)
    requires
        0 <= at <= to < data.len(),
        forall|i: int| at <= i < to ==> is_label_byte(#[trigger] data[i]),
        is_blank(data[to]),
    ensures
        crate::lexer::name_run(data, is_end, at) == Some(to),
    decreases to - at,
{
    if at < to {
        assert(is_label_byte(data[at]));
        assert(crate::chars::scalar_at(data, at) == crate::chars::Decoded::Scalar {
            code: data[at] as u32,
            len: 1,
        });
        lemma_label_bytes_are_a_name_run(data, is_end, at + 1, to);
    } else {
        assert(crate::chars::scalar_at(data, at) == crate::chars::Decoded::Scalar {
            code: data[at] as u32,
            len: 1,
        });
    }
}

/// A blank node as it is written, `_:` and a label of lower-case letters,
/// digits and `_`, before a blank, is read as one label with the bytes of
/// the label, wherever it stands in the input.
pub proof fn lemma_label_is_read_back(data: Seq<u8>, is_end: bool, at: int, label: Seq<u8>)
    requires
        located(data, at, seq![0x5Fu8, 0x3Au8] + label),
        label.len() > 0,
        forall|i: int| 0 <= i < label.len() ==> is_label_byte(#[trigger] label[i]),
        at + label.len() + 2 < data.len(),
        is_blank(data[at + label.len() + 2]),
    ensures
        token_at(data, is_end, at) == word(
            TokenKind::BlankNodeLabel,
            at + label.len() + 2,
            label,
        ),
{
    let whole = seq![0x5Fu8, 0x3Au8] + label;
    let to = at + label.len() + 2;
    assert(whole[0] == 0x5Fu8);
    assert(whole[1] == 0x3Au8);
    assert(data[at + 0] == whole[0]);
    assert(data[at + 1] == whole[1]);
    assert forall|i: int| at + 2 <= i < to implies is_label_byte(#[trigger] data[i]) by {
        assert(whole[i - at] == label[i - at - 2]);
        assert(data[at + (i - at)] == whole[i - at]);
    }
    assert(is_label_byte(data[at + 2]));
    assert(is_label_byte(data[to - 1]));
    assert(crate::chars::scalar_at(data, at + 2) == crate::chars::Decoded::Scalar {
        code: data[at + 2] as u32,
        len: 1,
    });
    lemma_label_bytes_are_a_name_run(data, is_end, at + 3, to);
    assert(crate::lexer::without_trailing_dots(data, at + 3, to) == to);
    assert forall|i: int| 0 <= i < label.len() implies data[at + 2 + i] == #[trigger] label[i] by {
        assert(whole[i + 2] == label[i]);
        assert(data[at + (i + 2)] == whole[i + 2]);
    }
    assert(data.subrange(at + 2, to) =~= label);
    assert(crate::lexer::label_scan(data, is_end, at + 2) == word(
        TokenKind::BlankNodeLabel,
        to,
        label,
    ));
}

/// Tells whether a language tag is as the reader hands it out: well-formed
/// and in lower case.
pub open spec fn is_plain_tag(tag: Seq<u8>) -> bool {
    is_language_tag(tag) && forall|i: int| 0 <= i < tag.len() ==> lower(#[trigger] tag[i]) == tag[i]
}

/// A run of tag characters before a byte that is none ends at that byte.
pub proof fn lemma_tag_chars_are_scanned(data: Seq<u8>, at: int, bytes: Seq<u8>)
    requires
        located(data, at, bytes),
        forall|i: int| 0 <= i < bytes.len() ==> is_tag_char(#[trigger] bytes[i]),
        at + bytes.len() < data.len(),
        !is_tag_char(data[at + bytes.len()]),
    ensures
        after_tag_chars(data, at) == at + bytes.len(),
    decreases bytes.len(),
{
    if bytes.len() > 0 {
        assert(data[at] == bytes[0]);
        assert(is_tag_char(bytes[0]));
        let rest = bytes.drop_first();
        assert forall|i: int| 0 <= i < rest.len() implies data[at + 1 + i] == #[trigger] rest[i]
            && is_tag_char(rest[i]) by {
            assert(rest[i] == bytes[i + 1]);
        }
        lemma_tag_chars_are_scanned(data, at + 1, rest);
    }
}

/// A language tag as it is written, after `@`, is read as one token with the
/// bytes of the tag, wherever it stands in the input before a blank.
pub proof fn lemma_language_tag_is_read_back(data: Seq<u8>, is_end: bool, at: int, tag: Seq<u8>)
    requires
        located(data, at, seq![AT] + tag),
        is_language_tag(tag),
        at + tag.len() + 1 < data.len(),
        is_blank(data[at + tag.len() + 1]),
    ensures
        token_at(data, is_end, at) == word(TokenKind::LangTag, at + tag.len() + 1, tag),
{
    let whole = seq![AT] + tag;
    assert(whole[0] == AT);
    assert(data[at + 0] == whole[0]);
    assert forall|i: int| 0 <= i < tag.len() implies data[at + 1 + i] == #[trigger] tag[i] by {
        assert(whole[i + 1] == tag[i]);
        assert(data[at + (i + 1)] == whole[i + 1]);
    }
    lemma_tag_chars_are_scanned(data, at + 1, tag);
    assert(data.subrange(at + 1, at + 1 + tag.len()) =~= tag);
}

/// A language tag that is well-formed and in lower case is handed out as it is.
pub proof fn lemma_plain_tag_is_kept(tag: Seq<char>)
    requires
        is_plain_tag(encode_utf8(tag)),
    ensures
        language_tag(tag) == Some(tag),
{
    let bytes = encode_utf8(tag);
    assert(bytes.map_values(|b: u8| lower(b)) =~= bytes);
    encode_utf8_valid_utf8(tag);
    encode_utf8_decode_utf8(tag);
}

/// Lower case leaves a run of letters where it was.
pub proof fn lemma_lowered_letters(tag: Seq<u8>, at: int)
    requires
        0 <= at,
    ensures
        after_letters(tag.map_values(|b: u8| lower(b)), at) == after_letters(tag, at),
    decreases tag.len() - at,
{
    let lowered = tag.map_values(|b: u8| lower(b));
    if at < tag.len() {
        assert(lowered[at] == lower(tag[at]));
        if is_tag_letter(tag[at]) {
            lemma_lowered_letters(tag, at + 1);
        }
    }
}

/// A language tag as the reader hands it out is well-formed and in lower case.
pub proof fn lemma_handed_out_tag_is_plain(text: Seq<char>)
    ensures
        language_tag(text) matches Some(language) ==> is_plain_tag(encode_utf8(language)),
{
    let tag = encode_utf8(text);
    let lowered = tag.map_values(|b: u8| lower(b));
    if is_language_tag(tag) && valid_utf8(lowered) {
        decode_utf8_encode_utf8(lowered);
        lemma_lowered_letters(tag, 0);
        let first = after_letters(tag, 0);
        assert forall|i: int| 0 <= i < lowered.len() implies is_tag_char(#[trigger] lowered[i])
            && lower(lowered[i]) == lowered[i] by {
            assert(is_tag_char(tag[i]));
            assert(lowered[i] == lower(tag[i]));
        }
        assert forall|i: int| 0 <= i < lowered.len() && #[trigger] lowered[i] == MINUS implies i
            + 1 < lowered.len() && lowered[i + 1] != MINUS by {
            assert(lowered[i] == lower(tag[i]));
            assert(tag[i] == MINUS);
            assert(lowered[i + 1] == lower(tag[i + 1]));
        }
        if first != tag.len() {
            lemma_letters_end_within(tag, 0);
            assert(lowered[first] == lower(tag[first]));
        }
        assert(is_language_tag(lowered));
    }
}

/// A run of letters ends within the tag.
pub proof fn lemma_letters_end_within(tag: Seq<u8>, at: int)
    requires
        0 <= at <= tag.len(),
    ensures
        at <= after_letters(tag, at) <= tag.len(),
    decreases tag.len() - at,
{
    if at < tag.len() && is_tag_letter(tag[at]) {
        lemma_letters_end_within(tag, at + 1);
    }
}

} // verus!
