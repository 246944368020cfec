//! Literals without quotes: a literal is written bare exactly where its
//! datatype and lexical form allow it, and what is written bare is read back
//! as the literal that was written.

use crate::ascii::DOT;
use crate::chars::{scalar_at, Decoded};
use crate::format::{
    can_be_inlined, escaped_text, literal_text, quoted, quoted_literal_text, xsd_boolean,
    xsd_decimal, xsd_integer,
};
use crate::grammar::RecognizerModel;
use crate::lexer::{
    after_blank, is_blank, lex, name_run, name_scan, number_scan, token_at, without_trailing_dots,
    LexedModel, RawTokenModel, ScannedModel, TokenKind, TokenModel,
};
use crate::model::LiteralModel;
use crate::numeric::{
    after_digits, after_sign, is_boolean_form, is_decimal_form, is_digit, is_double_form,
    is_integer_form, lemma_after_digits_bounds,
};
use crate::stability::lemma_after_digits_stable;
use vstd::prelude::*;
use vstd::utf8::{
    encode_utf8, encode_utf8_decode_utf8, encode_utf8_valid_utf8, is_ascii_chars_encode_utf8,
    valid_utf8,
};

verus! {

/// Escaping makes a text no shorter.
pub proof fn lemma_escaped_text_is_no_shorter(value: Seq<char>)
    ensures
        escaped_text(value).len() >= value.len(),
    decreases value.len(),
{
    if value.len() > 0 {
        lemma_escaped_text_is_no_shorter(value.drop_first());
    }
}

/// A literal is written bare, as its lexical form alone, if and only if its
/// datatype is one of the four with a bare form and its lexical form matches
/// the production of that datatype.
pub proof fn lemma_bare_iff_can_be_inlined(literal: LiteralModel)
    ensures
        literal_text(literal) == literal.value() <==> can_be_inlined(literal),
{
    if !can_be_inlined(literal) {
        lemma_escaped_text_is_no_shorter(literal.value());
        assert(quoted(literal.value()).len() > literal.value().len());
        assert(quoted_literal_text(literal).len() >= quoted(literal.value()).len());
    }
}

/// A run of digits that goes up to the end of some bytes ends there still,
/// where what follows is no digit.
pub proof fn lemma_after_digits_before(bytes: Seq<u8>, rest: Seq<u8>, at: int)
    requires
        0 <= at <= bytes.len(),
        after_digits(bytes, at) == bytes.len(),
        rest.len() > 0,
        !is_digit(rest[0]),
    ensures
        after_digits(bytes + rest, at) == bytes.len(),
    decreases bytes.len() - at,
{
    let data = bytes + rest;
    if at < bytes.len() {
        assert(data[at] == bytes[at]);
        lemma_after_digits_before(bytes, rest, at + 1);
    } else {
        assert(data[at] == rest[0]);
    }
}

/// The bytes of a number in one of the three bare forms, before a blank, are
/// read as one token of the kind of that form.
#[verifier::rlimit(50)]
pub proof fn lemma_number_reads_back(bytes: Seq<u8>, rest: Seq<u8>, is_end: bool)
    requires
        is_integer_form(bytes) || is_decimal_form(bytes) || is_double_form(bytes),
        rest.len() > 0,
        is_blank(rest[0]),
    ensures
        token_at(bytes + rest, is_end, 0) == (ScannedModel::Done {
            end: bytes.len() as int,
            token: RawTokenModel {
                kind: if is_double_form(bytes) {
                    TokenKind::Double
                } else if is_decimal_form(bytes) {
                    TokenKind::Decimal
                } else {
                    TokenKind::Integer
                },
                text: bytes,
                local: Seq::empty(),
            },
        }),
        after_blank(bytes + rest, 0, false) == 0,
{
    let data = bytes + rest;
    let len = bytes.len() as int;
    let whole = after_sign(bytes, 0);
    lemma_after_digits_bounds(bytes, whole);
    let dot = after_digits(bytes, whole);
    assert(len > 0);
    assert(data[0] == bytes[0]);
    assert(after_sign(data, 0) == whole);
    assert(data[len] == rest[0]);
    assert(data.subrange(0, len) =~= bytes);
    if dot == len {
        // An integer: sign and digits.
        lemma_after_digits_before(bytes, rest, whole);
        assert(number_scan(data, is_end, 0) == crate::lexer::word(TokenKind::Integer, len, bytes));
    } else {
        lemma_after_digits_stable(bytes, rest, whole);
        assert(data[dot] == bytes[dot]);
        let has_dot = bytes[dot] == DOT;
        if has_dot {
            lemma_after_digits_bounds(bytes, dot + 1);
        }
        let mark = if has_dot {
            after_digits(bytes, dot + 1)
        } else {
            dot
        };
        if mark == len {
            // A decimal: the digits after the dot go up to the end.
            lemma_after_digits_before(bytes, rest, dot + 1);
            assert(number_scan(data, is_end, 0) == crate::lexer::word(
                TokenKind::Decimal,
                len,
                bytes,
            ));
        } else {
            // A double: the digits of the exponent go up to the end.
            if has_dot {
                lemma_after_digits_stable(bytes, rest, dot + 1);
            }
            assert(data[mark] == bytes[mark]);
            assert(mark + 1 < len) by {
                let exponent = after_sign(bytes, mark + 1);
                lemma_after_digits_bounds(bytes, if exponent <= len {
                    exponent
                } else {
                    len
                });
            }
            assert(data[mark + 1] == bytes[mark + 1]);
            let exponent = after_sign(bytes, mark + 1);
            assert(after_sign(data, mark + 1) == exponent);
            lemma_after_digits_before(bytes, rest, exponent);
            assert(number_scan(data, is_end, 0) == crate::lexer::word(
                TokenKind::Double,
                len,
                bytes,
            ));
        }
    }
    if bytes[0] == DOT {
        assert(data[1] == bytes[1]);
    }
}

/// The bytes of `true` and of `false`.
pub proof fn lemma_boolean_bytes()
    ensures
        encode_utf8("true"@) == seq![0x74u8, 0x72u8, 0x75u8, 0x65u8],
        encode_utf8("false"@) == seq![0x66u8, 0x61u8, 0x6Cu8, 0x73u8, 0x65u8],
{
    reveal_strlit("true");
    reveal_strlit("false");
    is_ascii_chars_encode_utf8("true"@);
    is_ascii_chars_encode_utf8("false"@);
    assert(encode_utf8("true"@) =~= seq![0x74u8, 0x72u8, 0x75u8, 0x65u8]);
    assert(encode_utf8("false"@) =~= seq![0x66u8, 0x61u8, 0x6Cu8, 0x73u8, 0x65u8]);
}

/// A run of lower-case letters before a blank is a run of name characters
/// that ends at the blank.
pub proof fn lemma_letters_are_a_name_run(data: Seq<u8>, is_end: bool, at: int, to: int)
    requires
        0 <= at <= to < data.len(),
        forall|i: int| at <= i < to ==> 0x61 <= #[trigger] data[i] <= 0x7A,
        is_blank(data[to]),
    ensures
        name_run(data, is_end, at) == Some(to),
    decreases to - at,
{
    if at < to {
        assert(0x61 <= data[at] <= 0x7A);
        assert(scalar_at(data, at) == Decoded::Scalar { code: data[at] as u32, len: 1 });
        lemma_letters_are_a_name_run(data, is_end, at + 1, to);
    } else {
        assert(scalar_at(data, at) == Decoded::Scalar { code: data[at] as u32, len: 1 });
    }
}

/// The bytes of `true` or of `false`, before a blank, are read as a keyword.
#[verifier::rlimit(50)]
pub proof fn lemma_boolean_reads_back(bytes: Seq<u8>, rest: Seq<u8>, is_end: bool)
    requires
        is_boolean_form(bytes),
        rest.len() > 0,
        is_blank(rest[0]),
    ensures
        token_at(bytes + rest, is_end, 0) == crate::lexer::word(
            TokenKind::Keyword,
            bytes.len() as int,
            bytes,
        ),
        after_blank(bytes + rest, 0, false) == 0,
{
    let data = bytes + rest;
    let len = bytes.len() as int;
    lemma_booleans_are_letters(bytes);
    assert(data.subrange(0, len) =~= bytes);
    assert(data[len] == rest[0]);
    assert forall|i: int| 0 <= i < len implies 0x61 <= #[trigger] data[i] <= 0x7A by {
        assert(data[i] == bytes[i]);
    }
    lemma_letters_are_a_name_run(data, is_end, 0, len);
    assert(0x61 <= data[0] <= 0x7A);
    assert(0x61 <= data[len - 1] <= 0x7A);
    assert(scalar_at(data, 0) == Decoded::Scalar { code: data[0] as u32, len: 1 });
    assert(without_trailing_dots(data, 0, len) == len);
    assert(name_scan(data, is_end, 0) == crate::lexer::word(TokenKind::Keyword, len, bytes));
    assert(token_at(data, is_end, 0) == name_scan(data, is_end, 0));
}

/// What the writer writes bare, the lexer reads back: the bytes of a literal
/// that can be written bare, before a blank, are one token, and the literal
/// that this token stands for has the lexical form and the datatype of the
/// literal that was written.
#[verifier::rlimit(50)]
pub proof fn lemma_bare_literal_reads_back(
    value: Seq<char>,
    datatype: Seq<char>,
    rest: Seq<u8>,
    is_end: bool,
)
    requires
        can_be_inlined(LiteralModel::Typed { value, datatype }),
        rest.len() > 0,
        is_blank(rest[0]),
    ensures
        lex(encode_utf8(value) + rest, is_end, false) matches LexedModel::Token {
            start,
            end,
            token,
        }
            && start == 0 && end == encode_utf8(value).len() && RecognizerModel::literal(token)
            == Some(LiteralModel::Typed { value, datatype }),
{
    reveal(lex);
    let bytes = encode_utf8(value);
    encode_utf8_valid_utf8(value);
    encode_utf8_decode_utf8(value);
    crate::format::lemma_inline_datatypes_differ();
    assert(valid_utf8(Seq::<u8>::empty())) by {
        encode_utf8_valid_utf8(Seq::<char>::empty());
        assert(encode_utf8(Seq::<char>::empty()) =~= Seq::<u8>::empty());
    }
    if datatype == xsd_boolean() {
        lemma_boolean_reads_back(bytes, rest, is_end);
        lemma_boolean_bytes();
        encode_utf8_decode_utf8("true"@);
        encode_utf8_decode_utf8("false"@);
    } else {
        lemma_number_reads_back(bytes, rest, is_end);
        lemma_forms_differ(bytes);
    }
}

/// The three bare forms of numbers are apart: a decimal has a dot and no
/// exponent, a double has an exponent, an integer has neither.
pub proof fn lemma_forms_differ(bytes: Seq<u8>)
    ensures
        !(is_integer_form(bytes) && is_decimal_form(bytes)),
        !(is_integer_form(bytes) && is_double_form(bytes)),
        !(is_decimal_form(bytes) && is_double_form(bytes)),
{
    let whole = after_sign(bytes, 0);
    if 0 <= whole <= bytes.len() {
        lemma_after_digits_bounds(bytes, whole);
        let dot = after_digits(bytes, whole);
        if dot + 1 <= bytes.len() {
            lemma_after_digits_bounds(bytes, dot + 1);
        }
    }
}

/// A run of digits ends at the same place whatever stands before the index
/// that it is counted from.
pub proof fn lemma_after_digits_shift(data: Seq<u8>, at: int, from: int)
    requires
        0 <= at <= data.len(),
        0 <= from,
    ensures
        after_digits(data, at + from) == at + after_digits(data.skip(at), from),
    decreases data.len() - at - from,
{
    let rest = data.skip(at);
    if at + from < data.len() {
        assert(rest[from] == data[at + from]);
        if is_digit(data[at + from]) {
            lemma_after_digits_shift(data, at, from + 1);
        }
    }
}

/// The scan that `scanned` is, from an index that is `by` further on.
pub open spec fn shifted(scanned: ScannedModel, by: int) -> ScannedModel {
    match scanned {
        ScannedModel::More => ScannedModel::More,
        ScannedModel::Done { end, token } => ScannedModel::Done { end: end + by, token },
        ScannedModel::Bad { end, kind } => ScannedModel::Bad { end: end + by, kind },
    }
}

/// A number is read the same whatever stands before it.
#[verifier::rlimit(50)]
pub proof fn lemma_number_scan_shift(data: Seq<u8>, at: int)
    requires
        0 <= at < data.len(),
    ensures
        number_scan(data, true, at) == shifted(number_scan(data.skip(at), true, 0), at),
{
    let rest = data.skip(at);
    let len = rest.len() as int;
    assert(rest[0] == data[at]);
    let whole = after_sign(rest, 0);
    assert(after_sign(data, at) == at + whole);
    lemma_after_digits_shift(data, at, whole);
    lemma_after_digits_bounds(rest, whole);
    let dot = after_digits(rest, whole);
    if dot < len {
        assert(rest[dot] == data[at + dot]);
    }
    let has_dot = dot < len && rest[dot] == DOT;
    if has_dot {
        lemma_after_digits_shift(data, at, dot + 1);
        lemma_after_digits_bounds(rest, dot + 1);
    }
    let mark = if has_dot {
        after_digits(rest, dot + 1)
    } else {
        dot
    };
    if mark < len {
        assert(rest[mark] == data[at + mark]);
    }
    if mark + 1 < len {
        assert(rest[mark + 1] == data[at + mark + 1]);
    }
    let exponent = after_sign(rest, mark + 1);
    assert(after_sign(data, at + mark + 1) == at + exponent);
    lemma_after_digits_shift(data, at, exponent);
    let end = after_digits(rest, exponent);
    if exponent <= len {
        lemma_after_digits_bounds(rest, exponent);
    }
    assert(data.subrange(at, at + dot) =~= rest.subrange(0, dot));
    if mark <= len {
        assert(data.subrange(at, at + mark) =~= rest.subrange(0, mark));
    }
    if end <= len {
        assert(data.subrange(at, at + end) =~= rest.subrange(0, end));
    }
}

/// The kind of token that a literal of a datatype is when it stands bare.
pub open spec fn bare_kind(datatype: Seq<char>) -> TokenKind {
    if datatype == xsd_boolean() {
        TokenKind::Keyword
    } else if datatype == xsd_integer() {
        TokenKind::Integer
    } else if datatype == xsd_decimal() {
        TokenKind::Decimal
    } else {
        TokenKind::Double
    }
}

/// Lower-case letters before a blank are read as a keyword wherever they stand.
#[verifier::rlimit(50)]
pub proof fn lemma_keyword_is_read_in_place(data: Seq<u8>, at: int, to: int)
    requires
        0 <= at < to < data.len(),
        forall|i: int| at <= i < to ==> 0x61 <= #[trigger] data[i] <= 0x7A,
        is_blank(data[to]),
    ensures
        token_at(data, true, at) == crate::lexer::word(
            TokenKind::Keyword,
            to,
            data.subrange(at, to),
        ),
{
    lemma_letters_are_a_name_run(data, true, at, to);
    assert(0x61 <= data[at] <= 0x7A);
    assert(0x61 <= data[to - 1] <= 0x7A);
    assert(scalar_at(data, at) == Decoded::Scalar { code: data[at] as u32, len: 1 });
    assert(without_trailing_dots(data, at, to) == to);
    assert(name_scan(data, true, at) == crate::lexer::word(
        TokenKind::Keyword,
        to,
        data.subrange(at, to),
    ));
    assert(token_at(data, true, at) == name_scan(data, true, at));
}

/// `true` and `false` are lower-case letters.
pub proof fn lemma_booleans_are_letters(bytes: Seq<u8>)
    requires
        is_boolean_form(bytes),
    ensures
        bytes.len() > 0,
        forall|i: int| 0 <= i < bytes.len() ==> 0x61 <= #[trigger] bytes[i] <= 0x7A,
{
}

/// `true` or `false` before a blank is read as a keyword wherever it stands.
#[verifier::rlimit(50)]
pub proof fn lemma_boolean_is_read_in_place(data: Seq<u8>, at: int, bytes: Seq<u8>)
    requires
        is_boolean_form(bytes),
        0 <= at,
        at + bytes.len() < data.len(),
        data.subrange(at, at + bytes.len()) == bytes,
        is_blank(data[at + bytes.len()]),
    ensures
        token_at(data, true, at) == crate::lexer::word(
            TokenKind::Keyword,
            at + bytes.len(),
            bytes,
        ),
        0x61 <= data[at] <= 0x7A,
{
    let len = bytes.len() as int;
    lemma_booleans_are_letters(bytes);
    assert forall|i: int| at <= i < at + len implies 0x61 <= #[trigger] data[i] <= 0x7A by {
        assert(data.subrange(at, at + len)[i - at] == data[i]);
        assert(0x61 <= bytes[i - at] <= 0x7A);
    }
    lemma_keyword_is_read_in_place(data, at, at + len);
    assert(0x61 <= data[at] <= 0x7A);
}

/// A number in one of the three bare forms before a blank is read as one
/// token of the kind of that form wherever it stands.
#[verifier::rlimit(50)]
pub proof fn lemma_number_is_read_in_place(data: Seq<u8>, at: int, bytes: Seq<u8>)
    requires
        is_integer_form(bytes) || is_decimal_form(bytes) || is_double_form(bytes),
        0 <= at,
        at + bytes.len() < data.len(),
        data.subrange(at, at + bytes.len()) == bytes,
        is_blank(data[at + bytes.len()]),
    ensures
        token_at(data, true, at) == crate::lexer::word(
            if is_double_form(bytes) {
                TokenKind::Double
            } else if is_decimal_form(bytes) {
                TokenKind::Decimal
            } else {
                TokenKind::Integer
            },
            at + bytes.len(),
            bytes,
        ),
        is_digit(data[at]) || crate::numeric::is_sign(data[at]) || data[at] == DOT,
{
    let len = bytes.len() as int;
    let rest = data.skip(at + len);
    let local = data.skip(at);
    assert(local =~= bytes + rest) by {
        assert forall|i: int| 0 <= i < local.len() implies local[i] == (bytes + rest)[i] by {
            if i < len {
                assert(data.subrange(at, at + len)[i] == data[at + i]);
            }
        }
    }
    assert(rest[0] == data[at + len]);
    lemma_number_reads_back(bytes, rest, true);
    lemma_number_scan_shift(data, at);
    assert(local[0] == data[at]);
    if len > 1 {
        assert(local[1] == data[at + 1]);
    }
    let whole = after_sign(bytes, 0);
    lemma_after_digits_bounds(bytes, whole);
    assert(bytes[0] == data[at]);
}

/// The token that a literal is when it stands bare stands for that literal.
pub proof fn lemma_bare_token_is_the_literal(value: Seq<char>, datatype: Seq<char>)
    requires
        can_be_inlined(LiteralModel::Typed { value, datatype }),
    ensures
        RecognizerModel::literal(
            TokenModel { kind: bare_kind(datatype), text: value, local: Seq::empty() },
        ) == Some(LiteralModel::Typed { value, datatype }),
        bare_kind(datatype) == TokenKind::Keyword ==> is_boolean_form(encode_utf8(value)),
        bare_kind(datatype) == TokenKind::Integer ==> is_integer_form(encode_utf8(value)),
        bare_kind(datatype) == TokenKind::Decimal ==> is_decimal_form(encode_utf8(value)),
        bare_kind(datatype) == TokenKind::Double ==> is_double_form(encode_utf8(value)),
{
    crate::format::lemma_inline_datatypes_differ();
    if datatype == xsd_boolean() {
        lemma_boolean_bytes();
        encode_utf8_decode_utf8(value);
        encode_utf8_decode_utf8("true"@);
        encode_utf8_decode_utf8("false"@);
    }
}

/// What the writer writes bare, the lexer reads back wherever it stands in
/// the input before a blank: the bytes of a literal that can be written bare
/// are one token of the kind that stands for that literal.
#[verifier::rlimit(50)]
pub proof fn lemma_bare_literal_is_read_in_place(
    data: Seq<u8>,
    at: int,
    value: Seq<char>,
    datatype: Seq<char>,
)
    requires
        can_be_inlined(LiteralModel::Typed { value, datatype }),
        0 <= at,
        at + encode_utf8(value).len() < data.len(),
        data.subrange(at, at + encode_utf8(value).len()) == encode_utf8(value),
        is_blank(data[at + encode_utf8(value).len()]),
    ensures
        token_at(data, true, at) == crate::lexer::word(
            bare_kind(datatype),
            at + encode_utf8(value).len(),
            encode_utf8(value),
        ),
        encode_utf8(value).len() > 0,
        !is_blank(data[at]),
        data[at] != crate::ascii::HASH,
        data[at] != 0xEF,
{
    let bytes = encode_utf8(value);
    lemma_bare_token_is_the_literal(value, datatype);
    if bare_kind(datatype) == TokenKind::Keyword {
        lemma_boolean_is_read_in_place(data, at, bytes);
    } else {
        lemma_forms_differ(bytes);
        lemma_number_is_read_in_place(data, at, bytes);
    }
}

} // verus!
