//! The escapes of named nodes: the characters of an IRI that cannot stand
//! between angle brackets are written as `\\u00XX`.

use crate::ascii::{BACKSLASH, GREATER_THAN, LESS_THAN, LOWER_U};
use crate::lexer::{escape_at, iri_scan, token_at, word, Escaped, TokenKind};
use crate::format::{escaped_iri, iri_char_text, is_escaped_in_iri};
use crate::readback::{
    lemma_encode_in_two, lemma_encoded_char, lemma_located_parts, located, upper_hex_byte,
};
use crate::roundtrip::lemma_encode_ascii;
use crate::scanner::text_of;
use vstd::prelude::*;
use vstd::string::StringSliceAdditionalSpecFns;
use vstd::utf8::{encode_scalar, encode_utf8, encode_utf8_decode_utf8, encode_utf8_valid_utf8};

verus! {

/// Tells whether a byte of an IRI is written as an escape.
pub open spec fn is_escaped_byte(b: u8) -> bool {
    ||| b <= 0x20
    ||| b == 0x7F
    ||| b == 0x3C
    ||| b == 0x3E
    ||| b == 0x22
    ||| b == 0x7B
    ||| b == 0x7D
    ||| b == 0x7C
    ||| b == 0x5E
    ||| b == 0x60
    ||| b == 0x5C
}

/// The bytes that stand for one byte of an IRI between the angle brackets.
pub open spec fn iri_byte_text(b: u8) -> Seq<u8> {
    if is_escaped_byte(b) {
        seq![
            BACKSLASH,
            LOWER_U,
            0x30u8,
            0x30u8,
            upper_hex_byte(b as u32 / 16),
            upper_hex_byte(b as u32 % 16),
        ]
    } else {
        seq![b]
    }
}

/// The bytes of an IRI with each byte escaped as needed.
pub open spec fn escaped_iri_bytes(bytes: Seq<u8>) -> Seq<u8>
    decreases bytes.len(),
{
    if bytes.len() == 0 {
        Seq::empty()
    } else {
        escaped_iri_bytes(bytes.drop_last()) + iri_byte_text(bytes.last())
    }
}

/// Escaping bytes one after the other is escaping the ones and then the others.
pub proof fn lemma_escaped_bytes_in_two(first: Seq<u8>, second: Seq<u8>)
    ensures
        escaped_iri_bytes(first + second) == escaped_iri_bytes(first) + escaped_iri_bytes(second),
    decreases second.len(),
{
    if second.len() == 0 {
        assert(first + second =~= first);
        assert(escaped_iri_bytes(first) + escaped_iri_bytes(second) =~= escaped_iri_bytes(first));
    } else {
        assert((first + second).drop_last() =~= first + second.drop_last());
        assert((first + second).last() == second.last());
        lemma_escaped_bytes_in_two(first, second.drop_last());
        assert(escaped_iri_bytes(first + second) =~= escaped_iri_bytes(first) + escaped_iri_bytes(
            second,
        ));
    }
}

/// Bytes of which none is written as an escape are written as they are.
pub proof fn lemma_plain_bytes_are_kept(bytes: Seq<u8>)
    requires
        forall|i: int| 0 <= i < bytes.len() ==> !is_escaped_byte(#[trigger] bytes[i]),
    ensures
        escaped_iri_bytes(bytes) == bytes,
    decreases bytes.len(),
{
    if bytes.len() > 0 {
        let front = bytes.drop_last();
        assert forall|i: int| 0 <= i < front.len() implies !is_escaped_byte(#[trigger] front[i]) by {
            assert(front[i] == bytes[i]);
        }
        lemma_plain_bytes_are_kept(front);
        assert(!is_escaped_byte(bytes.last()));
        assert(escaped_iri_bytes(bytes) =~= bytes);
    } else {
        assert(escaped_iri_bytes(bytes) =~= bytes);
    }
}

/// The bytes of one character of an IRI as it is written are the bytes of
/// the character, each escaped as needed.
pub proof fn lemma_escaped_char_bytes(c: char)
    ensures
        escaped_iri_bytes(encode_utf8(seq![c])) == encode_utf8(iri_char_text(c)),
{
    lemma_encoded_char(c);
    let bytes = encode_utf8(seq![c]);
    let code = c as u32;
    if code <= 0x7F {
        assert(bytes == seq![c as u8]);
        assert(bytes.drop_last() =~= Seq::<u8>::empty());
        assert(escaped_iri_bytes(bytes.drop_last()) =~= Seq::<u8>::empty());
        assert(escaped_iri_bytes(bytes) =~= iri_byte_text(c as u8));
        assert(is_escaped_byte(c as u8) == is_escaped_in_iri(c));
        if is_escaped_in_iri(c) {
            lemma_encode_ascii(iri_char_text(c), iri_byte_text(c as u8));
        }
    } else {
        assert forall|i: int| 0 <= i < bytes.len() implies !is_escaped_byte(#[trigger] bytes[i]) by {
            assert(encode_scalar(code)[i] >= 0x80);
        }
        lemma_plain_bytes_are_kept(bytes);
    }
}

/// The bytes of an IRI as it is written are the bytes of the IRI, each
/// escaped as needed.
pub proof fn lemma_escaped_iri_bytes(iri: Seq<char>)
    ensures
        escaped_iri_bytes(encode_utf8(iri)) == encode_utf8(escaped_iri(iri)),
    decreases iri.len(),
{
    if iri.len() == 0 {
        assert(encode_utf8(iri) =~= Seq::<u8>::empty());
        assert(encode_utf8(escaped_iri(iri)) =~= Seq::<u8>::empty());
    } else {
        let first = seq![iri[0]];
        let rest = iri.drop_first();
        assert(first + rest =~= iri);
        lemma_encode_in_two(first, rest);
        lemma_escaped_bytes_in_two(encode_utf8(first), encode_utf8(rest));
        lemma_escaped_char_bytes(iri[0]);
        lemma_escaped_iri_bytes(rest);
        lemma_encode_in_two(iri_char_text(iri[0]), escaped_iri(rest));
    }
}

/// An IRI of whose bytes none is written as an escape is written as it is.
pub proof fn lemma_plain_iri_is_kept(iri: Seq<char>)
    requires
        forall|i: int|
            0 <= i < encode_utf8(iri).len() ==> !is_escaped_byte(#[trigger] encode_utf8(iri)[i]),
    ensures
        escaped_iri(iri) == iri,
{
    lemma_escaped_iri_bytes(iri);
    lemma_plain_bytes_are_kept(encode_utf8(iri));
    encode_utf8_decode_utf8(iri);
    encode_utf8_decode_utf8(escaped_iri(iri));
}

/// One byte of an IRI as it is written is read as that byte.
proof fn lemma_escaped_byte_is_scanned(
    data: Seq<u8>,
    is_end: bool,
    at: int,
    b: u8,
    text: Seq<u8>,
)
    requires
        located(data, at, iri_byte_text(b)),
    ensures
        iri_scan(data, is_end, at, text) == iri_scan(
            data,
            is_end,
            at + iri_byte_text(b).len(),
            text.push(b),
        ),
{
    let written = iri_byte_text(b);
    assert(data[at + 0] == written[0]);
    if is_escaped_byte(b) {
        assert(data[at + 1] == written[1]);
        assert(data[at + 2] == written[2]);
        assert(data[at + 3] == written[3]);
        assert(data[at + 4] == written[4]);
        assert(data[at + 5] == written[5]);
        let code = b as u32;
        assert(crate::chars::hex_value(data[at + 2]) == Some(0u32));
        assert(crate::chars::hex_value(data[at + 3]) == Some(0u32));
        assert(crate::chars::hex_value(data[at + 4]) == Some((code / 16) as u32));
        assert(crate::chars::hex_value(data[at + 5]) == Some((code % 16) as u32));
        assert(crate::chars::hex_quad(data, at + 2) == Some(code));
        assert(escape_at(data, is_end, at, false) == Escaped::Value { len: 6, code });
        assert(crate::chars::scalar_bytes(code) =~= seq![b]);
        assert(text + crate::chars::scalar_bytes(code) =~= text.push(b));
    }
}

/// The bytes of an IRI as they are written, before `>`, are read as the
/// bytes of the IRI.
#[verifier::rlimit(50)]
proof fn lemma_escaped_bytes_are_scanned(
    data: Seq<u8>,
    is_end: bool,
    at: int,
    bytes: Seq<u8>,
    text: Seq<u8>,
)
    requires
        located(data, at, escaped_iri_bytes(bytes)),
        at + escaped_iri_bytes(bytes).len() < data.len(),
        data[at + escaped_iri_bytes(bytes).len()] == GREATER_THAN,
    ensures
        iri_scan(data, is_end, at, text) == word(
            TokenKind::IriRef,
            at + escaped_iri_bytes(bytes).len() + 1,
            text + bytes,
        ),
    decreases bytes.len(),
{
    if bytes.len() == 0 {
        assert(text + bytes =~= text);
    } else {
        let first = seq![bytes[0]];
        let rest = bytes.drop_first();
        assert(first + rest =~= bytes);
        lemma_escaped_bytes_in_two(first, rest);
        assert(first.drop_last() =~= Seq::<u8>::empty());
        assert(escaped_iri_bytes(first.drop_last()) =~= Seq::<u8>::empty());
        assert(escaped_iri_bytes(first) =~= iri_byte_text(bytes[0]));
        lemma_located_parts(data, at, iri_byte_text(bytes[0]), escaped_iri_bytes(rest));
        lemma_escaped_byte_is_scanned(data, is_end, at, bytes[0], text);
        lemma_escaped_bytes_are_scanned(
            data,
            is_end,
            at + iri_byte_text(bytes[0]).len(),
            rest,
            text.push(bytes[0]),
        );
        assert(text.push(bytes[0]) + rest =~= text + bytes);
    }
}

/// A named node as it is written, `<`, the bytes of its IRI, each escaped as
/// needed, and `>`, is read as one IRI reference with the bytes of the IRI,
/// wherever it stands in the input.
pub proof fn lemma_escaped_iri_is_read_back(data: Seq<u8>, is_end: bool, at: int, iri: Seq<u8>)
    requires
        located(data, at, seq![LESS_THAN] + escaped_iri_bytes(iri) + seq![GREATER_THAN]),
    ensures
        token_at(data, is_end, at) == word(
            TokenKind::IriRef,
            at + escaped_iri_bytes(iri).len() + 2,
            iri,
        ),
{
    let inner = escaped_iri_bytes(iri);
    let whole = seq![LESS_THAN] + inner + seq![GREATER_THAN];
    assert(whole[0] == LESS_THAN);
    assert(data[at + 0] == whole[0]);
    assert(whole[inner.len() as int + 1] == GREATER_THAN);
    assert(data[at + (inner.len() + 1)] == whole[inner.len() as int + 1]);
    assert forall|i: int| 0 <= i < inner.len() implies data[at + 1 + i] == #[trigger] inner[i] by {
        assert(whole[i + 1] == inner[i]);
        assert(data[at + (i + 1)] == whole[i + 1]);
    }
    if iri.len() > 0 {
        let first = seq![iri[0]];
        let rest = iri.drop_first();
        assert(first + rest =~= iri);
        lemma_escaped_bytes_in_two(first, rest);
        assert(first.drop_last() =~= Seq::<u8>::empty());
        assert(escaped_iri_bytes(first.drop_last()) =~= Seq::<u8>::empty());
        assert(escaped_iri_bytes(first) =~= iri_byte_text(iri[0]));
        assert(inner[0] == iri_byte_text(iri[0])[0]);
        assert(data[at + 1] == inner[0]);
        assert(inner[0] != LESS_THAN);
    } else {
        assert(inner =~= Seq::<u8>::empty());
    }
    lemma_escaped_bytes_are_scanned(data, is_end, at + 1, iri, Seq::empty());
    assert(Seq::<u8>::empty() + iri =~= iri);
}

/// The byte of an upper-case hexadecimal digit.
fn hex_byte(value: u8) -> (b: u8)
    requires
        value < 16,
    ensures
        b == upper_hex_byte(value as u32),
{
    if value < 10 {
        0x30 + value
    } else {
        0x41 + (value - 10)
    }
}

/// An IRI with each character escaped as needed: the characters that cannot
/// stand in an IRI reference and the control characters become `\\u00XX`.
pub fn escape_iri(iri: &str) -> (escaped: String)
    ensures
        escaped@ == escaped_iri(iri@),
{
    let bytes = iri.as_bytes();
    let mut out: Vec<u8> = Vec::new();
    let mut i: usize = 0;
    assert(bytes@.take(0) =~= Seq::<u8>::empty());
    while i < bytes.len()
        invariant
            i <= bytes.len(),
            out@ == escaped_iri_bytes(bytes@.take(i as int)),
        decreases bytes.len() - i,
    {
        let b = bytes[i];
        assert(bytes@.take(i + 1).drop_last() =~= bytes@.take(i as int));
        assert(bytes@.take(i + 1).last() == b);
        if b <= 0x20 || b == 0x7F || b == 0x3C || b == 0x3E || b == 0x22 || b == 0x7B || b == 0x7D
            || b == 0x7C || b == 0x5E || b == 0x60 || b == 0x5C {
            let ghost before = out@;
            out.push(BACKSLASH);
            out.push(LOWER_U);
            out.push(0x30);
            out.push(0x30);
            out.push(hex_byte(b / 16));
            out.push(hex_byte(b % 16));
            assert(out@ =~= before + iri_byte_text(b));
        } else {
            out.push(b);
        }
        i += 1;
    }
    assert(bytes@.take(i as int) =~= bytes@);
    proof {
        lemma_escaped_iri_bytes(iri@);
        encode_utf8_valid_utf8(escaped_iri(iri@));
        encode_utf8_decode_utf8(escaped_iri(iri@));
    }
    match text_of(out) {
        Some(escaped) => escaped,
        None => String::new(),
    }
}

} // verus!
