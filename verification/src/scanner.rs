//! The lexer at work: the loops that read a token from a byte slice, each
//! proved to find what `lex` says.

use crate::ascii::{
    AT, BACKSLASH, CARET, CARRIAGE_RETURN, COLON, COMMA, DIGIT_0, DIGIT_9, DOT, DOUBLE_QUOTE,
    GREATER_THAN, HASH, LEFT_BRACE, LEFT_BRACKET, LEFT_PAREN, LESS_THAN, LINE_FEED, LOWER_A,
    LOWER_E, LOWER_U, LOWER_Z, MINUS, PERCENT, PLUS, RIGHT_BRACE, RIGHT_BRACKET, RIGHT_PAREN,
    SEMICOLON, SINGLE_QUOTE, SPACE, TAB, UNDERSCORE, UPPER_A, UPPER_E, UPPER_U, UPPER_Z,
};
use crate::chars::{
    decode_scalar, hex_digit, is_name_char, is_scalar_value, name_can_hold, name_can_start_with,
    push_scalar, read_hex_quad, scalar_at, Decoded,
};
use crate::error::ParseErrorKind;
use crate::lexer::{
    after_blank, after_tag_chars, cut, double_mark, escape_at, iri_scan, is_local_escape,
    label_scan, lex, local_scan, mark, mark_of_start, name_run, name_scan, number_scan, single_mark,
    string_end, string_scan, string_start, tag_scan, token_at, token_text, without_trailing_dots,
    word, Escaped, Lexed, RawToken, RawTokenModel, Scanned, ScannedModel, Token, TokenKind,
};
use crate::numeric::{skip_digits, skip_sign};
use vstd::prelude::*;
use vstd::slice::{slice_subrange, slice_to_vec};
use vstd::utf8::{decode_utf8, valid_utf8};

verus! {

/// Tells whether a scan that is over ended at or after `from` and within the input.
pub open spec fn ends_from(scanned: ScannedModel, from: int, len: int) -> bool {
    match scanned {
        ScannedModel::More => true,
        ScannedModel::Done { end, .. } => from <= end <= len,
        ScannedModel::Bad { end, .. } => from <= end <= len,
    }
}

/// `String::from_utf8`: the characters that the bytes encode, if they are
/// well-formed UTF-8, and nothing otherwise.
#[verifier::external_body]
pub(crate) fn text_of(bytes: Vec<u8>) -> (text: Option<String>)
    ensures
        text is Some <==> valid_utf8(bytes@),
        text is Some ==> text.unwrap()@ == decode_utf8(bytes@),
{
    String::from_utf8(bytes).ok()
}

/// A copy of the bytes from index `from` to index `to`.
fn copy_range(data: &[u8], from: usize, to: usize) -> (copy: Vec<u8>)
    requires
        from <= to <= data.len(),
    ensures
        copy@ == data@.subrange(from as int, to as int),
{
    slice_to_vec(slice_subrange(data, from, to))
}

/// Appends the bytes from index `from` to index `to`.
fn push_range(out: &mut Vec<u8>, data: &[u8], from: usize, to: usize)
    requires
        from <= to <= data.len(),
    ensures
        final(out)@ == old(out)@ + data@.subrange(from as int, to as int),
{
    let mut i: usize = from;
    while i < to
        invariant
            from <= i <= to <= data.len(),
            out@ == old(out)@ + data@.subrange(from as int, i as int),
        decreases to - i,
    {
        out.push(data[i]);
        i += 1;
        assert(out@ =~= old(out)@ + data@.subrange(from as int, i as int));
    }
    assert(out@ =~= old(out)@ + data@.subrange(from as int, to as int));
}

fn make_mark(kind: TokenKind, end: usize) -> (scanned: Scanned)
    ensures
        scanned@ == mark(kind, end as int),
{
    Scanned::Done { end, token: RawToken { kind, text: Vec::new(), local: Vec::new() } }
}

fn make_word(kind: TokenKind, end: usize, text: Vec<u8>) -> (scanned: Scanned)
    ensures
        scanned@ == word(kind, end as int, text@),
{
    Scanned::Done { end, token: RawToken { kind, text, local: Vec::new() } }
}

fn make_cut(data: &[u8], is_end: bool) -> (scanned: Scanned)
    ensures
        scanned@ == cut(data@, is_end),
{
    if is_end {
        Scanned::Bad { end: data.len(), kind: ParseErrorKind::UnexpectedEof }
    } else {
        Scanned::More
    }
}

/// Skips blanks and comments from index `from`.
pub(crate) fn skip_blank(data: &[u8], from: usize) -> (start: usize)
    requires
        from <= data.len(),
    ensures
        start == after_blank(data@, from as int, false),
        from <= start <= data.len(),
{
    let mut i: usize = from;
    let mut in_comment = false;
    loop
        invariant
            from <= i <= data.len(),
            after_blank(data@, from as int, false) == after_blank(data@, i as int, in_comment),
        decreases data.len() - i,
    {
        if i >= data.len() {
            return i;
        }
        let b = data[i];
        if in_comment {
            in_comment = b != LINE_FEED;
        } else if b == SPACE || b == TAB || b == LINE_FEED || b == CARRIAGE_RETURN {
        } else if b == HASH {
            in_comment = true;
        } else {
            return i;
        }
        i += 1;
    }
}

/// A run of name characters ends at or after the index it starts at.
proof fn lemma_name_run_from(data: Seq<u8>, is_end: bool, at: int)
    requires
        0 <= at,
    ensures
        name_run(data, is_end, at) is Some ==> name_run(data, is_end, at).unwrap() >= at,
    decreases data.len() - at,
{
    if at < data.len() {
        match scalar_at(data, at) {
            Decoded::Scalar { code, len } => {
                if len >= 1 && (is_name_char(code) || code == DOT) {
                    lemma_name_run_from(data, is_end, at + len);
                }
            },
            _ => {},
        }
    }
}

/// Finds the end of the run of name characters and dots that starts at `at`.
fn scan_name_run(data: &[u8], is_end: bool, at: usize) -> (end: Option<usize>)
    requires
        at <= data.len(),
    ensures
        match end {
            Some(end) => name_run(data@, is_end, at as int) == Some(end as int) && at <= end
                <= data.len(),
            None => name_run(data@, is_end, at as int) is None,
        },
{
    let mut i: usize = at;
    loop
        invariant
            at <= i <= data.len(),
            name_run(data@, is_end, at as int) == name_run(data@, is_end, i as int),
        decreases data.len() - i,
    {
        if i >= data.len() {
            return if is_end {
                Some(i)
            } else {
                None
            };
        }
        match decode_scalar(data, i) {
            Decoded::Scalar { code, len } => {
                if name_can_hold(code) || code == 0x2E {
                    i += len;
                } else {
                    return Some(i);
                }
            },
            Decoded::Cut => {
                return if is_end {
                    Some(i)
                } else {
                    None
                };
            },
            Decoded::Invalid => {
                return Some(i);
            },
        }
    }
}

/// Leaves out the dots at the end of the range from `from` to `to`.
fn trim_dots(data: &[u8], from: usize, to: usize) -> (end: usize)
    requires
        from <= to <= data.len(),
    ensures
        end == without_trailing_dots(data@, from as int, to as int),
        from <= end <= to,
        from < to && data@[from as int] != DOT ==> from < end,
{
    let mut end: usize = to;
    while end > from && data[end - 1] == DOT
        invariant
            from <= end <= to <= data.len(),
            without_trailing_dots(data@, from as int, to as int) == without_trailing_dots(
                data@,
                from as int,
                end as int,
            ),
            from < to && data@[from as int] != DOT ==> from < end,
        decreases end - from,
    {
        end -= 1;
    }
    end
}

/// Tells whether a backslash can stand before `b` in the local part of a name.
fn can_escape_in_local(b: u8) -> (yes: bool)
    ensures
        yes == is_local_escape(b),
{
    b == UNDERSCORE || b == 0x7E || b == DOT || b == MINUS || b == 0x21 || b == 0x24 || b == 0x26
        || b == SINGLE_QUOTE || b == LEFT_PAREN || b == RIGHT_PAREN || b == 0x2A || b == 0x2B || b
        == COMMA || b == SEMICOLON || b == 0x3D || b == 0x2F || b == 0x3F || b == HASH || b == AT
        || b == PERCENT
}

/// Ends a prefixed name whose local part was read up to `at`.
fn end_local(at: usize, prefix: Vec<u8>, local: Vec<u8>, dots: usize) -> (scanned: Scanned)
    requires
        dots <= at,
        dots <= local.len(),
    ensures
        scanned@ == (ScannedModel::Done {
            end: at - dots,
            token: RawTokenModel {
                kind: TokenKind::PrefixedName,
                text: prefix@,
                local: local@.take(local.len() - dots),
            },
        }),
{
    let ghost whole = local@;
    let mut local = local;
    let keep = local.len() - dots;
    local.truncate(keep);
    assert(local@ =~= whole.take(keep as int));
    Scanned::Done {
        end: at - dots,
        token: RawToken { kind: TokenKind::PrefixedName, text: prefix, local },
    }
}

/// Reads the local part of a prefixed name, which starts at `from`.
fn scan_local(data: &[u8], is_end: bool, from: usize, prefix: Vec<u8>) -> (scanned: Scanned)
    requires
        from <= data.len(),
    ensures
        scanned@ == local_scan(data@, is_end, from as int, prefix@, Seq::empty(), 0),
        ends_from(scanned@, from as int, data.len() as int),
{
    let mut local: Vec<u8> = Vec::new();
    let mut dots: usize = 0;
    let mut i: usize = from;
    loop
        invariant
            from <= i <= data.len(),
            dots <= i - from,
            dots <= local.len(),
            local_scan(data@, is_end, from as int, prefix@, Seq::empty(), 0) == local_scan(
                data@,
                is_end,
                i as int,
                prefix@,
                local@,
                dots as int,
            ),
        decreases data.len() - i,
    {
        if i >= data.len() {
            return if is_end {
                end_local(i, prefix, local, dots)
            } else {
                Scanned::More
            };
        }
        let b = data[i];
        if b == PERCENT {
            if data.len() - i <= 2 {
                return if is_end {
                    end_local(i, prefix, local, dots)
                } else {
                    Scanned::More
                };
            }
            if hex_digit(data[i + 1]).is_some() && hex_digit(data[i + 2]).is_some() {
                push_range(&mut local, data, i, i + 3);
                dots = 0;
                i += 3;
            } else {
                return end_local(i, prefix, local, dots);
            }
        } else if b == BACKSLASH {
            if data.len() - i <= 1 {
                return if is_end {
                    end_local(i, prefix, local, dots)
                } else {
                    Scanned::More
                };
            }
            if can_escape_in_local(data[i + 1]) {
                local.push(data[i + 1]);
                dots = 0;
                i += 2;
            } else {
                return end_local(i, prefix, local, dots);
            }
        } else if b == DOT {
            if local.len() == 0 {
                return end_local(i, prefix, local, dots);
            }
            local.push(DOT);
            dots += 1;
            i += 1;
        } else {
            match decode_scalar(data, i) {
                Decoded::Scalar { code, len } => {
                    let fits = if local.len() == 0 {
                        name_can_start_with(code) || code == 0x5F || (code >= 0x30 && code <= 0x39)
                            || code == 0x3A
                    } else {
                        name_can_hold(code) || code == 0x3A
                    };
                    if fits {
                        push_range(&mut local, data, i, i + len);
                        dots = 0;
                        i += len;
                    } else {
                        return end_local(i, prefix, local, dots);
                    }
                },
                Decoded::Cut => {
                    return if is_end {
                        end_local(i, prefix, local, dots)
                    } else {
                        Scanned::More
                    };
                },
                Decoded::Invalid => {
                    return end_local(i, prefix, local, dots);
                },
            }
        }
    }
}

/// Reads the prefixed name or the keyword that starts at `at`.
fn scan_name(data: &[u8], is_end: bool, at: usize) -> (scanned: Scanned)
    requires
        at < data.len(),
        data@[at as int] != DOT,
        name_run(data@, is_end, at as int) is Some ==> name_run(data@, is_end, at as int).unwrap()
            > at,
    ensures
        scanned@ == name_scan(data@, is_end, at as int),
        ends_from(scanned@, at + 1, data.len() as int),
{
    match scan_name_run(data, is_end, at) {
        None => Scanned::More,
        Some(run) => {
            let end = trim_dots(data, at, run);
            if end == run && run < data.len() && data[run] == COLON {
                let prefix = copy_range(data, at, run);
                scan_local(data, is_end, run + 1, prefix)
            } else {
                make_word(TokenKind::Keyword, end, copy_range(data, at, end))
            }
        },
    }
}

/// Reads the blank node label that starts at `at`, after `_:`.
fn scan_label(data: &[u8], is_end: bool, at: usize) -> (scanned: Scanned)
    requires
        at <= data.len(),
    ensures
        scanned@ == label_scan(data@, is_end, at as int),
        ends_from(scanned@, at as int, data.len() as int),
{
    if at >= data.len() {
        return make_cut(data, is_end);
    }
    match decode_scalar(data, at) {
        Decoded::Scalar { code, len } => {
            if name_can_start_with(code) || code == 0x5F || (code >= 0x30 && code <= 0x39) {
                match scan_name_run(data, is_end, at + len) {
                    None => Scanned::More,
                    Some(run) => {
                        let end = trim_dots(data, at + len, run);
                        make_word(TokenKind::BlankNodeLabel, end, copy_range(data, at, end))
                    },
                }
            } else {
                Scanned::Bad { end: at, kind: ParseErrorKind::Lexical }
            }
        },
        Decoded::Cut => {
            if is_end {
                Scanned::Bad { end: at, kind: ParseErrorKind::Lexical }
            } else {
                Scanned::More
            }
        },
        Decoded::Invalid => Scanned::Bad { end: at, kind: ParseErrorKind::Lexical },
    }
}

/// Reads the language tag or directive that starts at `at`, after `@`.
fn scan_tag(data: &[u8], is_end: bool, at: usize) -> (scanned: Scanned)
    requires
        at <= data.len(),
    ensures
        scanned@ == tag_scan(data@, is_end, at as int),
        ends_from(scanned@, at as int, data.len() as int),
{
    let mut end: usize = at;
    while end < data.len() && ((data[end] >= UPPER_A && data[end] <= UPPER_Z) || (data[end]
        >= LOWER_A && data[end] <= LOWER_Z) || (data[end] >= DIGIT_0 && data[end] <= DIGIT_9)
        || data[end] == MINUS)
        invariant
            at <= end <= data.len(),
            after_tag_chars(data@, at as int) == after_tag_chars(data@, end as int),
        decreases data.len() - end,
    {
        end += 1;
    }
    if end >= data.len() && !is_end {
        Scanned::More
    } else if end == at {
        Scanned::Bad { end: at, kind: ParseErrorKind::Lexical }
    } else {
        make_word(TokenKind::LangTag, end, copy_range(data, at, end))
    }
}

/// Reads the number that starts at `at`.
fn scan_number(data: &[u8], is_end: bool, at: usize) -> (scanned: Scanned)
    requires
        at < data.len(),
    ensures
        scanned@ == number_scan(data@, is_end, at as int),
        ends_from(scanned@, at + 1, data.len() as int),
{
    let len = data.len();
    let whole = skip_sign(data, at);
    let dot = skip_digits(data, whole);
    let has_dot = dot < len && data[dot] == DOT;
    let mark = if has_dot {
        skip_digits(data, dot + 1)
    } else {
        dot
    };
    let has_fraction = has_dot && mark > dot + 1;
    let has_mark = mark < len && (data[mark] == LOWER_E || data[mark] == UPPER_E);
    if has_mark {
        let exponent = skip_sign(data, mark + 1);
        let end = skip_digits(data, exponent);
        if end > exponent && (dot > whole || has_fraction) {
            return if end >= len && !is_end {
                Scanned::More
            } else {
                make_word(TokenKind::Double, end, copy_range(data, at, end))
            };
        }
        if exponent >= len && !is_end {
            return Scanned::More;
        }
    }
    if has_fraction {
        if mark >= len && !is_end {
            Scanned::More
        } else {
            make_word(TokenKind::Decimal, mark, copy_range(data, at, mark))
        }
    } else if has_dot && dot + 1 >= len && !is_end {
        Scanned::More
    } else if dot > whole {
        if dot >= len && !is_end {
            Scanned::More
        } else {
            make_word(TokenKind::Integer, dot, copy_range(data, at, dot))
        }
    } else if dot >= len && !is_end {
        Scanned::More
    } else {
        Scanned::Bad { end: at + 1, kind: ParseErrorKind::Lexical }
    }
}

/// Reads the escape sequence whose backslash is at index `at`.
fn read_escape(data: &[u8], is_end: bool, at: usize, in_string: bool) -> (escaped: Escaped)
    requires
        at < data.len(),
    ensures
        escaped == escape_at(data@, is_end, at as int, in_string),
        escaped matches Escaped::Value { len, code } ==> 2 <= len && at + len <= data.len()
            && is_scalar_value(code),
{
    let open = if is_end {
        Escaped::Eof
    } else {
        Escaped::More
    };
    let left = data.len() - at;
    if left <= 1 {
        return open;
    }
    let b = data[at + 1];
    if b == LOWER_U {
        if left < 6 {
            return open;
        }
        match read_hex_quad(data, at + 2) {
            Some(code) => {
                if code < 0xD800 || code >= 0xE000 {
                    Escaped::Value { len: 6, code }
                } else {
                    Escaped::Bad
                }
            },
            None => Escaped::Bad,
        }
    } else if b == UPPER_U {
        if left < 10 {
            return open;
        }
        match (read_hex_quad(data, at + 2), read_hex_quad(data, at + 6)) {
            (Some(high), Some(low)) => {
                if high <= 0x10 {
                    let code: u32 = high * 0x10000 + low;
                    if code < 0xD800 || code >= 0xE000 {
                        Escaped::Value { len: 10, code }
                    } else {
                        Escaped::Bad
                    }
                } else {
                    Escaped::Bad
                }
            },
            _ => Escaped::Bad,
        }
    } else if in_string {
        if b == 0x74 {
            Escaped::Value { len: 2, code: 0x09 }
        } else if b == 0x62 {
            Escaped::Value { len: 2, code: 0x08 }
        } else if b == 0x6E {
            Escaped::Value { len: 2, code: 0x0A }
        } else if b == 0x72 {
            Escaped::Value { len: 2, code: 0x0D }
        } else if b == 0x66 {
            Escaped::Value { len: 2, code: 0x0C }
        } else if b == DOUBLE_QUOTE || b == SINGLE_QUOTE || b == BACKSLASH {
            Escaped::Value { len: 2, code: b as u32 }
        } else {
            Escaped::Bad
        }
    } else {
        Escaped::Bad
    }
}

/// Reads the IRI reference whose text starts at `from`, after `<`.
fn scan_iri(data: &[u8], is_end: bool, from: usize) -> (scanned: Scanned)
    requires
        from <= data.len(),
    ensures
        scanned@ == iri_scan(data@, is_end, from as int, Seq::empty()),
        ends_from(scanned@, from as int, data.len() as int),
{
    let mut text: Vec<u8> = Vec::new();
    let mut i: usize = from;
    loop
        invariant
            from <= i <= data.len(),
            iri_scan(data@, is_end, from as int, Seq::empty()) == iri_scan(
                data@,
                is_end,
                i as int,
                text@,
            ),
        decreases data.len() - i,
    {
        if i >= data.len() {
            return make_cut(data, is_end);
        }
        let b = data[i];
        if b == GREATER_THAN {
            return make_word(TokenKind::IriRef, i + 1, text);
        } else if b == BACKSLASH {
            match read_escape(data, is_end, i, false) {
                Escaped::More => {
                    return Scanned::More;
                },
                Escaped::Eof => {
                    return make_cut(data, true);
                },
                Escaped::Bad => {
                    return Scanned::Bad { end: i + 1, kind: ParseErrorKind::Lexical };
                },
                Escaped::Value { len, code } => {
                    push_scalar(&mut text, code);
                    i += len;
                },
            }
        } else if b <= SPACE || b == LESS_THAN || b == DOUBLE_QUOTE || b == LEFT_BRACE || b
            == RIGHT_BRACE || b == 0x7C || b == CARET || b == 0x60 {
            return Scanned::Bad { end: i, kind: ParseErrorKind::Lexical };
        } else {
            text.push(b);
            i += 1;
        }
    }
}

/// Ends a string before index `end`.
fn end_string(end: usize, text: Vec<u8>, bad: bool) -> (scanned: Scanned)
    ensures
        scanned@ == string_end(end as int, text@, bad),
{
    if bad {
        Scanned::Bad { end, kind: ParseErrorKind::Lexical }
    } else {
        make_word(TokenKind::Text, end, text)
    }
}

/// Reads the string whose text starts at `from`, after its opening quotes.
fn scan_string(data: &[u8], is_end: bool, from: usize, quote: u8, long: bool) -> (scanned: Scanned)
    requires
        from <= data.len(),
    ensures
        scanned@ == string_scan(data@, is_end, from as int, quote, long, Seq::empty(), false),
        ends_from(scanned@, from as int, data.len() as int),
{
    let mut text: Vec<u8> = Vec::new();
    let mut bad = false;
    let mut i: usize = from;
    loop
        invariant
            from <= i <= data.len(),
            string_scan(data@, is_end, from as int, quote, long, Seq::empty(), false)
                == string_scan(data@, is_end, i as int, quote, long, text@, bad),
        decreases data.len() - i,
    {
        if i >= data.len() {
            return make_cut(data, is_end);
        }
        let b = data[i];
        if b == quote {
            if !long {
                return end_string(i + 1, text, bad);
            } else if data.len() - i <= 2 {
                return make_cut(data, is_end);
            } else if data[i + 1] == quote && data[i + 2] == quote {
                return end_string(i + 3, text, bad);
            } else {
                text.push(quote);
                i += 1;
            }
        } else if b == BACKSLASH {
            match read_escape(data, is_end, i, true) {
                Escaped::More => {
                    return Scanned::More;
                },
                Escaped::Eof => {
                    return make_cut(data, true);
                },
                Escaped::Bad => {
                    bad = true;
                    i += 1;
                },
                Escaped::Value { len, code } => {
                    push_scalar(&mut text, code);
                    i += len;
                },
            }
        } else if !long && (b == LINE_FEED || b == CARRIAGE_RETURN) {
            return Scanned::Bad { end: i, kind: ParseErrorKind::Lexical };
        } else {
            text.push(b);
            i += 1;
        }
    }
}

/// Reads the string whose opening quote is at index `at`.
fn scan_string_start(data: &[u8], is_end: bool, at: usize, quote: u8) -> (scanned: Scanned)
    requires
        at < data.len(),
    ensures
        scanned@ == string_start(data@, is_end, at as int, quote),
        ends_from(scanned@, at + 1, data.len() as int),
{
    let left = data.len() - at;
    if left <= 1 {
        make_cut(data, is_end)
    } else if data[at + 1] != quote {
        scan_string(data, is_end, at + 1, quote, false)
    } else if left <= 2 {
        if is_end {
            make_word(TokenKind::Text, at + 2, Vec::new())
        } else {
            Scanned::More
        }
    } else if data[at + 2] == quote {
        scan_string(data, is_end, at + 3, quote, true)
    } else {
        make_word(TokenKind::Text, at + 2, Vec::new())
    }
}

/// Reads the token that is the byte at `at` twice.
fn scan_double_mark(data: &[u8], is_end: bool, at: usize, kind: TokenKind) -> (scanned: Scanned)
    requires
        at < data.len(),
    ensures
        scanned@ == double_mark(data@, is_end, at as int, kind),
        ends_from(scanned@, at + 1, data.len() as int),
{
    if data.len() - at <= 1 {
        if is_end {
            make_mark(TokenKind::Unexpected, at + 1)
        } else {
            Scanned::More
        }
    } else if data[at + 1] == data[at] {
        make_mark(kind, at + 2)
    } else {
        make_mark(TokenKind::Unexpected, at + 1)
    }
}

/// The token that a byte alone is, if it is one.
fn single_mark_of(b: u8) -> (kind: Option<TokenKind>)
    ensures
        kind == single_mark(b),
{
    if b == SEMICOLON {
        Some(TokenKind::Semicolon)
    } else if b == COMMA {
        Some(TokenKind::Comma)
    } else if b == LEFT_PAREN {
        Some(TokenKind::LeftParen)
    } else if b == RIGHT_PAREN {
        Some(TokenKind::RightParen)
    } else if b == LEFT_BRACKET {
        Some(TokenKind::LeftBracket)
    } else if b == RIGHT_BRACKET {
        Some(TokenKind::RightBracket)
    } else if b == LEFT_BRACE {
        Some(TokenKind::LeftBrace)
    } else if b == RIGHT_BRACE {
        Some(TokenKind::RightBrace)
    } else {
        None
    }
}

/// Reads the token that starts at index `at`.
fn scan_token(data: &[u8], is_end: bool, at: usize) -> (scanned: Scanned)
    requires
        at < data.len(),
    ensures
        scanned@ == token_at(data@, is_end, at as int),
        ends_from(scanned@, at + 1, data.len() as int),
{
    let b = data[at];
    let left = data.len() - at;
    if b == LESS_THAN {
        if left <= 1 {
            make_cut(data, is_end)
        } else if data[at + 1] == LESS_THAN {
            make_mark(TokenKind::QuoteOpen, at + 2)
        } else {
            scan_iri(data, is_end, at + 1)
        }
    } else if b == GREATER_THAN {
        scan_double_mark(data, is_end, at, TokenKind::QuoteClose)
    } else if b == CARET {
        scan_double_mark(data, is_end, at, TokenKind::Carets)
    } else if b == UNDERSCORE {
        if left <= 1 {
            if is_end {
                make_mark(TokenKind::Unexpected, at + 1)
            } else {
                Scanned::More
            }
        } else if data[at + 1] == COLON {
            scan_label(data, is_end, at + 2)
        } else {
            make_mark(TokenKind::Unexpected, at + 1)
        }
    } else if b == DOUBLE_QUOTE || b == SINGLE_QUOTE {
        scan_string_start(data, is_end, at, b)
    } else if b == AT {
        scan_tag(data, is_end, at + 1)
    } else if b == DOT {
        if left <= 1 {
            if is_end {
                make_mark(TokenKind::Dot, at + 1)
            } else {
                Scanned::More
            }
        } else if data[at + 1] >= DIGIT_0 && data[at + 1] <= DIGIT_9 {
            scan_number(data, is_end, at)
        } else {
            make_mark(TokenKind::Dot, at + 1)
        }
    } else if b == PLUS || b == MINUS || (b >= DIGIT_0 && b <= DIGIT_9) {
        scan_number(data, is_end, at)
    } else {
        match single_mark_of(b) {
            Some(kind) => make_mark(kind, at + 1),
            None => {
                if b == COLON {
                    scan_local(data, is_end, at + 1, Vec::new())
                } else {
                    match decode_scalar(data, at) {
                        Decoded::Scalar { code, len } => {
                            if name_can_start_with(code) {
                                proof {
                                    lemma_name_run_from(data@, is_end, at + len);
                                }
                                scan_name(data, is_end, at)
                            } else {
                                make_mark(TokenKind::Unexpected, at + len)
                            }
                        },
                        Decoded::Cut => {
                            if is_end {
                                Scanned::Bad { end: data.len(), kind: ParseErrorKind::Lexical }
                            } else {
                                Scanned::More
                            }
                        },
                        Decoded::Invalid => Scanned::Bad {
                            end: at + 1,
                            kind: ParseErrorKind::Lexical,
                        },
                    }
                }
            },
        }
    }
}

/// Turns the bytes of a raw token into text.
fn decode_token(raw: RawToken) -> (token: Option<Token>)
    ensures
        match token {
            Some(token) => token_text(raw@) == Some(token@),
            None => token_text(raw@) is None,
        },
{
    let RawToken { kind, text, local } = raw;
    match text_of(text) {
        Some(text) => match text_of(local) {
            Some(local) => Some(Token { kind, text, local }),
            None => None,
        },
        None => None,
    }
}

/// Finds the byte order mark at the start of the document.
fn skip_mark_of_start(data: &[u8], is_end: bool, at_start: bool) -> (first: Option<usize>)
    ensures
        match first {
            Some(first) => mark_of_start(data@, is_end, at_start) == Some(first as int) && first
                <= data.len(),
            None => mark_of_start(data@, is_end, at_start) is None,
        },
{
    if !at_start {
        Some(0)
    } else if data.len() >= 3 {
        if data[0] == 0xEF && data[1] == 0xBB && data[2] == 0xBF {
            Some(3)
        } else {
            Some(0)
        }
    } else if is_end {
        Some(0)
    } else if data.len() == 0 || (data[0] == 0xEF && (data.len() == 1 || data[1] == 0xBB)) {
        None
    } else {
        Some(0)
    }
}

/// Reads the next token of `data`, the input that is left, where `is_end`
/// tells that no more bytes will come and `at_start` that nothing came before.
pub fn next_token(data: &[u8], is_end: bool, at_start: bool) -> (lexed: Lexed)
    ensures
        lexed@ == lex(data@, is_end, at_start),
        lexed matches Lexed::Token { start, end, .. } ==> start < end <= data.len(),
        lexed matches Lexed::Bad { start, end, .. } ==> start < end <= data.len(),
{
    proof {
        reveal(lex);
    }
    let first = match skip_mark_of_start(data, is_end, at_start) {
        Some(first) => first,
        None => {
            return Lexed::More;
        },
    };
    let start = skip_blank(data, first);
    if start >= data.len() {
        return if is_end {
            Lexed::End
        } else {
            Lexed::More
        };
    }
    match scan_token(data, is_end, start) {
        Scanned::More => Lexed::More,
        Scanned::Bad { end, kind } => Lexed::Bad { start, end, kind },
        Scanned::Done { end, token } => match decode_token(token) {
            Some(token) => Lexed::Token { start, end, token },
            None => Lexed::Bad { start, end, kind: ParseErrorKind::Lexical },
        },
    }
}

} // verus!
