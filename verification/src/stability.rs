//! What the lexer decides, it decides for good: an answer other than `More`
//! stays the same whatever bytes are added after the input at hand, and
//! whether or not the input ends there.

use crate::ascii::{BACKSLASH, COLON, DOT, GREATER_THAN, PERCENT};
use crate::chars::{hex_quad, hex_value, is_name_char, scalar_at, Decoded};
use crate::lexer::{
    after_blank, after_tag_chars, escape_at, iri_scan, is_local_char, is_local_escape, label_scan,
    lex, local_scan, name_run, name_scan, number_scan, string_scan, string_start, tag_scan,
    token_at, without_trailing_dots, Escaped, LexedModel, ScannedModel,
};
use crate::numeric::{after_digits, after_sign};
use vstd::prelude::*;

verus! {

proof fn lemma_after_blank_stable(data: Seq<u8>, more: Seq<u8>, at: int, in_comment: bool)
    requires
        0 <= at,
        after_blank(data, at, in_comment) < data.len(),
    ensures
        after_blank(data + more, at, in_comment) == after_blank(data, at, in_comment),
        at <= after_blank(data, at, in_comment),
    decreases data.len() - at,
{
    if at < data.len() {
        assert((data + more)[at] == data[at]);
        if in_comment {
            lemma_after_blank_stable(data, more, at + 1, data[at] != crate::ascii::LINE_FEED);
        } else if crate::lexer::is_blank(data[at]) {
            lemma_after_blank_stable(data, more, at + 1, false);
        } else if data[at] == crate::ascii::HASH {
            lemma_after_blank_stable(data, more, at + 1, true);
        }
    }
}

/// A run of digits that ends before the end of the input ends at the same place
/// whatever bytes are added.
pub proof fn lemma_after_digits_stable(data: Seq<u8>, more: Seq<u8>, at: int)
    requires
        0 <= at,
        after_digits(data, at) < data.len(),
    ensures
        after_digits(data + more, at) == after_digits(data, at),
    decreases data.len() - at,
{
    if at < data.len() {
        assert((data + more)[at] == data[at]);
        if crate::numeric::is_digit(data[at]) {
            lemma_after_digits_stable(data, more, at + 1);
        }
    }
}

proof fn lemma_after_tag_chars_stable(data: Seq<u8>, more: Seq<u8>, at: int)
    requires
        0 <= at,
        after_tag_chars(data, at) < data.len(),
    ensures
        after_tag_chars(data + more, at) == after_tag_chars(data, at),
        at <= after_tag_chars(data, at),
    decreases data.len() - at,
{
    if at < data.len() {
        assert((data + more)[at] == data[at]);
        if crate::lexer::is_tag_char(data[at]) {
            lemma_after_tag_chars_stable(data, more, at + 1);
        }
    }
}

proof fn lemma_scalar_at_stable(data: Seq<u8>, more: Seq<u8>, at: int)
    requires
        0 <= at < data.len(),
        scalar_at(data, at) != Decoded::Cut,
    ensures
        scalar_at(data + more, at) == scalar_at(data, at),
        scalar_at(data, at) matches Decoded::Scalar { len, .. } ==> 1 <= len && at + len
            <= data.len(),
{
    let longer = data + more;
    assert(longer[at] == data[at]);
    if at + 1 < data.len() {
        assert(longer[at + 1] == data[at + 1]);
    }
    if at + 2 < data.len() {
        assert(longer[at + 2] == data[at + 2]);
    }
    if at + 3 < data.len() {
        assert(longer[at + 3] == data[at + 3]);
    }
}

proof fn lemma_name_run_stable(data: Seq<u8>, more: Seq<u8>, is_end: bool, at: int)
    requires
        0 <= at,
        name_run(data, false, at) is Some,
    ensures
        name_run(data + more, is_end, at) == name_run(data, false, at),
        at <= name_run(data, false, at).unwrap() < data.len(),
    decreases data.len() - at,
{
    if at < data.len() {
        lemma_scalar_at_stable(data, more, at);
        match scalar_at(data, at) {
            Decoded::Scalar { code, len } => {
                if len >= 1 && (is_name_char(code) || code == DOT) {
                    lemma_name_run_stable(data, more, is_end, at + len);
                }
            },
            _ => {},
        }
    }
}

proof fn lemma_without_trailing_dots_stable(data: Seq<u8>, more: Seq<u8>, from: int, to: int)
    requires
        0 <= from,
        to <= data.len(),
    ensures
        without_trailing_dots(data + more, from, to) == without_trailing_dots(data, from, to),
        to >= from ==> from <= without_trailing_dots(data, from, to) <= to,
    decreases to - from,
{
    if from < to && 0 < to {
        assert((data + more)[to - 1] == data[to - 1]);
        if data[to - 1] == DOT {
            lemma_without_trailing_dots_stable(data, more, from, to - 1);
        }
    }
}

proof fn lemma_hex_quad_stable(data: Seq<u8>, more: Seq<u8>, at: int)
    requires
        0 <= at,
        at + 4 <= data.len(),
    ensures
        hex_quad(data + more, at) == hex_quad(data, at),
{
    let longer = data + more;
    assert(longer[at] == data[at]);
    assert(longer[at + 1] == data[at + 1]);
    assert(longer[at + 2] == data[at + 2]);
    assert(longer[at + 3] == data[at + 3]);
}

proof fn lemma_escape_at_stable(
    data: Seq<u8>,
    more: Seq<u8>,
    is_end: bool,
    at: int,
    in_string: bool,
)
    requires
        0 <= at < data.len(),
        escape_at(data, false, at, in_string) != Escaped::More,
    ensures
        escape_at(data + more, is_end, at, in_string) == escape_at(data, false, at, in_string),
        escape_at(data, false, at, in_string) matches Escaped::Value { len, .. } ==> 1 <= len
            && at + len <= data.len(),
{
    let longer = data + more;
    assert(longer[at + 1] == data[at + 1]);
    if at + 6 <= data.len() {
        lemma_hex_quad_stable(data, more, at + 2);
    }
    if at + 10 <= data.len() {
        lemma_hex_quad_stable(data, more, at + 6);
    }
}

proof fn lemma_iri_scan_stable(
    data: Seq<u8>,
    more: Seq<u8>,
    is_end: bool,
    at: int,
    text: Seq<u8>,
)
    requires
        0 <= at,
        iri_scan(data, false, at, text) != ScannedModel::More,
    ensures
        iri_scan(data + more, is_end, at, text) == iri_scan(data, false, at, text),
    decreases data.len() - at,
{
    if at < data.len() {
        assert((data + more)[at] == data[at]);
        if data[at] == GREATER_THAN {
        } else if data[at] == BACKSLASH {
            lemma_escape_at_stable(data, more, is_end, at, false);
            match escape_at(data, false, at, false) {
                Escaped::Value { len, code } => {
                    lemma_iri_scan_stable(
                        data,
                        more,
                        is_end,
                        at + len,
                        text + crate::chars::scalar_bytes(code),
                    );
                },
                _ => {},
            }
        } else if crate::lexer::is_iri_forbidden(data[at]) {
        } else {
            lemma_iri_scan_stable(data, more, is_end, at + 1, text.push(data[at]));
        }
    }
}

#[verifier::rlimit(50)]

proof fn lemma_string_scan_stable(
    data: Seq<u8>,
    more: Seq<u8>,
    is_end: bool,
    at: int,
    quote: u8,
    long: bool,
    text: Seq<u8>,
    bad: bool,
)
    requires
        0 <= at,
        string_scan(data, false, at, quote, long, text, bad) != ScannedModel::More,
    ensures
        string_scan(data + more, is_end, at, quote, long, text, bad) == string_scan(
            data,
            false,
            at,
            quote,
            long,
            text,
            bad,
        ),
    decreases data.len() - at,
{
    if at < data.len() {
        let longer = data + more;
        assert(longer[at] == data[at]);
        if data[at] == quote {
            if long && at + 2 < data.len() {
                assert(longer[at + 1] == data[at + 1]);
                assert(longer[at + 2] == data[at + 2]);
                if !(data[at + 1] == quote && data[at + 2] == quote) {
                    lemma_string_scan_stable(
                        data,
                        more,
                        is_end,
                        at + 1,
                        quote,
                        long,
                        text.push(quote),
                        bad,
                    );
                }
            }
        } else if data[at] == BACKSLASH {
            lemma_escape_at_stable(data, more, is_end, at, true);
            match escape_at(data, false, at, true) {
                Escaped::Value { len, code } => {
                    lemma_string_scan_stable(
                        data,
                        more,
                        is_end,
                        at + len,
                        quote,
                        long,
                        text + crate::chars::scalar_bytes(code),
                        bad,
                    );
                },
                Escaped::Bad => {
                    lemma_string_scan_stable(data, more, is_end, at + 1, quote, long, text, true);
                },
                _ => {},
            }
        } else if !long && (data[at] == crate::ascii::LINE_FEED || data[at]
            == crate::ascii::CARRIAGE_RETURN) {
        } else {
            lemma_string_scan_stable(
                data,
                more,
                is_end,
                at + 1,
                quote,
                long,
                text.push(data[at]),
                bad,
            );
        }
    }
}

#[verifier::rlimit(50)]

proof fn lemma_local_scan_stable(
    data: Seq<u8>,
    more: Seq<u8>,
    is_end: bool,
    at: int,
    prefix: Seq<u8>,
    local: Seq<u8>,
    dots: int,
)
    requires
        0 <= at,
        local_scan(data, false, at, prefix, local, dots) != ScannedModel::More,
    ensures
        local_scan(data + more, is_end, at, prefix, local, dots) == local_scan(
            data,
            false,
            at,
            prefix,
            local,
            dots,
        ),
    decreases data.len() - at,
{
    if at < data.len() {
        let longer = data + more;
        assert(longer[at] == data[at]);
        if data[at] == PERCENT {
            if at + 2 < data.len() {
                assert(longer[at + 1] == data[at + 1]);
                assert(longer[at + 2] == data[at + 2]);
                if hex_value(data[at + 1]) is Some && hex_value(data[at + 2]) is Some {
                    assert(longer.subrange(at, at + 3) =~= data.subrange(at, at + 3));
                    lemma_local_scan_stable(
                        data,
                        more,
                        is_end,
                        at + 3,
                        prefix,
                        local + data.subrange(at, at + 3),
                        0,
                    );
                }
            }
        } else if data[at] == BACKSLASH {
            if at + 1 < data.len() {
                assert(longer[at + 1] == data[at + 1]);
                if is_local_escape(data[at + 1]) {
                    lemma_local_scan_stable(
                        data,
                        more,
                        is_end,
                        at + 2,
                        prefix,
                        local.push(data[at + 1]),
                        0,
                    );
                }
            }
        } else if data[at] == DOT {
            if local.len() > 0 {
                lemma_local_scan_stable(
                    data,
                    more,
                    is_end,
                    at + 1,
                    prefix,
                    local.push(DOT),
                    dots + 1,
                );
            }
        } else {
            lemma_scalar_at_stable(data, more, at);
            match scalar_at(data, at) {
                Decoded::Scalar { code, len } => {
                    if len >= 1 && is_local_char(code, local.len() == 0) {
                        assert(longer.subrange(at, at + len) =~= data.subrange(at, at + len));
                        lemma_local_scan_stable(
                            data,
                            more,
                            is_end,
                            at + len,
                            prefix,
                            local + data.subrange(at, at + len),
                            0,
                        );
                    }
                },
                _ => {},
            }
        }
    }
}

proof fn lemma_name_scan_stable(data: Seq<u8>, more: Seq<u8>, is_end: bool, at: int)
    requires
        0 <= at,
        name_scan(data, false, at) != ScannedModel::More,
    ensures
        name_scan(data + more, is_end, at) == name_scan(data, false, at),
{
    lemma_name_run_stable(data, more, is_end, at);
    let run = name_run(data, false, at).unwrap();
    lemma_without_trailing_dots_stable(data, more, at, run);
    let end = without_trailing_dots(data, at, run);
    assert((data + more)[run] == data[run]);
    if end == run && data[run] == COLON {
        assert((data + more).subrange(at, run) =~= data.subrange(at, run));
        lemma_local_scan_stable(
            data,
            more,
            is_end,
            run + 1,
            data.subrange(at, run),
            Seq::empty(),
            0,
        );
    } else {
        assert((data + more).subrange(at, end) =~= data.subrange(at, end));
    }
}

proof fn lemma_label_scan_stable(data: Seq<u8>, more: Seq<u8>, is_end: bool, at: int)
    requires
        0 <= at,
        label_scan(data, false, at) != ScannedModel::More,
    ensures
        label_scan(data + more, is_end, at) == label_scan(data, false, at),
{
    if at < data.len() {
        lemma_scalar_at_stable(data, more, at);
        match scalar_at(data, at) {
            Decoded::Scalar { code, len } => {
                if crate::chars::is_name_start(code) || code == crate::ascii::UNDERSCORE
                    || crate::chars::is_digit_code(code) {
                    lemma_name_run_stable(data, more, is_end, at + len);
                    let run = name_run(data, false, at + len).unwrap();
                    lemma_without_trailing_dots_stable(data, more, at + len, run);
                    let end = without_trailing_dots(data, at + len, run);
                    assert((data + more).subrange(at, end) =~= data.subrange(at, end));
                }
            },
            _ => {},
        }
    }
}

proof fn lemma_tag_scan_stable(data: Seq<u8>, more: Seq<u8>, is_end: bool, at: int)
    requires
        0 <= at,
        tag_scan(data, false, at) != ScannedModel::More,
    ensures
        tag_scan(data + more, is_end, at) == tag_scan(data, false, at),
{
    lemma_after_tag_chars_stable(data, more, at);
    let end = after_tag_chars(data, at);
    assert((data + more).subrange(at, end) =~= data.subrange(at, end));
}

proof fn lemma_after_sign_stable(data: Seq<u8>, more: Seq<u8>, at: int)
    requires
        0 <= at < data.len(),
    ensures
        after_sign(data + more, at) == after_sign(data, at),
{
    assert((data + more)[at] == data[at]);
}

#[verifier::rlimit(50)]

proof fn lemma_number_scan_stable(data: Seq<u8>, more: Seq<u8>, is_end: bool, at: int)
    requires
        0 <= at < data.len(),
        number_scan(data, false, at) != ScannedModel::More,
    ensures
        number_scan(data + more, is_end, at) == number_scan(data, false, at),
{
    let longer = data + more;
    let len = data.len() as int;
    lemma_after_sign_stable(data, more, at);
    let whole = after_sign(data, at);
    crate::numeric::lemma_after_digits_bounds(data, whole);
    let dot = after_digits(data, whole);
    if dot < len {
        lemma_after_digits_stable(data, more, whole);
        assert(longer[dot] == data[dot]);
        let has_dot = data[dot] == DOT;
        if has_dot {
            crate::numeric::lemma_after_digits_bounds(data, dot + 1);
        }
        let mark = if has_dot {
            after_digits(data, dot + 1)
        } else {
            dot
        };
        if mark < len {
            if has_dot {
                lemma_after_digits_stable(data, more, dot + 1);
            }
            assert(longer[mark] == data[mark]);
            if crate::numeric::is_exponent_mark(data[mark]) {
                if mark + 1 < len {
                    lemma_after_sign_stable(data, more, mark + 1);
                    let exponent = after_sign(data, mark + 1);
                    crate::numeric::lemma_after_digits_bounds(data, exponent);
                    let end = after_digits(data, exponent);
                    if end < len {
                        lemma_after_digits_stable(data, more, exponent);
                        assert(longer.subrange(at, end) =~= data.subrange(at, end));
                    }
                }
            }
            assert(longer.subrange(at, mark) =~= data.subrange(at, mark));
        }
        assert(longer.subrange(at, dot) =~= data.subrange(at, dot));
    }
}

proof fn lemma_string_start_stable(
    data: Seq<u8>,
    more: Seq<u8>,
    is_end: bool,
    at: int,
    quote: u8,
)
    requires
        0 <= at < data.len(),
        string_start(data, false, at, quote) != ScannedModel::More,
    ensures
        string_start(data + more, is_end, at, quote) == string_start(data, false, at, quote),
{
    let longer = data + more;
    assert(longer[at + 1] == data[at + 1]);
    if data[at + 1] != quote {
        lemma_string_scan_stable(data, more, is_end, at + 1, quote, false, Seq::empty(), false);
    } else {
        assert(longer[at + 2] == data[at + 2]);
        if data[at + 2] == quote {
            lemma_string_scan_stable(data, more, is_end, at + 3, quote, true, Seq::empty(), false);
        }
    }
}

#[verifier::rlimit(50)]

proof fn lemma_token_at_stable(data: Seq<u8>, more: Seq<u8>, is_end: bool, at: int)
    requires
        0 <= at < data.len(),
        token_at(data, false, at) != ScannedModel::More,
    ensures
        token_at(data + more, is_end, at) == token_at(data, false, at),
{
    let longer = data + more;
    let b = data[at];
    assert(longer[at] == b);
    if at + 1 < data.len() {
        assert(longer[at + 1] == data[at + 1]);
    }
    if b == crate::ascii::LESS_THAN {
        if data[at + 1] != crate::ascii::LESS_THAN {
            lemma_iri_scan_stable(data, more, is_end, at + 1, Seq::empty());
        }
    } else if b == GREATER_THAN || b == crate::ascii::CARET {
    } else if b == crate::ascii::UNDERSCORE {
        if data[at + 1] == COLON {
            lemma_label_scan_stable(data, more, is_end, at + 2);
        }
    } else if b == crate::ascii::DOUBLE_QUOTE || b == crate::ascii::SINGLE_QUOTE {
        lemma_string_start_stable(data, more, is_end, at, b);
    } else if b == crate::ascii::AT {
        lemma_tag_scan_stable(data, more, is_end, at + 1);
    } else if b == DOT {
        if crate::numeric::is_digit(data[at + 1]) {
            lemma_number_scan_stable(data, more, is_end, at);
        }
    } else if crate::numeric::is_sign(b) || crate::numeric::is_digit(b) {
        lemma_number_scan_stable(data, more, is_end, at);
    } else if crate::lexer::single_mark(b) is Some {
    } else if b == COLON {
        lemma_local_scan_stable(data, more, is_end, at + 1, Seq::empty(), Seq::empty(), 0);
    } else {
        lemma_scalar_at_stable(data, more, at);
        match scalar_at(data, at) {
            Decoded::Scalar { code, len } => {
                if crate::chars::is_name_start(code) {
                    lemma_name_scan_stable(data, more, is_end, at);
                }
            },
            _ => {},
        }
    }
}

/// While more input can come, the lexer does not answer that the input has ended.
pub proof fn lemma_lex_needs_the_end(data: Seq<u8>, at_start: bool)
    ensures
        lex(data, false, at_start) != LexedModel::End,
{
    reveal(lex);
}

/// An answer of the lexer other than `More` stays the same whatever bytes are
/// added to the input, and whether or not the input ends after them.
pub proof fn lemma_lex_stable(data: Seq<u8>, more: Seq<u8>, is_end: bool, at_start: bool)
    requires
        lex(data, false, at_start) != LexedModel::More,
    ensures
        lex(data + more, is_end, at_start) == lex(data, false, at_start),
{
    reveal(lex);
    let longer = data + more;
    if data.len() > 0 {
        assert(longer[0] == data[0]);
    }
    if data.len() > 1 {
        assert(longer[1] == data[1]);
    }
    if data.len() > 2 {
        assert(longer[2] == data[2]);
    }
    let first = crate::lexer::mark_of_start(data, false, at_start).unwrap();
    let start = after_blank(data, first, false);
    if start < data.len() {
        lemma_after_blank_stable(data, more, first, false);
        lemma_token_at_stable(data, more, is_end, start);
    }
}

} // verus!
