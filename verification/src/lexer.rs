//! The lexer: from UTF-8 bytes to the tokens of the Turtle family.
//!
//! `lex` says, for the bytes that are left of the input and for whether more
//! can still come, what the next token is. Where the bytes at hand do not
//! decide that, the answer is `More`, and nothing is consumed: no answer but
//! `More` changes when bytes are added.

use crate::ascii::{
    AT, BACKSLASH, CARET, CARRIAGE_RETURN, COLON, COMMA, DIGIT_0, DIGIT_9, DOT, DOUBLE_QUOTE,
    GREATER_THAN, HASH, LEFT_BRACE, LEFT_BRACKET, LEFT_PAREN, LESS_THAN, LINE_FEED, LOWER_A,
    LOWER_U, LOWER_Z, MINUS, PERCENT, RIGHT_BRACE, RIGHT_BRACKET, RIGHT_PAREN, SEMICOLON,
    SINGLE_QUOTE, SPACE, TAB, UNDERSCORE, UPPER_A, UPPER_U, UPPER_Z,
};
use crate::chars::{
    hex_quad, hex_value, is_digit_code, is_name_char, is_name_start, is_scalar_value, scalar_at,
    scalar_bytes, Decoded,
};
use crate::error::ParseErrorKind;
use crate::numeric::{after_digits, after_sign, is_digit, is_exponent_mark, is_sign};
use vstd::prelude::*;
use vstd::utf8::{decode_utf8, valid_utf8};

verus! {

/// The kinds of token.
#[derive(Debug, Clone, Copy, PartialEq, Eq, Hash, Structural)]
pub enum TokenKind {
    /// `<...>`; the text is what stands between the brackets, unescaped.
    IriRef,
    /// `prefix:local`; the text is the prefix, the local part is unescaped.
    PrefixedName,
    /// `_:label`; the text is the label.
    BlankNodeLabel,
    /// `@tag`; the text is the tag.
    LangTag,
    Integer,
    Decimal,
    Double,
    /// A quoted string; the text is its value, unescaped.
    Text,
    /// A bare word such as `a`, `true` or `PREFIX`.
    Keyword,
    Dot,
    Semicolon,
    Comma,
    LeftParen,
    RightParen,
    LeftBracket,
    RightBracket,
    LeftBrace,
    RightBrace,
    /// `<<`
    QuoteOpen,
    /// `>>`
    QuoteClose,
    /// `^^`
    Carets,
    /// A character that starts no token.
    Unexpected,
}

/// A token whose text is still bytes.
#[derive(Debug)]
pub struct RawToken {
    pub kind: TokenKind,
    pub text: Vec<u8>,
    pub local: Vec<u8>,
}

/// What a raw token is.
pub struct RawTokenModel {
    pub kind: TokenKind,
    pub text: Seq<u8>,
    pub local: Seq<u8>,
}

impl View for RawToken {
    type V = RawTokenModel;

    open spec fn view(&self) -> RawTokenModel {
        RawTokenModel { kind: self.kind, text: self.text@, local: self.local@ }
    }
}

/// A token.
#[derive(Debug, Clone, PartialEq, Eq)]
pub struct Token {
    pub kind: TokenKind,
    pub text: String,
    pub local: String,
}

/// What a token is.
pub struct TokenModel {
    pub kind: TokenKind,
    pub text: Seq<char>,
    pub local: Seq<char>,
}

impl View for Token {
    type V = TokenModel;

    open spec fn view(&self) -> TokenModel {
        TokenModel { kind: self.kind, text: self.text@, local: self.local@ }
    }
}

/// What a scan from the first byte of a token finds.
#[derive(Debug)]
pub enum Scanned {
    More,
    Done { end: usize, token: RawToken },
    Bad { end: usize, kind: ParseErrorKind },
}

/// What a scan from the first byte of a token finds, as bytes.
pub enum ScannedModel {
    /// The bytes at hand do not decide it, and more can come.
    More,
    /// A token that ends before index `end`.
    Done { end: int, token: RawTokenModel },
    /// No token; the scan gave up before index `end`.
    Bad { end: int, kind: ParseErrorKind },
}

impl View for Scanned {
    type V = ScannedModel;

    open spec fn view(&self) -> ScannedModel {
        match self {
            Scanned::More => ScannedModel::More,
            Scanned::Done { end, token } => ScannedModel::Done { end: *end as int, token: token@ },
            Scanned::Bad { end, kind } => ScannedModel::Bad { end: *end as int, kind: *kind },
        }
    }
}

/// What an escape sequence stands for.
#[derive(Debug, Clone, Copy, PartialEq, Eq, Structural)]
pub enum Escaped {
    /// The bytes at hand do not hold the whole sequence, and more can come.
    More,
    /// The input ends inside the sequence.
    Eof,
    /// This is no escape sequence.
    Bad,
    /// A scalar value, escaped on `len` bytes.
    Value { len: usize, code: u32 },
}

/// What the next token is.
#[derive(Debug)]
pub enum Lexed {
    More,
    End,
    Token { start: usize, end: usize, token: Token },
    Bad { start: usize, end: usize, kind: ParseErrorKind },
}

/// What the next token is, as text.
pub enum LexedModel {
    /// The bytes at hand do not decide it, and more can come.
    More,
    /// Nothing but blanks and comments is left, and nothing more comes.
    End,
    /// A token that starts at index `start` and ends before index `end`.
    Token { start: int, end: int, token: TokenModel },
    /// No token starts at index `start`; the input is taken up before index `end`.
    Bad { start: int, end: int, kind: ParseErrorKind },
}

impl View for Lexed {
    type V = LexedModel;

    open spec fn view(&self) -> LexedModel {
        match self {
            Lexed::More => LexedModel::More,
            Lexed::End => LexedModel::End,
            Lexed::Token { start, end, token } => LexedModel::Token {
                start: *start as int,
                end: *end as int,
                token: token@,
            },
            Lexed::Bad { start, end, kind } => LexedModel::Bad {
                start: *start as int,
                end: *end as int,
                kind: *kind,
            },
        }
    }
}

/// A token of a kind that has no text.
pub open spec fn mark(kind: TokenKind, end: int) -> ScannedModel {
    ScannedModel::Done {
        end,
        token: RawTokenModel { kind, text: Seq::empty(), local: Seq::empty() },
    }
}

/// A token of a kind with its text.
pub open spec fn word(kind: TokenKind, end: int, text: Seq<u8>) -> ScannedModel {
    ScannedModel::Done { end, token: RawTokenModel { kind, text, local: Seq::empty() } }
}

/// What a scan answers where the input at hand ends inside a token.
pub open spec fn cut(data: Seq<u8>, is_end: bool) -> ScannedModel {
    if is_end {
        ScannedModel::Bad { end: data.len() as int, kind: ParseErrorKind::UnexpectedEof }
    } else {
        ScannedModel::More
    }
}

/// Space, tab, line feed and carriage return.
pub open spec fn is_blank(b: u8) -> bool {
    b == SPACE || b == TAB || b == LINE_FEED || b == CARRIAGE_RETURN
}

/// The index of the first byte at or after `at` that is neither blank nor in
/// a comment; a comment runs from `#` to the end of its line.
pub open spec fn after_blank(data: Seq<u8>, at: int, in_comment: bool) -> int
    decreases data.len() - at,
{
    if at < 0 || at >= data.len() {
        at
    } else if in_comment {
        after_blank(data, at + 1, data[at] != LINE_FEED)
    } else if is_blank(data[at]) {
        after_blank(data, at + 1, false)
    } else if data[at] == HASH {
        after_blank(data, at + 1, true)
    } else {
        at
    }
}

/// The index just past the longest run of name characters and dots that
/// starts at `at`, or `None` where the run may go on with bytes still to come.
pub open spec fn name_run(data: Seq<u8>, is_end: bool, at: int) -> Option<int>
    decreases data.len() - at,
{
    if at < 0 || at >= data.len() {
        if is_end {
            Some(at)
        } else {
            None
        }
    } else {
        match scalar_at(data, at) {
            Decoded::Scalar { code, len } => if len >= 1 && (is_name_char(code) || code == DOT) {
                name_run(data, is_end, at + len)
            } else {
                Some(at)
            },
            Decoded::Cut => if is_end {
                Some(at)
            } else {
                None
            },
            Decoded::Invalid => Some(at),
        }
    }
}

/// The end of the range from `from` to `to` once the dots at its end are left out.
pub open spec fn without_trailing_dots(data: Seq<u8>, from: int, to: int) -> int
    decreases to - from,
{
    if from < to && 0 < to <= data.len() && data[to - 1] == DOT {
        without_trailing_dots(data, from, to - 1)
    } else {
        to
    }
}

/// The characters that a backslash can stand before in the local part of a name.
pub open spec fn is_local_escape(b: u8) -> bool {
    ||| b == UNDERSCORE
    ||| b == 0x7E
    ||| b == DOT
    ||| b == MINUS
    ||| b == 0x21
    ||| b == 0x24
    ||| b == 0x26
    ||| b == SINGLE_QUOTE
    ||| b == LEFT_PAREN
    ||| b == RIGHT_PAREN
    ||| b == 0x2A
    ||| b == 0x2B
    ||| b == COMMA
    ||| b == SEMICOLON
    ||| b == 0x3D
    ||| b == 0x2F
    ||| b == 0x3F
    ||| b == HASH
    ||| b == AT
    ||| b == PERCENT
}

/// Tells whether a character can stand in the local part of a name, at its
/// start or after it.
pub open spec fn is_local_char(code: u32, first: bool) -> bool {
    if first {
        is_name_start(code) || code == UNDERSCORE || is_digit_code(code) || code == COLON
    } else {
        is_name_char(code) || code == COLON
    }
}

/// The prefixed name whose local part goes on at `at`: `local` is what was
/// read of it, of which the last `dots` bytes are dots.
pub open spec fn local_scan(
    data: Seq<u8>,
    is_end: bool,
    at: int,
    prefix: Seq<u8>,
    local: Seq<u8>,
    dots: int,
) -> ScannedModel
    decreases data.len() - at,
{
    let done = ScannedModel::Done {
        end: at - dots,
        token: RawTokenModel {
            kind: TokenKind::PrefixedName,
            text: prefix,
            local: local.take(local.len() - dots),
        },
    };
    let open = if is_end {
        done
    } else {
        ScannedModel::More
    };
    if at < 0 || at >= data.len() {
        open
    } else if data[at] == PERCENT {
        if at + 2 >= data.len() {
            open
        } else if hex_value(data[at + 1]) is Some && hex_value(data[at + 2]) is Some {
            local_scan(data, is_end, at + 3, prefix, local + data.subrange(at, at + 3), 0)
        } else {
            done
        }
    } else if data[at] == BACKSLASH {
        if at + 1 >= data.len() {
            open
        } else if is_local_escape(data[at + 1]) {
            local_scan(data, is_end, at + 2, prefix, local.push(data[at + 1]), 0)
        } else {
            done
        }
    } else if data[at] == DOT {
        if local.len() == 0 {
            done
        } else {
            local_scan(data, is_end, at + 1, prefix, local.push(DOT), dots + 1)
        }
    } else {
        match scalar_at(data, at) {
            Decoded::Scalar { code, len } => if len >= 1 && is_local_char(code, local.len() == 0) {
                local_scan(
                    data,
                    is_end,
                    at + len,
                    prefix,
                    local + data.subrange(at, at + len),
                    0,
                )
            } else {
                done
            },
            Decoded::Cut => open,
            Decoded::Invalid => done,
        }
    }
}

/// The prefixed name or the keyword that starts at `at`.
pub open spec fn name_scan(data: Seq<u8>, is_end: bool, at: int) -> ScannedModel {
    match name_run(data, is_end, at) {
        None => ScannedModel::More,
        Some(run) => {
            let end = without_trailing_dots(data, at, run);
            if end == run && run < data.len() && data[run] == COLON {
                local_scan(data, is_end, run + 1, data.subrange(at, run), Seq::empty(), 0)
            } else {
                word(TokenKind::Keyword, end, data.subrange(at, end))
            }
        },
    }
}

/// The blank node label that starts at `at`, after `_:`.
pub open spec fn label_scan(data: Seq<u8>, is_end: bool, at: int) -> ScannedModel {
    if at >= data.len() {
        cut(data, is_end)
    } else {
        match scalar_at(data, at) {
            Decoded::Scalar { code, len } => if is_name_start(code) || code == UNDERSCORE
                || is_digit_code(code) {
                match name_run(data, is_end, at + len) {
                    None => ScannedModel::More,
                    Some(run) => {
                        let end = without_trailing_dots(data, at + len, run);
                        word(TokenKind::BlankNodeLabel, end, data.subrange(at, end))
                    },
                }
            } else {
                ScannedModel::Bad { end: at, kind: ParseErrorKind::Lexical }
            },
            Decoded::Cut => if is_end {
                ScannedModel::Bad { end: at, kind: ParseErrorKind::Lexical }
            } else {
                ScannedModel::More
            },
            Decoded::Invalid => ScannedModel::Bad { end: at, kind: ParseErrorKind::Lexical },
        }
    }
}

/// `[A-Za-z0-9-]`
pub open spec fn is_tag_char(b: u8) -> bool {
    (UPPER_A <= b <= UPPER_Z) || (LOWER_A <= b <= LOWER_Z) || (DIGIT_0 <= b <= DIGIT_9) || b
        == MINUS
}

/// The index just past the longest run of tag characters that starts at `at`.
pub open spec fn after_tag_chars(data: Seq<u8>, at: int) -> int
    decreases data.len() - at,
{
    if 0 <= at < data.len() && is_tag_char(data[at]) {
        after_tag_chars(data, at + 1)
    } else {
        at
    }
}

/// The language tag, or the directive, that starts at `at`, after `@`.
pub open spec fn tag_scan(data: Seq<u8>, is_end: bool, at: int) -> ScannedModel {
    let end = after_tag_chars(data, at);
    if end >= data.len() && !is_end {
        ScannedModel::More
    } else if end == at {
        ScannedModel::Bad { end: at, kind: ParseErrorKind::Lexical }
    } else {
        word(TokenKind::LangTag, end, data.subrange(at, end))
    }
}

/// The number that starts at `at`: the longest of an integer, a decimal and a
/// double that the bytes from `at` start with.
pub open spec fn number_scan(data: Seq<u8>, is_end: bool, at: int) -> ScannedModel {
    let whole = after_sign(data, at);
    let dot = after_digits(data, whole);
    let has_dot = dot < data.len() && data[dot] == DOT;
    let mark = if has_dot {
        after_digits(data, dot + 1)
    } else {
        dot
    };
    let has_fraction = has_dot && mark > dot + 1;
    let has_mark = mark < data.len() && is_exponent_mark(data[mark]);
    let exponent = after_sign(data, mark + 1);
    let end = after_digits(data, exponent);
    let is_double = has_mark && end > exponent && (dot > whole || has_fraction);
    let len = data.len();
    if is_double {
        if end >= len && !is_end {
            ScannedModel::More
        } else {
            word(TokenKind::Double, end, data.subrange(at, end))
        }
    } else if has_mark && exponent >= len && !is_end {
        ScannedModel::More
    } else if has_fraction {
        if mark >= len && !is_end {
            ScannedModel::More
        } else {
            word(TokenKind::Decimal, mark, data.subrange(at, mark))
        }
    } else if has_dot && dot + 1 >= len && !is_end {
        ScannedModel::More
    } else if dot > whole {
        if dot >= len && !is_end {
            ScannedModel::More
        } else {
            word(TokenKind::Integer, dot, data.subrange(at, dot))
        }
    } else if dot >= len && !is_end {
        ScannedModel::More
    } else {
        ScannedModel::Bad { end: at + 1, kind: ParseErrorKind::Lexical }
    }
}

/// The character that a letter after a backslash stands for in a string.
pub open spec fn short_escape(b: u8) -> Option<u32> {
    if b == 0x74 {
        Some(0x09u32)
    } else if b == 0x62 {
        Some(0x08u32)
    } else if b == 0x6E {
        Some(0x0Au32)
    } else if b == 0x72 {
        Some(0x0Du32)
    } else if b == 0x66 {
        Some(0x0Cu32)
    } else if b == DOUBLE_QUOTE || b == SINGLE_QUOTE || b == BACKSLASH {
        Some(b as u32)
    } else {
        None
    }
}

/// What the escape sequence stands for whose backslash is at index `at`:
/// `\uXXXX`, `\UXXXXXXXX` and, in a string, the short escapes.
pub open spec fn escape_at(data: Seq<u8>, is_end: bool, at: int, in_string: bool) -> Escaped {
    let open = if is_end {
        Escaped::Eof
    } else {
        Escaped::More
    };
    if at + 1 >= data.len() {
        open
    } else if data[at + 1] == LOWER_U {
        if at + 6 > data.len() {
            open
        } else {
            match hex_quad(data, at + 2) {
                Some(code) => if is_scalar_value(code) {
                    Escaped::Value { len: 6, code }
                } else {
                    Escaped::Bad
                },
                None => Escaped::Bad,
            }
        }
    } else if data[at + 1] == UPPER_U {
        if at + 10 > data.len() {
            open
        } else {
            match (hex_quad(data, at + 2), hex_quad(data, at + 6)) {
                (Some(high), Some(low)) => if high <= 0x10 && is_scalar_value(
                    (high * 0x10000 + low) as u32,
                ) {
                    Escaped::Value { len: 10, code: (high * 0x10000 + low) as u32 }
                } else {
                    Escaped::Bad
                },
                _ => Escaped::Bad,
            }
        }
    } else if in_string {
        match short_escape(data[at + 1]) {
            Some(code) => Escaped::Value { len: 2, code },
            None => Escaped::Bad,
        }
    } else {
        Escaped::Bad
    }
}

/// The characters that cannot stand in an IRI reference as they are.
pub open spec fn is_iri_forbidden(b: u8) -> bool {
    ||| b <= SPACE
    ||| b == LESS_THAN
    ||| b == DOUBLE_QUOTE
    ||| b == LEFT_BRACE
    ||| b == RIGHT_BRACE
    ||| b == 0x7C
    ||| b == CARET
    ||| b == 0x60
}

/// The IRI reference that goes on at `at`; `text` is what was read of it.
pub open spec fn iri_scan(data: Seq<u8>, is_end: bool, at: int, text: Seq<u8>) -> ScannedModel
    decreases data.len() - at,
{
    if at < 0 || at >= data.len() {
        cut(data, is_end)
    } else if data[at] == GREATER_THAN {
        word(TokenKind::IriRef, at + 1, text)
    } else if data[at] == BACKSLASH {
        match escape_at(data, is_end, at, false) {
            Escaped::More => ScannedModel::More,
            Escaped::Eof => cut(data, true),
            Escaped::Bad => ScannedModel::Bad { end: at + 1, kind: ParseErrorKind::Lexical },
            Escaped::Value { len, code } => if len >= 1 {
                iri_scan(data, is_end, at + len, text + scalar_bytes(code))
            } else {
                ScannedModel::More
            },
        }
    } else if is_iri_forbidden(data[at]) {
        ScannedModel::Bad { end: at, kind: ParseErrorKind::Lexical }
    } else {
        iri_scan(data, is_end, at + 1, text.push(data[at]))
    }
}

/// The string that goes on at `at`, between quotes `quote`, on one line or, if
/// `long`, between triple quotes; `text` is what was read of it. A backslash
/// that starts no escape sequence is passed over, and `bad` tells that there
/// was one: the string is then read up to its closing quotes and is no token.
pub open spec fn string_scan(
    data: Seq<u8>,
    is_end: bool,
    at: int,
    quote: u8,
    long: bool,
    text: Seq<u8>,
    bad: bool,
) -> ScannedModel
    decreases data.len() - at,
{
    if at < 0 || at >= data.len() {
        cut(data, is_end)
    } else if data[at] == quote {
        if !long {
            string_end(at + 1, text, bad)
        } else if at + 2 >= data.len() {
            cut(data, is_end)
        } else if data[at + 1] == quote && data[at + 2] == quote {
            string_end(at + 3, text, bad)
        } else {
            string_scan(data, is_end, at + 1, quote, long, text.push(quote), bad)
        }
    } else if data[at] == BACKSLASH {
        match escape_at(data, is_end, at, true) {
            Escaped::More => ScannedModel::More,
            Escaped::Eof => cut(data, true),
            Escaped::Bad => string_scan(data, is_end, at + 1, quote, long, text, true),
            Escaped::Value { len, code } => if len >= 1 {
                string_scan(data, is_end, at + len, quote, long, text + scalar_bytes(code), bad)
            } else {
                ScannedModel::More
            },
        }
    } else if !long && (data[at] == LINE_FEED || data[at] == CARRIAGE_RETURN) {
        ScannedModel::Bad { end: at, kind: ParseErrorKind::Lexical }
    } else {
        string_scan(data, is_end, at + 1, quote, long, text.push(data[at]), bad)
    }
}

/// What a string that ends before index `end` is.
pub open spec fn string_end(end: int, text: Seq<u8>, bad: bool) -> ScannedModel {
    if bad {
        ScannedModel::Bad { end, kind: ParseErrorKind::Lexical }
    } else {
        word(TokenKind::Text, end, text)
    }
}

/// The string whose opening quote is at index `at`.
pub open spec fn string_start(data: Seq<u8>, is_end: bool, at: int, quote: u8) -> ScannedModel {
    if at + 1 >= data.len() {
        cut(data, is_end)
    } else if data[at + 1] != quote {
        string_scan(data, is_end, at + 1, quote, false, Seq::empty(), false)
    } else if at + 2 >= data.len() {
        if is_end {
            word(TokenKind::Text, at + 2, Seq::empty())
        } else {
            ScannedModel::More
        }
    } else if data[at + 2] == quote {
        string_scan(data, is_end, at + 3, quote, true, Seq::empty(), false)
    } else {
        word(TokenKind::Text, at + 2, Seq::empty())
    }
}

/// The token that a byte alone is, if it is one.
pub open spec fn single_mark(b: u8) -> Option<TokenKind> {
    if b == SEMICOLON {
        Some(TokenKind::Semicolon)
    } else if b == COMMA {
        Some(TokenKind::Comma)
    } else if b == LEFT_PAREN {
        Some(TokenKind::LeftParen)
    } else if b == RIGHT_PAREN {
        Some(TokenKind::RightParen)
    } else if b == LEFT_BRACKET {
        Some(TokenKind::LeftBracket)
    } else if b == RIGHT_BRACKET {
        Some(TokenKind::RightBracket)
    } else if b == LEFT_BRACE {
        Some(TokenKind::LeftBrace)
    } else if b == RIGHT_BRACE {
        Some(TokenKind::RightBrace)
    } else {
        None
    }
}

/// The token that is written as the byte `b` twice, or `Unexpected` for `b`
/// alone, where `b` stands at index `at`.
pub open spec fn double_mark(
    data: Seq<u8>,
    is_end: bool,
    at: int,
    kind: TokenKind,
) -> ScannedModel {
    if at + 1 >= data.len() {
        if is_end {
            mark(TokenKind::Unexpected, at + 1)
        } else {
            ScannedModel::More
        }
    } else if data[at + 1] == data[at] {
        mark(kind, at + 2)
    } else {
        mark(TokenKind::Unexpected, at + 1)
    }
}

/// The token that starts at index `at`, which holds neither a blank nor `#`.
pub open spec fn token_at(data: Seq<u8>, is_end: bool, at: int) -> ScannedModel {
    let b = data[at];
    if b == LESS_THAN {
        if at + 1 >= data.len() {
            cut(data, is_end)
        } else if data[at + 1] == LESS_THAN {
            mark(TokenKind::QuoteOpen, at + 2)
        } else {
            iri_scan(data, is_end, at + 1, Seq::empty())
        }
    } else if b == GREATER_THAN {
        double_mark(data, is_end, at, TokenKind::QuoteClose)
    } else if b == CARET {
        double_mark(data, is_end, at, TokenKind::Carets)
    } else if b == UNDERSCORE {
        if at + 1 >= data.len() {
            if is_end {
                mark(TokenKind::Unexpected, at + 1)
            } else {
                ScannedModel::More
            }
        } else if data[at + 1] == COLON {
            label_scan(data, is_end, at + 2)
        } else {
            mark(TokenKind::Unexpected, at + 1)
        }
    } else if b == DOUBLE_QUOTE || b == SINGLE_QUOTE {
        string_start(data, is_end, at, b)
    } else if b == AT {
        tag_scan(data, is_end, at + 1)
    } else if b == DOT {
        if at + 1 >= data.len() {
            if is_end {
                mark(TokenKind::Dot, at + 1)
            } else {
                ScannedModel::More
            }
        } else if is_digit(data[at + 1]) {
            number_scan(data, is_end, at)
        } else {
            mark(TokenKind::Dot, at + 1)
        }
    } else if is_sign(b) || is_digit(b) {
        number_scan(data, is_end, at)
    } else if single_mark(b) is Some {
        mark(single_mark(b).unwrap(), at + 1)
    } else if b == COLON {
        local_scan(data, is_end, at + 1, Seq::empty(), Seq::empty(), 0)
    } else {
        match scalar_at(data, at) {
            Decoded::Scalar { code, len } => if is_name_start(code) {
                name_scan(data, is_end, at)
            } else {
                mark(TokenKind::Unexpected, at + len)
            },
            Decoded::Cut => if is_end {
                ScannedModel::Bad { end: data.len() as int, kind: ParseErrorKind::Lexical }
            } else {
                ScannedModel::More
            },
            Decoded::Invalid => ScannedModel::Bad { end: at + 1, kind: ParseErrorKind::Lexical },
        }
    }
}

/// The token that the bytes of a raw token are the UTF-8 encoding of, if
/// they are well-formed.
pub open spec fn token_text(raw: RawTokenModel) -> Option<TokenModel> {
    if valid_utf8(raw.text) && valid_utf8(raw.local) {
        Some(
            TokenModel {
                kind: raw.kind,
                text: decode_utf8(raw.text),
                local: decode_utf8(raw.local),
            },
        )
    } else {
        None
    }
}

/// The length of the byte order mark that the input starts with, if this is
/// the start of the document, or `None` where the bytes at hand could still
/// become a byte order mark.
pub open spec fn mark_of_start(data: Seq<u8>, is_end: bool, at_start: bool) -> Option<int> {
    if !at_start {
        Some(0)
    } else if data.len() >= 3 {
        if data[0] == 0xEF && data[1] == 0xBB && data[2] == 0xBF {
            Some(3)
        } else {
            Some(0)
        }
    } else if is_end {
        Some(0)
    } else if data.len() == 0 || (data[0] == 0xEF && (data.len() == 1 || data[1] == 0xBB)) {
        None
    } else {
        Some(0)
    }
}

/// The next token of `data`, the input that is left, where `is_end` tells
/// that no more bytes will come and `at_start` that nothing came before. A
/// byte order mark at the start of the document is passed over.
#[verifier::opaque]
pub open spec fn lex(data: Seq<u8>, is_end: bool, at_start: bool) -> LexedModel {
    match mark_of_start(data, is_end, at_start) {
        None => LexedModel::More,
        Some(first) => {
            let start = after_blank(data, first, false);
            if start >= data.len() {
                if is_end {
                    LexedModel::End
                } else {
                    LexedModel::More
                }
            } else {
                match token_at(data, is_end, start) {
                    ScannedModel::More => LexedModel::More,
                    ScannedModel::Bad { end, kind } => LexedModel::Bad { start, end, kind },
                    ScannedModel::Done { end, token } => match token_text(token) {
                        Some(token) => LexedModel::Token { start, end, token },
                        None => LexedModel::Bad { start, end, kind: ParseErrorKind::Lexical },
                    },
                }
            }
        },
    }
}

} // verus!
