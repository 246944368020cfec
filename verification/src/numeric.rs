//! The lexical forms that Turtle can write without quotes: booleans, integers,
//! decimals and doubles. The productions are stated over UTF-8 bytes and are
//! shared by the writer, which decides whether a literal can be inlined, and
//! by the lexer, which reads such a literal back.

use vstd::prelude::*;
use vstd::string::StringSliceAdditionalSpecFns;
use crate::ascii::{DIGIT_0, DIGIT_9, DOT, LOWER_E, MINUS, PLUS, UPPER_E};

verus! {

/// `[0-9]`
pub open spec fn is_digit(b: u8) -> bool {
    DIGIT_0 <= b <= DIGIT_9
}

/// `[+-]`
pub open spec fn is_sign(b: u8) -> bool {
    b == PLUS || b == MINUS
}

/// `[eE]`
pub open spec fn is_exponent_mark(b: u8) -> bool {
    b == LOWER_E || b == UPPER_E
}

/// The index just past an optional sign standing at `at`.
pub open spec fn after_sign(s: Seq<u8>, at: int) -> int {
    if 0 <= at < s.len() && is_sign(s[at]) {
        at + 1
    } else {
        at
    }
}

/// The index just past the longest run of digits that starts at `at`.
pub open spec fn after_digits(s: Seq<u8>, at: int) -> int
    decreases s.len() - at,
{
    if 0 <= at < s.len() && is_digit(s[at]) {
        after_digits(s, at + 1)
    } else {
        at
    }
}

/// `true | false`
pub open spec fn is_boolean_form(s: Seq<u8>) -> bool {
    s == seq![0x74u8, 0x72u8, 0x75u8, 0x65u8] || s == seq![0x66u8, 0x61u8, 0x6Cu8, 0x73u8, 0x65u8]
}

/// `INTEGER ::= [+-]? [0-9]+`
pub open spec fn is_integer_form(s: Seq<u8>) -> bool {
    let digits = after_sign(s, 0);
    let end = after_digits(s, digits);
    end > digits && end == s.len()
}

/// `DECIMAL ::= [+-]? [0-9]* '.' [0-9]+`
pub open spec fn is_decimal_form(s: Seq<u8>) -> bool {
    let dot = after_digits(s, after_sign(s, 0));
    let end = after_digits(s, dot + 1);
    dot < s.len() && s[dot] == DOT && end > dot + 1 && end == s.len()
}

/// `DOUBLE ::= [+-]? ([0-9]+ '.' [0-9]* EXPONENT | '.' [0-9]+ EXPONENT | [0-9]+ EXPONENT)`
/// with `EXPONENT ::= [eE] [+-]? [0-9]+`.
pub open spec fn is_double_form(s: Seq<u8>) -> bool {
    let whole = after_sign(s, 0);
    let dot = after_digits(s, whole);
    let has_dot = dot < s.len() && s[dot] == DOT;
    let mark = if has_dot { after_digits(s, dot + 1) } else { dot };
    let exponent = after_sign(s, mark + 1);
    let end = after_digits(s, exponent);
    &&& dot > whole || (has_dot && mark > dot + 1)
    &&& mark < s.len() && is_exponent_mark(s[mark])
    &&& end > exponent && end == s.len()
}

/// A run of digits ends within the bytes, holds digits only, and ends before a
/// byte that is no digit.
pub proof fn lemma_after_digits_bounds(s: Seq<u8>, at: int)
    requires
        0 <= at <= s.len(),
    ensures
        at <= after_digits(s, at) <= s.len(),
        forall|i: int| at <= i < after_digits(s, at) ==> is_digit(#[trigger] s[i]),
        after_digits(s, at) < s.len() ==> !is_digit(s[after_digits(s, at)]),
    decreases s.len() - at,
{
    if at < s.len() && is_digit(s[at]) {
        lemma_after_digits_bounds(s, at + 1);
    }
}

/// Skips an optional sign.
pub(crate) fn skip_sign(s: &[u8], at: usize) -> (next: usize)
    requires
        at <= s.len(),
    ensures
        next == after_sign(s@, at as int),
        at <= next <= s.len(),
{
    if at < s.len() && (s[at] == PLUS || s[at] == MINUS) {
        at + 1
    } else {
        at
    }
}

/// Skips the longest run of digits.
pub(crate) fn skip_digits(s: &[u8], at: usize) -> (next: usize)
    requires
        at <= s.len(),
    ensures
        next == after_digits(s@, at as int),
        at <= next <= s.len(),
{
    let mut i: usize = at;
    while i < s.len() && s[i] >= DIGIT_0 && s[i] <= DIGIT_9
        invariant
            at <= i <= s.len(),
            after_digits(s@, at as int) == after_digits(s@, i as int),
        decreases s.len() - i,
    {
        i += 1;
    }
    i
}

/// Tells whether `value` is one of the two Turtle booleans.
pub fn is_turtle_boolean(value: &str) -> (inline: bool)
    ensures
        inline == is_boolean_form(value.spec_bytes()),
{
    let s = value.as_bytes();
    if s.len() == 4 {
        let r = s[0] == 0x74 && s[1] == 0x72 && s[2] == 0x75 && s[3] == 0x65;
        assert(r == (s@ =~= seq![0x74u8, 0x72u8, 0x75u8, 0x65u8]));
        r
    } else if s.len() == 5 {
        let r = s[0] == 0x66 && s[1] == 0x61 && s[2] == 0x6C && s[3] == 0x73 && s[4] == 0x65;
        assert(r == (s@ =~= seq![0x66u8, 0x61u8, 0x6Cu8, 0x73u8, 0x65u8]));
        r
    } else {
        false
    }
}

/// Tells whether `value` matches the Turtle production `INTEGER`.
pub fn is_turtle_integer(value: &str) -> (inline: bool)
    ensures
        inline == is_integer_form(value.spec_bytes()),
{
    let s = value.as_bytes();
    let digits = skip_sign(s, 0);
    let end = skip_digits(s, digits);
    end > digits && end == s.len()
}

/// Tells whether `value` matches the Turtle production `DECIMAL`.
pub fn is_turtle_decimal(value: &str) -> (inline: bool)
    ensures
        inline == is_decimal_form(value.spec_bytes()),
{
    let s = value.as_bytes();
    let whole = skip_sign(s, 0);
    let dot = skip_digits(s, whole);
    if dot >= s.len() || s[dot] != DOT {
        return false;
    }
    let end = skip_digits(s, dot + 1);
    end > dot + 1 && end == s.len()
}

/// Tells whether `value` matches the Turtle production `DOUBLE`.
pub fn is_turtle_double(value: &str) -> (inline: bool)
    ensures
        inline == is_double_form(value.spec_bytes()),
{
    let s = value.as_bytes();
    let whole = skip_sign(s, 0);
    let dot = skip_digits(s, whole);
    let with_before = dot > whole;
    let mut mark: usize = dot;
    let mut with_after = false;
    if dot < s.len() && s[dot] == DOT {
        mark = skip_digits(s, dot + 1);
        with_after = mark > dot + 1;
    }
    if mark >= s.len() || !(s[mark] == LOWER_E || s[mark] == UPPER_E) {
        return false;
    }
    let exponent = skip_sign(s, mark + 1);
    let end = skip_digits(s, exponent);
    (with_before || with_after) && end > exponent && end == s.len()
}

} // verus!
