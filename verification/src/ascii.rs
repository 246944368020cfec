//! Names for the ASCII bytes that the Turtle family of grammars gives a
//! meaning to.

use vstd::prelude::*;

verus! {

pub const TAB: u8 = 0x09;
pub const LINE_FEED: u8 = 0x0A;
pub const CARRIAGE_RETURN: u8 = 0x0D;
pub const SPACE: u8 = 0x20;
pub const DOUBLE_QUOTE: u8 = 0x22;
pub const HASH: u8 = 0x23;
pub const PERCENT: u8 = 0x25;
pub const SINGLE_QUOTE: u8 = 0x27;
pub const LEFT_PAREN: u8 = 0x28;
pub const RIGHT_PAREN: u8 = 0x29;
pub const PLUS: u8 = 0x2B;
pub const COMMA: u8 = 0x2C;
pub const MINUS: u8 = 0x2D;
pub const DOT: u8 = 0x2E;
pub const DIGIT_0: u8 = 0x30;
pub const DIGIT_9: u8 = 0x39;
pub const COLON: u8 = 0x3A;
pub const SEMICOLON: u8 = 0x3B;
pub const LESS_THAN: u8 = 0x3C;
pub const GREATER_THAN: u8 = 0x3E;
pub const AT: u8 = 0x40;
pub const UPPER_A: u8 = 0x41;
pub const UPPER_E: u8 = 0x45;
pub const UPPER_F: u8 = 0x46;
pub const UPPER_U: u8 = 0x55;
pub const UPPER_Z: u8 = 0x5A;
pub const LEFT_BRACKET: u8 = 0x5B;
pub const BACKSLASH: u8 = 0x5C;
pub const RIGHT_BRACKET: u8 = 0x5D;
pub const CARET: u8 = 0x5E;
pub const UNDERSCORE: u8 = 0x5F;
pub const LOWER_A: u8 = 0x61;
pub const LOWER_E: u8 = 0x65;
pub const LOWER_F: u8 = 0x66;
pub const LOWER_U: u8 = 0x75;
pub const LOWER_Z: u8 = 0x7A;
pub const LEFT_BRACE: u8 = 0x7B;
pub const RIGHT_BRACE: u8 = 0x7D;

} // verus!
