//! The ASCII bytes that the pattern dialect gives a meaning to.

use vstd::prelude::*;

verus! {

pub const TAB: u8 = 0x09;
pub const LINE_FEED: u8 = 0x0a;
pub const FORM_FEED: u8 = 0x0c;
pub const CARRIAGE_RETURN: u8 = 0x0d;
pub const SPACE: u8 = 0x20;
pub const DOLLAR: u8 = 0x24;
pub const OPEN_PAREN: u8 = 0x28;
pub const CLOSE_PAREN: u8 = 0x29;
pub const STAR: u8 = 0x2a;
pub const PLUS: u8 = 0x2b;
pub const COMMA: u8 = 0x2c;
pub const DOT: u8 = 0x2e;
pub const DIGIT_0: u8 = 0x30;
pub const DIGIT_9: u8 = 0x39;
pub const QUESTION: u8 = 0x3f;
pub const UPPER_A: u8 = 0x41;
pub const UPPER_D: u8 = 0x44;
pub const UPPER_S: u8 = 0x53;
pub const UPPER_W: u8 = 0x57;
pub const UPPER_Z: u8 = 0x5a;
pub const OPEN_BRACKET: u8 = 0x5b;
pub const BACKSLASH: u8 = 0x5c;
pub const CLOSE_BRACKET: u8 = 0x5d;
pub const CARET: u8 = 0x5e;
pub const LOWER_A: u8 = 0x61;
pub const LOWER_D: u8 = 0x64;
pub const LOWER_S: u8 = 0x73;
pub const LOWER_W: u8 = 0x77;
pub const LOWER_Z: u8 = 0x7a;
pub const OPEN_BRACE: u8 = 0x7b;
pub const BAR: u8 = 0x7c;
pub const CLOSE_BRACE: u8 = 0x7d;

} // verus!
