//! Named byte values for the ASCII characters the filter syntax uses.

use vstd::prelude::*;

verus! {

pub const LOWER_A: u8 = 97;

pub const LOWER_Z: u8 = 122;

pub const UPPER_A: u8 = 65;

pub const UPPER_Z: u8 = 90;

pub const DIGIT_0: u8 = 48;

pub const DIGIT_9: u8 = 57;

pub const UNDERSCORE: u8 = 95;

pub const HYPHEN: u8 = 45;

pub const DOT: u8 = 46;

pub const PERCENT: u8 = 37;

pub const BANG: u8 = 33;

pub const HASH: u8 = 35;

pub const DOLLAR: u8 = 36;

pub const STAR: u8 = 42;

pub const CARET: u8 = 94;

pub const PIPE: u8 = 124;

pub const AT: u8 = 64;

pub const TILDE: u8 = 126;

pub const COMMA: u8 = 44;

pub const EQUALS: u8 = 61;

pub const SLASH: u8 = 47;

pub const COLON: u8 = 58;

pub const QUESTION: u8 = 63;

pub const SPACE: u8 = 32;

pub const TAB: u8 = 9;

pub const CR: u8 = 13;

/// The distance between an ASCII upper-case letter and its lower-case form.
pub const CASE_GAP: u8 = 32;

} // verus!
