//! The bytes of ASCII that the formats give a meaning to.

use vstd::prelude::*;

verus! {

/// The horizontal tab, first of the controls that count as white space.
pub const TAB: u8 = 0x09;

/// The line feed, which ends a line.
pub const LINE_FEED: u8 = 0x0a;

/// The carriage return, last of the controls that count as white space.
pub const CARRIAGE_RETURN: u8 = 0x0d;

/// The blank.
pub const BLANK: u8 = 0x20;

/// `+`
pub const PLUS: u8 = 0x2b;

/// `-`
pub const MINUS: u8 = 0x2d;

/// `.`
pub const POINT: u8 = 0x2e;

/// `/`
pub const SLASH: u8 = 0x2f;

/// `0`
pub const DIGIT_ZERO: u8 = 0x30;

/// `9`
pub const DIGIT_NINE: u8 = 0x39;

/// `A`
pub const CAPITAL_A: u8 = 0x41;

/// `Z`
pub const CAPITAL_Z: u8 = 0x5a;

/// `a`
pub const SMALL_A: u8 = 0x61;

/// `e`, which marks the exponent of a real.
pub const SMALL_E: u8 = 0x65;

/// `f`
pub const SMALL_F: u8 = 0x66;

/// `i`
pub const SMALL_I: u8 = 0x69;

/// `n`
pub const SMALL_N: u8 = 0x6e;

/// `t`
pub const SMALL_T: u8 = 0x74;

/// `v`
pub const SMALL_V: u8 = 0x76;

/// `y`
pub const SMALL_Y: u8 = 0x79;

/// What lies between a capital letter and its small letter.
pub const CASE_OFFSET: u8 = 0x20;

} // verus!
