//! The ASCII bytes that the grammars of this crate are written in.

use vstd::prelude::*;

verus! {

pub const TAB: u8 = 9;

pub const LF: u8 = 10;

pub const CR: u8 = 13;

pub const SPACE: u8 = 32;

pub const PLUS: u8 = 43;

pub const COMMA: u8 = 44;

pub const MINUS: u8 = 45;

pub const DOT: u8 = 46;

pub const ZERO: u8 = 48;

pub const FIVE: u8 = 53;

pub const NINE: u8 = 57;

pub const COLON: u8 = 58;

pub const GREATER: u8 = 62;

pub const UPPER_B: u8 = 66;

pub const UPPER_E: u8 = 69;

pub const UPPER_S: u8 = 83;

pub const UPPER_T: u8 = 84;

pub const UPPER_V: u8 = 86;

pub const UPPER_W: u8 = 87;

pub const LBRACKET: u8 = 91;

pub const RBRACKET: u8 = 93;

pub const UNDERSCORE: u8 = 95;

pub const LOWER_C: u8 = 99;

pub const LOWER_E: u8 = 101;

} // verus!
