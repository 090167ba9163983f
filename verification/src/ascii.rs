//! The ASCII codes that the catalog grammar names.

use vstd::prelude::*;

verus! {

pub const NEWLINE: u8 = 0x0a;

pub const PLUS: u8 = 0x2b;

pub const MINUS: u8 = 0x2d;

pub const DOT: u8 = 0x2e;

pub const DIGIT_0: u8 = 0x30;

pub const DIGIT_5: u8 = 0x35;

pub const DIGIT_9: u8 = 0x39;

pub const UPPER_A: u8 = 0x41;

pub const UPPER_E: u8 = 0x45;

pub const UPPER_Z: u8 = 0x5a;

pub const LOWER_A: u8 = 0x61;

pub const LOWER_E: u8 = 0x65;

pub const LOWER_X: u8 = 0x78;

pub const LOWER_Z: u8 = 0x7a;

} // verus!
