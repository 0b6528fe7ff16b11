//! JET column type codes (coltyp field in `MSysObjects`).

use vstd::prelude::*;

verus! {

pub const BIT: u8 = 1;
pub const UNSIGNED_BYTE: u8 = 2;
pub const SHORT: u8 = 3;
pub const LONG: u8 = 4;
pub const CURRENCY: u8 = 5;
pub const IEEE_SINGLE: u8 = 6;
pub const IEEE_DOUBLE: u8 = 7;
pub const DATE_TIME: u8 = 8;
pub const BINARY: u8 = 9;
pub const TEXT: u8 = 10;
pub const LONG_BINARY: u8 = 11;
pub const LONG_TEXT: u8 = 12;
pub const GUID: u8 = 16;
pub const UNSIGNED_SHORT: u8 = 17;
pub const UNSIGNED_LONG: u8 = 14;
pub const LONG_LONG: u8 = 15;
pub const UNSIGNED_LONG_LONG: u8 = 18;

} // verus!
