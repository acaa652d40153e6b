//! The bytes that the wire format is made of: the marker of each kind of
//! frame, and the characters of numbers and truth values.

use vstd::prelude::*;

verus! {

/// `+`, the marker of a simple string.
pub const SIMPLE_STRING: u8 = 43;

/// `-`, the marker of a simple error.
pub const SIMPLE_ERROR: u8 = 45;

/// `:`, the marker of an integer.
pub const INTEGER: u8 = 58;

/// `$`, the marker of a bulk string and of the absent bulk string.
pub const BULK_STRING: u8 = 36;

/// `*`, the marker of an array and of the absent array.
pub const ARRAY: u8 = 42;

/// `_`, the marker of the null value.
pub const NULL: u8 = 95;

/// `#`, the marker of a truth value.
pub const BOOLEAN: u8 = 35;

/// `,`, the marker of a double.
pub const DOUBLE: u8 = 44;

/// `%`, the marker of a map.
pub const RESP_MAP: u8 = 37;

/// `~`, the marker of a set.
pub const RESP_SET: u8 = 126;

/// `+`, the sign of a number that is not negative.
pub const PLUS: u8 = 43;

/// `-`, the sign of a negative number.
pub const MINUS: u8 = 45;

/// `.`, the decimal point.
pub const POINT: u8 = 46;

/// `0`, the first of the decimal digits.
pub const ZERO: u8 = 48;

/// `1`, the digit of the absent values.
pub const ONE: u8 = 49;

/// `9`, the last of the decimal digits.
pub const NINE: u8 = 57;

/// `e`, the exponent marker.
pub const EXPONENT: u8 = 101;

/// `E`, the exponent marker as a capital letter.
pub const EXPONENT_CAPITAL: u8 = 69;

/// `t`, the truth value true.
pub const TRUE: u8 = 116;

/// `f`, the truth value false.
pub const FALSE: u8 = 102;

} // verus!
