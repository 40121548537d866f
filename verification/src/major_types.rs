//! The major types of the wire format. The header byte has room for the
//! numbers 0 to 19.

use vstd::prelude::*;

verus! {

/// The boolean `false`.
pub const TYPE_BOOL_FALSE: u8 = 0;

/// The boolean `true`.
pub const TYPE_BOOL_TRUE: u8 = 1;

/// An option: absent, or present with one embedded value.
pub const TYPE_OPTION: u8 = 2;

/// A sequence: its elements are the embedded values.
pub const TYPE_SEQ: u8 = 3;

/// Binary data.
pub const TYPE_BINARY: u8 = 4;

/// UTF-8 text.
pub const TYPE_UNICODE: u8 = 5;

/// The enum variant with ordinal 0; its values are the embedded values.
pub const TYPE_ENUM_0: u8 = 6;

/// The enum variant with ordinal 1.
pub const TYPE_ENUM_1: u8 = 7;

/// The enum variant with ordinal 2.
pub const TYPE_ENUM_2: u8 = 8;

/// The enum variant with ordinal 3.
pub const TYPE_ENUM_3: u8 = 9;

/// An unsigned integer.
pub const TYPE_UINT: u8 = 10;

/// A signed integer.
pub const TYPE_SINT: u8 = 11;

/// A floating point number.
pub const TYPE_FLOAT: u8 = 12;

/// An enum variant with an ordinal of 4 or more; the ordinal is held as a
/// varint in the value's own bytes.
pub const TYPE_ENUM_N: u8 = 13;

} // verus!
