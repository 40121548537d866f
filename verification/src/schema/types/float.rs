//! The float types. A float is held as its IEEE-754 bit pattern; what the
//! bits mean is stated here in whole numbers.

use crate::error::{ErrorKind, LqError};
use crate::schema::metadata::Meta;
use vstd::prelude::*;

verus! {

/// The layout of a binary floating point format: the number of bits of the
/// fraction and of the whole pattern.
pub struct FloatLayout {
    /// Two to the power of the number of fraction bits.
    pub fraction_end: int,
    /// The pattern of positive infinity: all exponent bits, no fraction bit.
    pub infinity: int,
    /// The pattern of negative zero: the sign bit alone.
    pub sign: int,
}

/// The layout of binary32.
pub open spec fn layout32() -> FloatLayout {
    FloatLayout { fraction_end: 0x80_0000, infinity: 0x7f80_0000, sign: 0x8000_0000 }
}

/// The layout of binary64.
pub open spec fn layout64() -> FloatLayout {
    FloatLayout {
        fraction_end: 0x10_0000_0000_0000,
        infinity: 0x7ff0_0000_0000_0000,
        sign: 0x8000_0000_0000_0000,
    }
}

/// The pattern without its sign bit.
pub open spec fn magnitude(l: FloatLayout, bits: int) -> int {
    if bits >= l.sign {
        bits - l.sign
    } else {
        bits
    }
}

/// Whether the sign bit is set.
pub open spec fn is_negative(l: FloatLayout, bits: int) -> bool {
    bits >= l.sign
}

/// Whether the pattern is a NaN.
pub open spec fn is_nan(l: FloatLayout, bits: int) -> bool {
    magnitude(l, bits) > l.infinity
}

/// Whether the pattern is an infinity.
pub open spec fn is_infinite(l: FloatLayout, bits: int) -> bool {
    magnitude(l, bits) == l.infinity
}

/// Whether the pattern is a zero.
pub open spec fn is_zero(l: FloatLayout, bits: int) -> bool {
    magnitude(l, bits) == 0
}

/// Whether the pattern is a subnormal number.
pub open spec fn is_subnormal(l: FloatLayout, bits: int) -> bool {
    0 < magnitude(l, bits) < l.fraction_end
}

/// A whole number that orders the patterns other than NaN as the numbers
/// that they stand for; the two zeros get the same.
pub open spec fn numeric_key(l: FloatLayout, bits: int) -> int {
    if is_negative(l, bits) {
        -magnitude(l, bits)
    } else {
        magnitude(l, bits)
    }
}

/// A whole number that orders all patterns: every NaN first, then from
/// negative infinity up to negative zero, then from positive zero up to
/// positive infinity.
pub open spec fn total_key(l: FloatLayout, bits: int) -> int {
    if is_nan(l, bits) {
        0
    } else if is_negative(l, bits) {
        l.sign - magnitude(l, bits)
    } else {
        l.sign + 1 + bits
    }
}

/// What a float type allows.
#[derive(Debug, Copy, Clone, PartialEq, Eq, Structural)]
pub struct FloatFlags {
    pub allow_nan: bool,
    pub allow_positive_infinity: bool,
    pub allow_negative_infinity: bool,
    pub allow_positive_zero: bool,
    pub allow_negative_zero: bool,
    pub allow_subnormal: bool,
}

/// Whether a float type with the given range and flags accepts a pattern.
/// NaN and the infinities go by their flags alone. Every other number has to
/// lie in the range, from `min` to `max`, both included; a zero or a
/// subnormal number needs its flag too.
pub open spec fn float_allowed(l: FloatLayout, min: int, max: int, flags: FloatFlags, bits: int)
    -> bool {
    if is_nan(l, bits) {
        flags.allow_nan
    } else if is_infinite(l, bits) {
        if is_negative(l, bits) {
            flags.allow_negative_infinity
        } else {
            flags.allow_positive_infinity
        }
    } else {
        &&& is_zero(l, bits) && is_negative(l, bits) ==> flags.allow_negative_zero
        &&& is_zero(l, bits) && !is_negative(l, bits) ==> flags.allow_positive_zero
        &&& is_subnormal(l, bits) ==> flags.allow_subnormal
        &&& numeric_key(l, min) <= numeric_key(l, bits) <= numeric_key(l, max)
    }
}

/// A 32 bit float within a range.
#[derive(Debug)]
pub struct TFloat32 {
    pub meta: Meta,
    /// The bits of the least number.
    pub min: u32,
    /// The bits of the greatest number.
    pub max: u32,
    pub flags: FloatFlags,
}

/// A 64 bit float within a range.
#[derive(Debug)]
pub struct TFloat64 {
    pub meta: Meta,
    /// The bits of the least number.
    pub min: u64,
    /// The bits of the greatest number.
    pub max: u64,
    pub flags: FloatFlags,
}

impl FloatFlags {
    /// Nothing but normal numbers.
    pub open spec fn spec_none() -> FloatFlags {
        FloatFlags {
            allow_nan: false,
            allow_positive_infinity: false,
            allow_negative_infinity: false,
            allow_positive_zero: false,
            allow_negative_zero: false,
            allow_subnormal: false,
        }
    }

    /// Nothing but normal numbers.
    #[verifier::when_used_as_spec(spec_none)]
    pub fn none() -> (f: FloatFlags)
        ensures
            f == Self::spec_none(),
    {
        FloatFlags {
            allow_nan: false,
            allow_positive_infinity: false,
            allow_negative_infinity: false,
            allow_positive_zero: false,
            allow_negative_zero: false,
            allow_subnormal: false,
        }
    }
}

/// The key of a 32 bit pattern that orders by number.
pub fn numeric_key32(bits: u32) -> (k: i64)
    ensures
        k == numeric_key(layout32(), bits as int),
{
    if bits >= 0x8000_0000 {
        -((bits - 0x8000_0000) as i64)
    } else {
        bits as i64
    }
}

/// The key of a 64 bit pattern that orders by number.
pub fn numeric_key64(bits: u64) -> (k: i128)
    ensures
        k == numeric_key(layout64(), bits as int),
{
    if bits >= 0x8000_0000_0000_0000 {
        -((bits - 0x8000_0000_0000_0000) as i128)
    } else {
        bits as i128
    }
}

/// The key of a 32 bit pattern in the total order.
pub fn total_key32(bits: u32) -> (k: u64)
    ensures
        k == total_key(layout32(), bits as int),
{
    let negative = bits >= 0x8000_0000;
    let magnitude: u32 = if negative {
        bits - 0x8000_0000
    } else {
        bits
    };
    if magnitude > 0x7f80_0000 {
        0
    } else if negative {
        0x8000_0000u64 - magnitude as u64
    } else {
        0x8000_0001u64 + bits as u64
    }
}

/// The key of a 64 bit pattern in the total order.
pub fn total_key64(bits: u64) -> (k: u128)
    ensures
        k == total_key(layout64(), bits as int),
{
    let negative = bits >= 0x8000_0000_0000_0000;
    let magnitude: u64 = if negative {
        bits - 0x8000_0000_0000_0000
    } else {
        bits
    };
    if magnitude > 0x7ff0_0000_0000_0000 {
        0
    } else if negative {
        0x8000_0000_0000_0000u128 - magnitude as u128
    } else {
        0x8000_0000_0000_0001u128 + bits as u128
    }
}

/// Whether a 32 bit float type with the given range and flags accepts a
/// pattern.
pub fn float32_allowed(min: u32, max: u32, flags: &FloatFlags, bits: u32) -> (b: bool)
    ensures
        b == float_allowed(layout32(), min as int, max as int, *flags, bits as int),
{
    let negative = bits >= 0x8000_0000;
    let magnitude: u32 = if negative {
        bits - 0x8000_0000
    } else {
        bits
    };
    if magnitude > 0x7f80_0000 {
        flags.allow_nan
    } else if magnitude == 0x7f80_0000 {
        if negative {
            flags.allow_negative_infinity
        } else {
            flags.allow_positive_infinity
        }
    } else {
        if magnitude == 0 && negative && !flags.allow_negative_zero {
            return false;
        }
        if magnitude == 0 && !negative && !flags.allow_positive_zero {
            return false;
        }
        if 0 < magnitude && magnitude < 0x80_0000 && !flags.allow_subnormal {
            return false;
        }
        let key = numeric_key32(bits);
        numeric_key32(min) <= key && key <= numeric_key32(max)
    }
}

/// Whether a 64 bit float type with the given range and flags accepts a
/// pattern.
pub fn float64_allowed(min: u64, max: u64, flags: &FloatFlags, bits: u64) -> (b: bool)
    ensures
        b == float_allowed(layout64(), min as int, max as int, *flags, bits as int),
{
    let negative = bits >= 0x8000_0000_0000_0000;
    let magnitude: u64 = if negative {
        bits - 0x8000_0000_0000_0000
    } else {
        bits
    };
    if magnitude > 0x7ff0_0000_0000_0000 {
        flags.allow_nan
    } else if magnitude == 0x7ff0_0000_0000_0000 {
        if negative {
            flags.allow_negative_infinity
        } else {
            flags.allow_positive_infinity
        }
    } else {
        if magnitude == 0 && negative && !flags.allow_negative_zero {
            return false;
        }
        if magnitude == 0 && !negative && !flags.allow_positive_zero {
            return false;
        }
        if 0 < magnitude && magnitude < 0x10_0000_0000_0000 && !flags.allow_subnormal {
            return false;
        }
        let key = numeric_key64(bits);
        numeric_key64(min) <= key && key <= numeric_key64(max)
    }
}

impl TFloat32 {
    /// The bits of the least finite number.
    pub const MIN: u32 = 0xff7f_ffff;

    /// The bits of the greatest finite number.
    pub const MAX: u32 = 0x7f7f_ffff;

    /// The normal numbers from `min` to `max`, both given as bits.
    pub fn new(min: u32, max: u32) -> (t: Self)
        ensures
            t.meta.name is None && t.meta.doc is None,
            t.min == min,
            t.max == max,
            t.flags == FloatFlags::none(),
    {
        TFloat32 { meta: Meta::empty(), min, max, flags: FloatFlags::none() }
    }

    /// The normal numbers from `min` to `max`, both given as bits; an error
    /// where one of them is NaN or `min` is greater than `max`.
    pub fn try_new(min: u32, max: u32) -> (r: Result<Self, LqError>)
        ensures
            r matches Ok(made) ==> made.meta.name is None && made.meta.doc is None,
            match r {
                Ok(t) => t.min == min && t.max == max && t.flags == FloatFlags::none()
                    && !is_nan(layout32(), min as int) && !is_nan(layout32(), max as int)
                    && numeric_key(layout32(), min as int) <= numeric_key(
                    layout32(),
                    max as int,
                ),
                Err(e) => e.kind == ErrorKind::Schema && (is_nan(layout32(), min as int) || is_nan(
                    layout32(),
                    max as int,
                ) || numeric_key(layout32(), min as int) > numeric_key(layout32(), max as int)),
            },
    {
        if total_key32(min) == 0 || total_key32(max) == 0 || numeric_key32(min) > numeric_key32(
            max,
        ) {
            LqError::err_new(ErrorKind::Schema, "The given float range is invalid.")
        } else {
            Ok(TFloat32::new(min, max))
        }
    }

    /// All finite numbers.
    pub fn full() -> (t: Self)
        ensures
            t.meta.name is None && t.meta.doc is None,
            t.min == Self::MIN,
            t.max == Self::MAX,
            t.flags == FloatFlags::none(),
    {
        TFloat32::new(Self::MIN, Self::MAX)
    }

    /// The same type; NaN is accepted or not.
    pub fn with_allow_nan(self, allow: bool) -> (t: Self)
        ensures
            t.meta == self.meta,
            t.min == self.min,
            t.max == self.max,
            t.flags == (FloatFlags { allow_nan: allow, ..self.flags }),
    {
        TFloat32 {
            meta: self.meta,
            min: self.min,
            max: self.max,
            flags: FloatFlags { allow_nan: allow, ..self.flags },
        }
    }

    /// The same type; positive infinity is accepted or not.
    pub fn with_allow_positive_infinity(self, allow: bool) -> (t: Self)
        ensures
            t.meta == self.meta,
            t.min == self.min,
            t.max == self.max,
            t.flags == (FloatFlags { allow_positive_infinity: allow, ..self.flags }),
    {
        TFloat32 {
            meta: self.meta,
            min: self.min,
            max: self.max,
            flags: FloatFlags { allow_positive_infinity: allow, ..self.flags },
        }
    }

    /// The same type; negative infinity is accepted or not.
    pub fn with_allow_negative_infinity(self, allow: bool) -> (t: Self)
        ensures
            t.meta == self.meta,
            t.min == self.min,
            t.max == self.max,
            t.flags == (FloatFlags { allow_negative_infinity: allow, ..self.flags }),
    {
        TFloat32 {
            meta: self.meta,
            min: self.min,
            max: self.max,
            flags: FloatFlags { allow_negative_infinity: allow, ..self.flags },
        }
    }

    /// The same type; positive zero is accepted or not.
    pub fn with_allow_positive_zero(self, allow: bool) -> (t: Self)
        ensures
            t.meta == self.meta,
            t.min == self.min,
            t.max == self.max,
            t.flags == (FloatFlags { allow_positive_zero: allow, ..self.flags }),
    {
        TFloat32 {
            meta: self.meta,
            min: self.min,
            max: self.max,
            flags: FloatFlags { allow_positive_zero: allow, ..self.flags },
        }
    }

    /// The same type; negative zero is accepted or not.
    pub fn with_allow_negative_zero(self, allow: bool) -> (t: Self)
        ensures
            t.meta == self.meta,
            t.min == self.min,
            t.max == self.max,
            t.flags == (FloatFlags { allow_negative_zero: allow, ..self.flags }),
    {
        TFloat32 {
            meta: self.meta,
            min: self.min,
            max: self.max,
            flags: FloatFlags { allow_negative_zero: allow, ..self.flags },
        }
    }

    /// The same type; subnormal numbers are accepted or not.
    pub fn with_allow_subnormal(self, allow: bool) -> (t: Self)
        ensures
            t.meta == self.meta,
            t.min == self.min,
            t.max == self.max,
            t.flags == (FloatFlags { allow_subnormal: allow, ..self.flags }),
    {
        TFloat32 {
            meta: self.meta,
            min: self.min,
            max: self.max,
            flags: FloatFlags { allow_subnormal: allow, ..self.flags },
        }
    }
}

impl TFloat64 {
    /// The bits of the least finite number.
    pub const MIN: u64 = 0xffef_ffff_ffff_ffff;

    /// The bits of the greatest finite number.
    pub const MAX: u64 = 0x7fef_ffff_ffff_ffff;

    /// The normal numbers from `min` to `max`, both given as bits.
    pub fn new(min: u64, max: u64) -> (t: Self)
        ensures
            t.meta.name is None && t.meta.doc is None,
            t.min == min,
            t.max == max,
            t.flags == FloatFlags::none(),
    {
        TFloat64 { meta: Meta::empty(), min, max, flags: FloatFlags::none() }
    }

    /// The normal numbers from `min` to `max`, both given as bits; an error
    /// where one of them is NaN or `min` is greater than `max`.
    pub fn try_new(min: u64, max: u64) -> (r: Result<Self, LqError>)
        ensures
            r matches Ok(made) ==> made.meta.name is None && made.meta.doc is None,
            match r {
                Ok(t) => t.min == min && t.max == max && t.flags == FloatFlags::none()
                    && !is_nan(layout64(), min as int) && !is_nan(layout64(), max as int)
                    && numeric_key(layout64(), min as int) <= numeric_key(
                    layout64(),
                    max as int,
                ),
                Err(e) => e.kind == ErrorKind::Schema && (is_nan(layout64(), min as int) || is_nan(
                    layout64(),
                    max as int,
                ) || numeric_key(layout64(), min as int) > numeric_key(layout64(), max as int)),
            },
    {
        if total_key64(min) == 0 || total_key64(max) == 0 || numeric_key64(min) > numeric_key64(
            max,
        ) {
            LqError::err_new(ErrorKind::Schema, "The given float range is invalid.")
        } else {
            Ok(TFloat64::new(min, max))
        }
    }

    /// All finite numbers.
    pub fn full() -> (t: Self)
        ensures
            t.meta.name is None && t.meta.doc is None,
            t.min == Self::MIN,
            t.max == Self::MAX,
            t.flags == FloatFlags::none(),
    {
        TFloat64::new(Self::MIN, Self::MAX)
    }

    /// The same type; NaN is accepted or not.
    pub fn with_allow_nan(self, allow: bool) -> (t: Self)
        ensures
            t.meta == self.meta,
            t.min == self.min,
            t.max == self.max,
            t.flags == (FloatFlags { allow_nan: allow, ..self.flags }),
    {
        TFloat64 {
            meta: self.meta,
            min: self.min,
            max: self.max,
            flags: FloatFlags { allow_nan: allow, ..self.flags },
        }
    }

    /// The same type; positive infinity is accepted or not.
    pub fn with_allow_positive_infinity(self, allow: bool) -> (t: Self)
        ensures
            t.meta == self.meta,
            t.min == self.min,
            t.max == self.max,
            t.flags == (FloatFlags { allow_positive_infinity: allow, ..self.flags }),
    {
        TFloat64 {
            meta: self.meta,
            min: self.min,
            max: self.max,
            flags: FloatFlags { allow_positive_infinity: allow, ..self.flags },
        }
    }

    /// The same type; negative infinity is accepted or not.
    pub fn with_allow_negative_infinity(self, allow: bool) -> (t: Self)
        ensures
            t.meta == self.meta,
            t.min == self.min,
            t.max == self.max,
            t.flags == (FloatFlags { allow_negative_infinity: allow, ..self.flags }),
    {
        TFloat64 {
            meta: self.meta,
            min: self.min,
            max: self.max,
            flags: FloatFlags { allow_negative_infinity: allow, ..self.flags },
        }
    }

    /// The same type; positive zero is accepted or not.
    pub fn with_allow_positive_zero(self, allow: bool) -> (t: Self)
        ensures
            t.meta == self.meta,
            t.min == self.min,
            t.max == self.max,
            t.flags == (FloatFlags { allow_positive_zero: allow, ..self.flags }),
    {
        TFloat64 {
            meta: self.meta,
            min: self.min,
            max: self.max,
            flags: FloatFlags { allow_positive_zero: allow, ..self.flags },
        }
    }

    /// The same type; negative zero is accepted or not.
    pub fn with_allow_negative_zero(self, allow: bool) -> (t: Self)
        ensures
            t.meta == self.meta,
            t.min == self.min,
            t.max == self.max,
            t.flags == (FloatFlags { allow_negative_zero: allow, ..self.flags }),
    {
        TFloat64 {
            meta: self.meta,
            min: self.min,
            max: self.max,
            flags: FloatFlags { allow_negative_zero: allow, ..self.flags },
        }
    }

    /// The same type; subnormal numbers are accepted or not.
    pub fn with_allow_subnormal(self, allow: bool) -> (t: Self)
        ensures
            t.meta == self.meta,
            t.min == self.min,
            t.max == self.max,
            t.flags == (FloatFlags { allow_subnormal: allow, ..self.flags }),
    {
        TFloat64 {
            meta: self.meta,
            min: self.min,
            max: self.max,
            flags: FloatFlags { allow_subnormal: allow, ..self.flags },
        }
    }
}

} // verus!
