//! Decimal numbers as text: `12.23`, `12`, `5e-4` or `4e3`. What a text
//! stands for is stated over its UTF-8 bytes.

use crate::error::{ErrorKind, LqError};
use vstd::prelude::*;
use vstd::string::*;

verus! {

/// A decimal number: the coefficient times ten to the power of the exponent.
/// Read from a text, the coefficient of a number other than zero does not
/// end in a zero, and zero has the exponent zero.
#[derive(Debug, Copy, Clone, PartialEq, Eq, Structural)]
pub struct Decimal {
    coefficient: i128,
    exponent: i8,
}

/// Whether every byte is a decimal digit.
pub open spec fn digit_bytes(s: Seq<u8>) -> bool {
    forall|i: int| 0 <= i < s.len() ==> 48 <= #[trigger] s[i] <= 57
}

/// The number that bytes of decimal digits stand for.
pub open spec fn digits_number(s: Seq<u8>) -> nat
    decreases s.len(),
{
    if s.len() == 0 {
        0
    } else {
        (10 * digits_number(s.drop_last()) + (s.last() - 48)) as nat
    }
}

/// The whole number that bytes stand for: an optional sign, then at least
/// one decimal digit and nothing else.
pub open spec fn signed_number(s: Seq<u8>) -> Option<int> {
    let signed = s.len() > 0 && (s[0] == 43 || s[0] == 45);
    let digits = if signed {
        s.subrange(1, s.len() as int)
    } else {
        s
    };
    if digits.len() == 0 || !digit_bytes(digits) {
        None
    } else if s[0] == 45 {
        Some(-(digits_number(digits) as int))
    } else {
        Some(digits_number(digits) as int)
    }
}

/// The least index from `from` up to `to` at which `s` holds `a` or `b`;
/// `to` where it holds none of them there.
pub open spec fn find_index(s: Seq<u8>, a: u8, b: u8, from: int, to: int) -> int
    decreases to - from,
{
    if from >= to || from < 0 || from >= s.len() {
        to
    } else if s[from] == a || s[from] == b {
        from
    } else {
        find_index(s, a, b, from + 1, to)
    }
}

/// The digits without the zeros at their end.
pub open spec fn strip_zeros(digits: Seq<u8>) -> Seq<u8>
    decreases digits.len(),
{
    if digits.len() > 0 && digits.last() == 48 {
        strip_zeros(digits.drop_last())
    } else {
        digits
    }
}

/// Where the mantissa of a decimal text ends: at the first `e` or `E`, or
/// at the end of the text.
pub open spec fn mantissa_end(s: Seq<u8>) -> int {
    find_index(s, 101, 69, 0, s.len() as int)
}

/// Where the digits of a decimal text start: behind its sign.
pub open spec fn digits_start(s: Seq<u8>) -> int {
    if s.len() > 0 && (s[0] == 43 || s[0] == 45) {
        1
    } else {
        0
    }
}

/// Where the point of a decimal text stands; the end of the mantissa where
/// it has none.
pub open spec fn point_index(s: Seq<u8>) -> int {
    find_index(s, 46, 46, digits_start(s), mantissa_end(s))
}

/// The digits before the point.
pub open spec fn whole_digits(s: Seq<u8>) -> Seq<u8> {
    s.subrange(digits_start(s), point_index(s))
}

/// The digits behind the point.
pub open spec fn fraction_digits(s: Seq<u8>) -> Seq<u8> {
    if point_index(s) < mantissa_end(s) {
        s.subrange(point_index(s) + 1, mantissa_end(s))
    } else {
        Seq::empty()
    }
}

/// The power of ten behind the `e`; zero where the text has none.
pub open spec fn power_of(s: Seq<u8>) -> Option<int> {
    if mantissa_end(s) < s.len() {
        signed_number(s.subrange(mantissa_end(s) + 1, s.len() as int))
    } else {
        Some(0)
    }
}

/// Whether bytes are a decimal text: an optional sign, digits, optionally a
/// point and more digits, optionally an `e` and a whole number.
pub open spec fn is_decimal_text(s: Seq<u8>) -> bool {
    &&& power_of(s) is Some
    &&& digits_start(s) <= mantissa_end(s)
    &&& whole_digits(s).len() > 0
    &&& digit_bytes(whole_digits(s))
    &&& digit_bytes(fraction_digits(s))
    &&& point_index(s) < mantissa_end(s) ==> fraction_digits(s).len() > 0
}

/// The coefficient and the exponent that a decimal text stands for, before
/// they are held to their widths. The zeros at the end of the digits go into
/// the exponent; zero has the exponent zero.
pub open spec fn decimal_of_text(s: Seq<u8>) -> Option<(int, int)> {
    let digits = whole_digits(s) + fraction_digits(s);
    let kept = strip_zeros(digits);
    let exponent = power_of(s).unwrap() - fraction_digits(s).len() + (digits.len() - kept.len());
    if !is_decimal_text(s) {
        None
    } else if kept.len() == 0 {
        Some((0, 0))
    } else if s[0] == 45 {
        Some((-(digits_number(kept) as int), exponent))
    } else {
        Some((digits_number(kept) as int, exponent))
    }
}

/// The decimal that a text stands for, where its coefficient fits in 128
/// bits without being the least number of that width, and its exponent fits
/// in 8 bits.
pub open spec fn decimal_of(s: Seq<u8>) -> Option<(i128, i8)> {
    match decimal_of_text(s) {
        Some((c, x)) => if -i128::MAX <= c <= i128::MAX && i8::MIN <= x <= i8::MAX {
            Some((c as i128, x as i8))
        } else {
            None
        },
        None => None,
    }
}

/// The number of digits with one more digit at their end.
pub proof fn lemma_digits_number_push(s: Seq<u8>, b: u8)
    requires
        48 <= b <= 57,
    ensures
        digits_number(s.push(b)) == 10 * digits_number(s) + (b - 48),
{
    assert(s.push(b).drop_last() =~= s);
}

/// Digits that other digits start with stand for a number that is at most
/// as large.
pub proof fn lemma_digits_number_prefix(s: Seq<u8>, k: int)
    requires
        0 <= k <= s.len(),
        digit_bytes(s),
    ensures
        digits_number(s.take(k)) <= digits_number(s),
    decreases s.len(),
{
    if k < s.len() {
        assert forall|i: int| 0 <= i < s.drop_last().len() implies 48 <= #[trigger] s.drop_last()[i]
            <= 57 by {
            assert(s.drop_last()[i] == s[i]);
        }
        lemma_digits_number_prefix(s.drop_last(), k);
        assert(s.drop_last().take(k) =~= s.take(k));
        assert(48 <= s[s.len() - 1] <= 57);
    } else {
        assert(s.take(k) =~= s);
    }
}

/// Digits of which a start does not end in a zero, and all behind it are
/// zeros, are stripped to that start.
pub proof fn lemma_strip_zeros_to(digits: Seq<u8>, m: int)
    requires
        0 <= m <= digits.len(),
        m > 0 ==> digits[m - 1] != 48,
        forall|i: int| m <= i < digits.len() ==> digits[i] == 48,
    ensures
        strip_zeros(digits) == digits.take(m),
    decreases digits.len(),
{
    if m < digits.len() {
        assert(digits.last() == 48);
        let shorter = digits.drop_last();
        assert forall|i: int| m <= i < shorter.len() implies shorter[i] == 48 by {
            assert(shorter[i] == digits[i]);
        }
        if m > 0 {
            assert(shorter[m - 1] == digits[m - 1]);
        }
        lemma_strip_zeros_to(shorter, m);
        assert(shorter.take(m) =~= digits.take(m));
    } else {
        assert(digits.take(m) =~= digits);
    }
}

/// Finds the first of two bytes in a part of the bytes.
fn find_byte(bytes: &[u8], a: u8, b: u8, from: usize, to: usize) -> (r: usize)
    requires
        from <= to <= bytes@.len(),
    ensures
        r == find_index(bytes@, a, b, from as int, to as int),
        from <= r <= to,
{
    let mut index: usize = from;
    while index < to
        invariant
            from <= index <= to <= bytes@.len(),
            find_index(bytes@, a, b, from as int, to as int) == find_index(
                bytes@,
                a,
                b,
                index as int,
                to as int,
            ),
        decreases to - index,
    {
        if bytes[index] == a || bytes[index] == b {
            return index;
        }
        index += 1;
    }
    to
}

/// Whether a part of the bytes holds nothing but decimal digits.
fn only_digits(bytes: &[u8], from: usize, to: usize) -> (b: bool)
    requires
        from <= to <= bytes@.len(),
    ensures
        b == digit_bytes(bytes@.subrange(from as int, to as int)),
{
    let ghost digits = bytes@.subrange(from as int, to as int);
    let mut index: usize = from;
    while index < to
        invariant
            from <= index <= to <= bytes@.len(),
            digits == bytes@.subrange(from as int, to as int),
            forall|i: int| 0 <= i < index - from ==> 48 <= #[trigger] digits[i] <= 57,
        decreases to - index,
    {
        if bytes[index] < 48 || bytes[index] > 57 {
            proof {
                assert(digits[index - from] == bytes@[index as int]);
            }
            return false;
        }
        proof {
            assert(digits[index - from] == bytes@[index as int]);
        }
        index += 1;
    }
    true
}

/// The number that the first `to` of the given digits stand for; nothing
/// where it is greater than `i128::MAX`.
fn digits_value(digits: &[u8], to: usize) -> (r: Option<u128>)
    requires
        to <= digits@.len(),
        digit_bytes(digits@),
    ensures
        match r {
            Some(v) => digits_number(digits@.take(to as int)) == v && v <= i128::MAX,
            None => digits_number(digits@.take(to as int)) > i128::MAX,
        },
{
    let ghost wanted = digits@.take(to as int);
    let mut value: u128 = 0;
    let mut index: usize = 0;
    proof {
        assert(wanted.take(0) =~= Seq::<u8>::empty());
        assert forall|i: int| 0 <= i < wanted.len() implies 48 <= #[trigger] wanted[i] <= 57 by {
            assert(wanted[i] == digits@[i]);
        }
    }
    while index < to
        invariant
            index <= to <= digits@.len(),
            wanted == digits@.take(to as int),
            digit_bytes(wanted),
            digit_bytes(digits@),
            digits_number(wanted.take(index as int)) == value,
            value <= i128::MAX,
        decreases to - index,
    {
        proof {
            assert(48 <= digits@[index as int] <= 57);
        }
        let digit = (digits[index] - 48) as u128;
        proof {
            let done = wanted.take(index as int);
            let next = wanted.take(index + 1);
            assert(wanted[index as int] == digits@[index as int]);
            assert(next =~= done.push(wanted[index as int]));
            lemma_digits_number_push(done, wanted[index as int]);
            lemma_digits_number_prefix(wanted, index + 1);
        }
        if value > (i128::MAX as u128 - digit) / 10 {
            return None;
        }
        value = value * 10 + digit;
        index += 1;
    }
    proof {
        assert(wanted.take(to as int) =~= wanted);
    }
    Some(value)
}

/// Reads a whole number with an optional sign from `start` to the end of
/// the bytes: nothing where there is none, and no value where its size is
/// above `i128::MAX`.
fn parse_power(bytes: &[u8], start: usize) -> (r: Option<Option<i128>>)
    requires
        start <= bytes@.len(),
    ensures
        match r {
            Some(Some(v)) => signed_number(bytes@.subrange(start as int, bytes@.len() as int))
                == Some(v as int) && -i128::MAX <= v,
            Some(None) => match signed_number(bytes@.subrange(start as int, bytes@.len() as int)) {
                Some(v) => v < -i128::MAX || v > i128::MAX,
                None => false,
            },
            None => signed_number(bytes@.subrange(start as int, bytes@.len() as int)) is None,
        },
{
    let len = bytes.len();
    let ghost part = bytes@.subrange(start as int, len as int);
    let signed = start < len && (bytes[start] == 43 || bytes[start] == 45);
    let negative = start < len && bytes[start] == 45;
    let first: usize = if signed {
        start + 1
    } else {
        start
    };
    proof {
        if part.len() > 0 {
            assert(part[0] == bytes@[start as int]);
        }
        if signed {
            assert(part.subrange(1, part.len() as int) =~= bytes@.subrange(first as int, len as int));
        } else {
            assert(part =~= bytes@.subrange(first as int, len as int));
        }
    }
    if first >= len || !only_digits(bytes, first, len) {
        return None;
    }
    let digits = vstd::slice::slice_subrange(bytes, first, len);
    proof {
        assert(digits@.take(digits@.len() as int) =~= digits@);
    }
    match digits_value(digits, len - first) {
        Some(v) => if negative {
            Some(Some(-(v as i128)))
        } else {
            Some(Some(v as i128))
        },
        None => Some(None),
    }
}

/// Where the parts of a decimal text stand, and the power of ten behind its
/// `e`.
struct Layout {
    start: usize,
    dot: usize,
    fraction_start: usize,
    end: usize,
    power: Option<i128>,
}

/// Finds the parts of a decimal text; nothing where the bytes are none.
fn scan(bytes: &[u8]) -> (r: Option<Layout>)
    ensures
        r is Some == is_decimal_text(bytes@),
        match r {
            Some(l) => {
                &&& l.start <= l.dot <= l.fraction_start <= l.end <= bytes@.len()
                &&& l.start == digits_start(bytes@)
                &&& whole_digits(bytes@) == bytes@.subrange(l.start as int, l.dot as int)
                &&& fraction_digits(bytes@) == bytes@.subrange(
                    l.fraction_start as int,
                    l.end as int,
                )
                &&& match l.power {
                    Some(p) => power_of(bytes@) == Some(p as int) && -i128::MAX <= p,
                    None => power_of(bytes@).unwrap() < -i128::MAX || power_of(bytes@).unwrap()
                        > i128::MAX,
                }
            },
            None => true,
        },
{
    let len = bytes.len();
    let end = find_byte(bytes, 101, 69, 0, len);
    let power: Option<i128> = if end < len {
        match parse_power(bytes, end + 1) {
            Some(p) => p,
            None => {
                return None;
            },
        }
    } else {
        Some(0)
    };
    let start: usize = if len > 0 && (bytes[0] == 43 || bytes[0] == 45) {
        1
    } else {
        0
    };
    if start > end {
        return None;
    }
    let dot = find_byte(bytes, 46, 46, start, end);
    let fraction_start: usize = if dot < end {
        dot + 1
    } else {
        end
    };
    proof {
        assert(bytes@.subrange(end as int, end as int) =~= Seq::<u8>::empty());
    }
    if dot == start || (dot < end && fraction_start == end) {
        return None;
    }
    if !only_digits(bytes, start, dot) || !only_digits(bytes, fraction_start, end) {
        return None;
    }
    Some(Layout { start, dot, fraction_start, end, power })
}

/// The digits before and behind the point, in one row.
fn collect_digits(bytes: &[u8], start: usize, dot: usize, fraction_start: usize, end: usize) -> (d:
    Vec<u8>)
    requires
        start <= dot <= fraction_start <= end <= bytes@.len(),
    ensures
        d@ == bytes@.subrange(start as int, dot as int) + bytes@.subrange(
            fraction_start as int,
            end as int,
        ),
{
    let mut digits: Vec<u8> = Vec::new();
    digits.extend_from_slice(vstd::slice::slice_subrange(bytes, start, dot));
    digits.extend_from_slice(vstd::slice::slice_subrange(bytes, fraction_start, end));
    digits
}

/// The number of digits that are left where the zeros at the end are
/// stripped.
fn kept_digits(digits: &Vec<u8>) -> (kept: usize)
    ensures
        kept <= digits@.len(),
        strip_zeros(digits@) == digits@.take(kept as int),
{
    let mut kept: usize = digits.len();
    while kept > 0 && digits[kept - 1] == 48
        invariant
            kept <= digits@.len(),
            forall|i: int| kept <= i < digits@.len() ==> digits@[i] == 48,
        decreases kept,
    {
        kept -= 1;
    }
    proof {
        lemma_strip_zeros_to(digits@, kept as int);
    }
    kept
}

impl Decimal {
    /// The coefficient.
    pub closed spec fn spec_coefficient(&self) -> i128 {
        self.coefficient
    }

    /// The exponent.
    pub closed spec fn spec_exponent(&self) -> i8 {
        self.exponent
    }

    /// The decimal of a coefficient and an exponent, as they are given.
    pub fn from_parts(coefficient: i128, exponent: i8) -> (d: Decimal)
        ensures
            d.spec_coefficient() == coefficient,
            d.spec_exponent() == exponent,
    {
        Decimal { coefficient, exponent }
    }

    /// The coefficient.
    pub fn coefficient(&self) -> (c: i128)
        ensures
            c == self.spec_coefficient(),
    {
        self.coefficient
    }

    /// The exponent.
    pub fn exponent(&self) -> (x: i8)
        ensures
            x == self.spec_exponent(),
    {
        self.exponent
    }

    /// The decimal that a text stands for; an error of the kind `TextParse`
    /// where it stands for none.
    pub fn try_from(text: &str) -> (r: Result<Decimal, LqError>)
        ensures
            match r {
                Ok(d) => decimal_of(text.spec_bytes()) == Some(
                    (d.spec_coefficient(), d.spec_exponent()),
                ),
                Err(e) => decimal_of(text.spec_bytes()) is None && e.kind == ErrorKind::TextParse,
            },
    {
        match Self::parse(text.as_bytes()) {
            Some(d) => Ok(d),
            None => LqError::err_new(
                ErrorKind::TextParse,
                "Expecting a decimal value; Valid decimal values look like this: 12.23, 12, 5e-4 or 4e3.",
            ),
        }
    }

    /// The decimal that the bytes of a text stand for.
    pub fn parse(bytes: &[u8]) -> (r: Option<Decimal>)
        ensures
            match r {
                Some(d) => decimal_of(bytes@) == Some((d.spec_coefficient(), d.spec_exponent())),
                None => decimal_of(bytes@) is None,
            },
    {
        let layout = match scan(bytes) {
            Some(l) => l,
            None => {
                return None;
            },
        };
        let negative = layout.start == 1 && bytes[0] == 45;
        let digits = collect_digits(
            bytes,
            layout.start,
            layout.dot,
            layout.fraction_start,
            layout.end,
        );
        let kept = kept_digits(&digits);
        if kept == 0 {
            return Some(Decimal { coefficient: 0, exponent: 0 });
        }
        proof {
            assert forall|i: int| 0 <= i < digits@.len() implies 48 <= #[trigger] digits@[i]
                <= 57 by {
                let whole = whole_digits(bytes@);
                let fraction = fraction_digits(bytes@);
                if i < whole.len() {
                    assert(digits@[i] == whole[i]);
                } else {
                    assert(digits@[i] == fraction[i - whole.len()]);
                }
            }
        }
        let fraction_len = layout.end - layout.fraction_start;
        let zeros = digits.len() - kept;
        let power = match layout.power {
            Some(p) => p,
            None => {
                return None;
            },
        };
        if power < -1000 - (zeros as i128) || power > 1000 + (fraction_len as i128) {
            return None;
        }
        let exponent: i128 = power - (fraction_len as i128) + (zeros as i128);
        if exponent < -128 || exponent > 127 {
            return None;
        }
        let value = match digits_value(digits.as_slice(), kept) {
            Some(v) => v,
            None => {
                return None;
            },
        };
        let coefficient = if negative {
            -(value as i128)
        } else {
            value as i128
        };
        Some(Decimal { coefficient, exponent: exponent as i8 })
    }
}

} // verus!
