//! Reading a text value as what a schema type expects.
//!
//! Naming:
//! - require: Returns an error when conversion is not possible.
//! - to: converts to some optional.

use crate::error::{ErrorKind, LqError};
use crate::identifier::{identifier_text_valid, joined, split_segments, Format, Identifier};
use crate::text::decimal::{decimal_of, Decimal};
use crate::text::value::{TextValue, Value};
use data_encoding::{BASE64_NOPAD, HEXLOWER_PERMISSIVE};
use vstd::prelude::*;
use vstd::string::*;
use vstd::utf8::{encode_utf8, is_ascii_chars};

verus! {

/// Converts text values.
pub struct Converter;

/// What an identifier is turned into text for.
#[derive(Debug, Copy, Clone, PartialEq, Eq, Structural)]
pub enum IdentifierType {
    StructField,
    EnumIdentifier,
}

/// Whether every character is a decimal digit.
pub open spec fn all_digits(s: Seq<char>) -> bool {
    forall|i: int| 0 <= i < s.len() ==> '0' <= #[trigger] s[i] <= '9'
}

/// The number that decimal digits stand for.
pub open spec fn number_of(s: Seq<char>) -> nat
    decreases s.len(),
{
    if s.len() == 0 {
        0
    } else {
        10 * number_of(s.drop_last()) + (s.last() as nat - '0' as nat) as nat
    }
}

/// The whole number that a text stands for: an optional sign, then at least
/// one decimal digit and nothing else. A text of an unsigned number has no
/// minus sign.
pub open spec fn integer_of(s: Seq<char>, signed: bool) -> Option<int> {
    if s.len() > 0 && s[0] == '+' {
        let digits = s.subrange(1, s.len() as int);
        if digits.len() > 0 && all_digits(digits) {
            Some(number_of(digits) as int)
        } else {
            None
        }
    } else if signed && s.len() > 0 && s[0] == '-' {
        let digits = s.subrange(1, s.len() as int);
        if digits.len() > 0 && all_digits(digits) {
            Some(-(number_of(digits) as int))
        } else {
            None
        }
    } else if s.len() > 0 && all_digits(s) {
        Some(number_of(s) as int)
    } else {
        None
    }
}

/// The unsigned number that a text value stands for: a whole number that is
/// not negative, or a text of decimal digits, where it fits in 128 bits.
pub open spec fn u128_of(value: Value) -> Option<u128> {
    match value {
        Value::I64(v) => if v >= 0 {
            Some(v as u128)
        } else {
            None
        },
        Value::Text(text) => match integer_of(text@, false) {
            Some(v) => if v <= u128::MAX {
                Some(v as u128)
            } else {
                None
            },
            None => None,
        },
        _ => None,
    }
}

/// The signed number that a text value stands for: a whole number, or a
/// text of a sign and decimal digits, where it fits in 128 bits.
pub open spec fn i128_of(value: Value) -> Option<i128> {
    match value {
        Value::I64(v) => Some(v as i128),
        Value::Text(text) => match integer_of(text@, true) {
            Some(v) => if i128::MIN <= v <= i128::MAX {
                Some(v as i128)
            } else {
                None
            },
            None => None,
        },
        _ => None,
    }
}

/// The boolean that a text value stands for: a boolean, or one of the texts
/// `true` and `false`.
pub open spec fn bool_of(value: Value) -> Option<bool> {
    match value {
        Value::Bool(b) => Some(b),
        Value::Text(text) => if text@ == "true"@ {
            Some(true)
        } else if text@ == "false"@ {
            Some(false)
        } else {
            None
        },
        _ => None,
    }
}

/// The decimal that a text value stands for: a text is read as a decimal
/// text, a whole number is the coefficient with the exponent zero. A float
/// stands for none: where its digits are meant, they are given as a text.
pub open spec fn decimal_value_of(value: Value) -> Option<(i128, i8)> {
    match value {
        Value::Text(text) => decimal_of(encode_utf8(text@)),
        Value::I64(v) => Some((v as i128, 0i8)),
        _ => None,
    }
}

/// The numbers that decimal digits stand for grow with the digits.
pub proof fn lemma_number_of_push(s: Seq<char>, c: char)
    ensures
        number_of(s.push(c)) == 10 * number_of(s) + (c as nat - '0' as nat) as nat,
{
    assert(s.push(c).drop_last() =~= s);
}

/// A longer row of digits stands for a number that is at least as large.
pub proof fn lemma_number_of_prefix(s: Seq<char>, k: int)
    requires
        0 <= k <= s.len(),
    ensures
        number_of(s.take(k)) <= number_of(s),
    decreases s.len(),
{
    if k < s.len() {
        lemma_number_of_prefix(s.drop_last(), k);
        assert(s.drop_last().take(k) =~= s.take(k));
    } else {
        assert(s.take(k) =~= s);
    }
}

/// Reads decimal digits from `start` on as a number; nothing where there is
/// no digit, something else than a digit, or the number does not fit.
fn parse_digits(text: &str, start: usize) -> (r: Option<u128>)
    requires
        text.is_ascii(),
        start <= text@.len(),
    ensures
        ({
            let digits = text@.subrange(start as int, text@.len() as int);
            match r {
                Some(v) => digits.len() > 0 && all_digits(digits) && number_of(digits) == v,
                None => !(digits.len() > 0 && all_digits(digits) && number_of(digits)
                    <= u128::MAX),
            }
        }),
{
    let len = text.unicode_len();
    if start >= len {
        return None;
    }
    let ghost digits = text@.subrange(start as int, len as int);
    let mut value: u128 = 0;
    let mut index: usize = start;
    proof {
        assert(digits.take(0) =~= Seq::<char>::empty());
    }
    while index < len
        invariant
            text.is_ascii(),
            len == text@.len(),
            start <= index <= len,
            digits == text@.subrange(start as int, len as int),
            all_digits(digits.take(index - start)),
            number_of(digits.take(index - start)) == value,
        decreases len - index,
    {
        let byte = text.get_ascii(index);
        if byte < 48 || byte > 57 {
            proof {
                assert(digits[index - start] == text@[index as int]);
            }
            return None;
        }
        let digit = (byte - 48) as u128;
        proof {
            let done = digits.take(index - start);
            let next = digits.take(index - start + 1);
            assert(next =~= done.push(digits[index - start]));
            lemma_number_of_push(done, digits[index - start]);
            assert(digits[index - start] == text@[index as int]);
            assert(all_digits(next));
            lemma_number_of_prefix(digits, index - start + 1);
        }
        if value > (u128::MAX - digit) / 10 {
            return None;
        }
        value = value * 10 + digit;
        index += 1;
    }
    proof {
        assert(digits.take(len - start) =~= digits);
    }
    Some(value)
}

/// The number that a hexadecimal digit of either case stands for.
pub open spec fn hex_digit(b: u8) -> Option<int> {
    if 48 <= b <= 57 {
        Some(b - 48)
    } else if 97 <= b <= 102 {
        Some(b - 87)
    } else if 65 <= b <= 70 {
        Some(b - 55)
    } else {
        None
    }
}

/// The bytes that hexadecimal digits of either case stand for, two digits
/// for one byte; nothing where the input has an odd length or holds
/// anything but such digits.
pub open spec fn hex_permissive_decoded(input: Seq<u8>) -> Option<Seq<u8>> {
    if input.len() % 2 == 0 && forall|i: int|
        0 <= i < input.len() ==> hex_digit(#[trigger] input[i]) is Some {
        Some(
            Seq::new(
                input.len() / 2,
                |i: int|
                    (16 * hex_digit(input[2 * i]).unwrap() + hex_digit(input[2 * i + 1]).unwrap()) as u8,
            ),
        )
    } else {
        None
    }
}

/// The name of what `BASE64_NOPAD.decode` of the crate data-encoding gives
/// for an input: the bytes that base64 without padding stands for, or
/// nothing where the input is no such text.
pub uninterp spec fn base64_nopad_decoded(input: Seq<u8>) -> Option<Seq<u8>>;

/// `HEXLOWER_PERMISSIVE.decode` of the crate data-encoding: the bytes that
/// the hexadecimal digits of the input stand for, read without regard to
/// their case; nothing where the input has an odd length or holds anything
/// else.
#[verifier::external_body]
pub(crate) fn hex_decode(input: &[u8]) -> (r: Option<Vec<u8>>)
    ensures
        hex_permissive_decoded(input@) == match r {
            Some(v) => Some(v@),
            None => None,
        },
{
    HEXLOWER_PERMISSIVE.decode(input).ok()
}

/// `BASE64_NOPAD.decode`: its result under its name.
#[verifier::external_body]
pub(crate) fn base64_decode(input: &[u8]) -> (r: Option<Vec<u8>>)
    ensures
        base64_nopad_decoded(input@) == match r {
            Some(v) => Some(v@),
            None => None,
        },
{
    BASE64_NOPAD.decode(input).ok()
}

/// Whether bytes start with `hex:`.
pub open spec fn has_hex_prefix(bytes: Seq<u8>) -> bool {
    bytes.len() >= 4 && bytes[0] == 104 && bytes[1] == 101 && bytes[2] == 120 && bytes[3] == 58
}

/// The bytes that the items of a sequence stand for, each a number up to
/// 255; nothing where one of them is something else.
pub open spec fn bytes_of_items(items: Seq<TextValue>) -> Option<Seq<u8>>
    decreases items.len(),
{
    if items.len() == 0 {
        Some(Seq::empty())
    } else {
        match bytes_of_items(items.drop_last()) {
            Some(bytes) => match u128_of(items.last().value) {
                Some(v) => if v <= u8::MAX {
                    Some(bytes.push(v as u8))
                } else {
                    None
                },
                None => None,
            },
            None => None,
        }
    }
}

/// The binary data that a text value stands for: a text that starts with
/// `hex:` and goes on in hexadecimal digits; any other text in base64
/// without padding; or a sequence of numbers up to 255.
pub open spec fn binary_of(value: Value) -> Option<Seq<u8>> {
    match value {
        Value::Text(text) => {
            let bytes = encode_utf8(text@);
            if has_hex_prefix(bytes) {
                hex_permissive_decoded(bytes.subrange(4, bytes.len() as int))
            } else {
                base64_nopad_decoded(bytes)
            }
        },
        Value::Sequence(items) => bytes_of_items(items@),
        _ => None,
    }
}

/// Where the bytes of a row of items are read, those of each row that it
/// starts with are read too.
pub proof fn lemma_bytes_of_items_prefix(items: Seq<TextValue>, k: int)
    requires
        0 <= k <= items.len(),
        bytes_of_items(items) is Some,
    ensures
        bytes_of_items(items.take(k)) is Some,
    decreases items.len(),
{
    if k < items.len() {
        lemma_bytes_of_items_prefix(items.drop_last(), k);
        assert(items.drop_last().take(k) =~= items.take(k));
    } else {
        assert(items.take(k) =~= items);
    }
}

/// A number halved the given number of times; nothing where that leaves a
/// remainder.
pub open spec fn halved(number: int, times: nat) -> Option<int>
    decreases times,
{
    if times == 0 {
        Some(number)
    } else if number % 2 != 0 {
        None
    } else {
        halved(number / 2, (times - 1) as nat)
    }
}

/// The bits of the binary32 float that stands for the same number as the
/// binary64 float with the given bits. Nothing where there is none, and for
/// NaN and the infinities. The zeros keep their sign.
pub open spec fn narrowed(bits: u64) -> Option<u32> {
    let sign: int = if bits >= 0x8000_0000_0000_0000 {
        0x8000_0000
    } else {
        0
    };
    let magnitude: int = bits as int % 0x8000_0000_0000_0000;
    let exponent: int = magnitude / 0x10_0000_0000_0000;
    let fraction: int = magnitude % 0x10_0000_0000_0000;
    if exponent == 0x7ff {
        None
    } else if magnitude == 0 {
        Some(sign as u32)
    } else if 897 <= exponent <= 1150 {
        // a normal number of binary32: the fraction has to fit in 23 bits
        if fraction % 0x2000_0000 == 0 {
            Some((sign + (exponent - 896) * 0x80_0000 + fraction / 0x2000_0000) as u32)
        } else {
            None
        }
    } else if 874 <= exponent <= 896 {
        // a subnormal number of binary32: a multiple of the least of them
        match halved(0x10_0000_0000_0000 + fraction, (926 - exponent) as nat) {
            Some(multiple) => if 0 < multiple <= 0x7f_ffff {
                Some((sign + multiple) as u32)
            } else {
                None
            },
            None => None,
        }
    } else {
        None
    }
}

impl Converter {
    /// Converts an identifier to a string suited for the text format.
    pub fn identifier_to_string(identifier: &Identifier, what_for: IdentifierType) -> (s: String)
        ensures
            s@ == joined(identifier@),
    {
        match what_for {
            IdentifierType::StructField => identifier.to_string(Format::SnakeCase),
            IdentifierType::EnumIdentifier => identifier.to_string(Format::SnakeCase),
        }
    }

    /// The identifier that a text of the text format stands for.
    pub fn string_to_identifier(value: &str, what_for: IdentifierType) -> (r: Result<
        Identifier,
        LqError,
    >)
        ensures
            match r {
                Ok(id) => identifier_text_valid(value@) && id@ == split_segments(value@),
                Err(e) => !identifier_text_valid(value@) && e.kind == ErrorKind::Schema,
            },
    {
        Identifier::try_from(value)
    }

    /// The text of a text value.
    pub fn to_text(value: &Value) -> (r: Option<&str>)
        ensures
            match r {
                Some(text) => value matches Value::Text(own) && own@ == text@,
                None => !(value is Text),
            },
    {
        match value {
            Value::Text(value) => Some(value.as_str()),
            _ => None,
        }
    }

    /// The text of a text value; an error where it holds something else.
    pub fn require_text(value: &Value) -> (r: Result<&str, LqError>)
        ensures
            match r {
                Ok(text) => value matches Value::Text(own) && own@ == text@,
                Err(e) => !(value is Text) && e.kind == ErrorKind::TextParse,
            },
    {
        match Self::to_text(value) {
            Some(text) => Ok(text),
            None => LqError::err_new(ErrorKind::TextParse, "Expecting to have a string"),
        }
    }

    /// The unsigned number that a text value stands for.
    pub fn to_u128(value: &Value) -> (r: Option<u128>)
        ensures
            r == u128_of(*value),
    {
        match value {
            Value::I64(value) => if *value >= 0 {
                Some(*value as u128)
            } else {
                None
            },
            Value::Text(text) => {
                let text = text.as_str();
                if !text.is_ascii() {
                    proof {
                        lemma_digits_are_ascii(text@, false);
                    }
                    return None;
                }
                let len = text.unicode_len();
                if len > 0 && text.get_ascii(0) == 43 {
                    parse_digits(text, 1)
                } else {
                    proof {
                        assert(text@.subrange(0, len as int) =~= text@);
                    }
                    parse_digits(text, 0)
                }
            },
            _ => None,
        }
    }

    /// The unsigned number that a text value stands for; an error where it
    /// stands for none.
    pub fn require_u128(value: &Value) -> (r: Result<u128, LqError>)
        ensures
            match r {
                Ok(v) => u128_of(*value) == Some(v),
                Err(e) => u128_of(*value) is None && e.kind == ErrorKind::TextParse,
            },
    {
        match Self::to_u128(value) {
            Some(v) => Ok(v),
            None => LqError::err_new(ErrorKind::TextParse, "Expecting an unsigned integer"),
        }
    }

    /// The boolean that a text value stands for.
    pub fn to_bool(value: &Value) -> (r: Option<bool>)
        ensures
            r == bool_of(*value),
    {
        match value {
            Value::Bool(value) => Some(*value),
            Value::Text(value) => {
                if crate::schema::types::enumeration::same_text(value.as_str(), "true") {
                    Some(true)
                } else if crate::schema::types::enumeration::same_text(value.as_str(), "false") {
                    Some(false)
                } else {
                    None
                }
            },
            _ => None,
        }
    }

    /// The boolean that a text value stands for; an error where it stands
    /// for none.
    pub fn require_bool(value: &Value) -> (r: Result<bool, LqError>)
        ensures
            match r {
                Ok(v) => bool_of(*value) == Some(v),
                Err(e) => bool_of(*value) is None && e.kind == ErrorKind::TextParse,
            },
    {
        match Self::to_bool(value) {
            Some(v) => Ok(v),
            None => LqError::err_new(ErrorKind::TextParse, "Expecting a boolean"),
        }
    }

    /// The signed number that a text value stands for.
    pub fn to_i128(value: &Value) -> (r: Option<i128>)
        ensures
            r == i128_of(*value),
    {
        match value {
            Value::I64(value) => Some(*value as i128),
            Value::Text(text) => {
                let text = text.as_str();
                if !text.is_ascii() {
                    proof {
                        lemma_digits_are_ascii(text@, true);
                    }
                    return None;
                }
                let len = text.unicode_len();
                if len > 0 && text.get_ascii(0) == 43 {
                    match parse_digits(text, 1) {
                        Some(v) => if v <= i128::MAX as u128 {
                            Some(v as i128)
                        } else {
                            None
                        },
                        None => None,
                    }
                } else if len > 0 && text.get_ascii(0) == 45 {
                    match parse_digits(text, 1) {
                        Some(v) => if v <= i128::MAX as u128 {
                            Some(-(v as i128))
                        } else if v == i128::MAX as u128 + 1 {
                            Some(i128::MIN)
                        } else {
                            None
                        },
                        None => None,
                    }
                } else {
                    proof {
                        assert(text@.subrange(0, len as int) =~= text@);
                    }
                    match parse_digits(text, 0) {
                        Some(v) => if v <= i128::MAX as u128 {
                            Some(v as i128)
                        } else {
                            None
                        },
                        None => None,
                    }
                }
            },
            _ => None,
        }
    }

    /// The signed number that a text value stands for; an error where it
    /// stands for none.
    pub fn require_i128(value: &Value) -> (r: Result<i128, LqError>)
        ensures
            match r {
                Ok(v) => i128_of(*value) == Some(v),
                Err(e) => i128_of(*value) is None && e.kind == ErrorKind::TextParse,
            },
    {
        match Self::to_i128(value) {
            Some(v) => Ok(v),
            None => LqError::err_new(ErrorKind::TextParse, "Expecting a signed integer"),
        }
    }

    /// The decimal that a text value stands for.
    pub fn to_decimal(value: &Value) -> (r: Option<Decimal>)
        ensures
            match r {
                Some(d) => decimal_value_of(*value) == Some(
                    (d.spec_coefficient(), d.spec_exponent()),
                ),
                None => decimal_value_of(*value) is None,
            },
    {
        match value {
            Value::Text(text) => Decimal::parse(text.as_str().as_bytes()),
            Value::I64(v) => Some(Decimal::from_parts(*v as i128, 0)),
            _ => None,
        }
    }

    /// The decimal that a text value stands for, or an error of the kind
    /// `TextParse`.
    pub fn require_decimal(value: &Value) -> (r: Result<Decimal, LqError>)
        ensures
            match r {
                Ok(d) => decimal_value_of(*value) == Some(
                    (d.spec_coefficient(), d.spec_exponent()),
                ),
                Err(e) => decimal_value_of(*value) is None && e.kind == ErrorKind::TextParse,
            },
    {
        match Self::to_decimal(value) {
            Some(d) => Ok(d),
            None => LqError::err_new(
                ErrorKind::TextParse,
                "Expecting a decimal value; Valid decimal values look like this: 12.23, 12, 5e-4 or 4e3.",
            ),
        }
    }

    /// The bits of the 64 bit float that a text value holds.
    pub fn to_f64(value: &Value) -> (r: Option<u64>)
        ensures
            match r {
                Some(bits) => *value == Value::F64(bits),
                None => !(value is F64),
            },
    {
        match value {
            Value::F64(value) => Some(*value),
            _ => None,
        }
    }

    /// The bits of the 64 bit float that a text value holds; an error where
    /// it holds something else.
    pub fn require_f64(value: &Value) -> (r: Result<u64, LqError>)
        ensures
            match r {
                Ok(bits) => *value == Value::F64(bits),
                Err(e) => !(value is F64) && e.kind == ErrorKind::TextParse,
            },
    {
        match Self::to_f64(value) {
            Some(v) => Ok(v),
            None => LqError::err_new(
                ErrorKind::TextParse,
                "Expecting a float 64 (if this is an integer, try adding .0; e.g. 12 -> 12.0)",
            ),
        }
    }

    /// The bits of the 32 bit float that stands for the same number as the
    /// 64 bit float that a text value holds; nothing where precision would
    /// be lost, and for NaN and the infinities.
    pub fn to_f32(value: &Value) -> (r: Option<u32>)
        ensures
            match value {
                Value::F64(bits) => r == narrowed(*bits),
                _ => r is None,
            },
    {
        match value {
            Value::F64(float) => {
                // accept when no precision is lost
                let bits = *float;
                let sign: u32 = if bits >= 0x8000_0000_0000_0000 {
                    0x8000_0000
                } else {
                    0
                };
                let magnitude: u64 = bits % 0x8000_0000_0000_0000;
                let exponent: u64 = magnitude / 0x10_0000_0000_0000;
                let fraction: u64 = magnitude % 0x10_0000_0000_0000;
                if exponent == 0x7ff {
                    None
                } else if magnitude == 0 {
                    Some(sign)
                } else if 897 <= exponent && exponent <= 1150 {
                    if fraction % 0x2000_0000 == 0 {
                        Some(
                            sign + ((exponent - 896) as u32) * 0x80_0000 + (fraction
                                / 0x2000_0000) as u32,
                        )
                    } else {
                        None
                    }
                } else if 874 <= exponent && exponent <= 896 {
                    let mut multiple: u64 = 0x10_0000_0000_0000 + fraction;
                    let mut times: u64 = 926 - exponent;
                    let ghost whole = multiple as int;
                    let ghost all = times as nat;
                    while times > 0
                        invariant
                            times <= 52,
                            *value == Value::F64(bits),
                            halved(whole, all) == halved(multiple as int, times as nat),
                            narrowed(bits) == match halved(whole, all) {
                                Some(m) => if 0 < m <= 0x7f_ffff {
                                    Some((sign + m) as u32)
                                } else {
                                    None
                                },
                                None => None,
                            },
                        decreases times,
                    {
                        if multiple % 2 != 0 {
                            return None;
                        }
                        multiple = multiple / 2;
                        times -= 1;
                    }
                    if 0 < multiple && multiple <= 0x7f_ffff {
                        Some(sign + multiple as u32)
                    } else {
                        None
                    }
                } else {
                    None
                }
            },
            _ => None,
        }
    }

    /// The bits of the 32 bit float that a text value stands for; an error
    /// where it stands for none.
    pub fn require_f32(value: &Value) -> (r: Result<u32, LqError>)
        ensures
            match r {
                Ok(v) => value matches Value::F64(bits) && narrowed(*bits) == Some(v),
                Err(e) => e.kind == ErrorKind::TextParse && !(value matches Value::F64(bits)
                    && narrowed(*bits) is Some),
            },
    {
        match Self::to_f32(value) {
            Some(v) => Ok(v),
            None => LqError::err_new(
                ErrorKind::TextParse,
                "Expecting a float 32 (if this is an integer, try adding .0; e.g. 12 -> 12.0; of it looks like a float, make sure it can be represented as 32 bit float value without loosing precision)",
            ),
        }
    }

    /// The items of a text value that holds a sequence.
    pub fn to_seq(value: &Value) -> (r: Option<&Vec<TextValue>>)
        ensures
            match r {
                Some(items) => *value == Value::Sequence(*items),
                None => !(value is Sequence),
            },
    {
        match value {
            Value::Sequence(value) => Some(value),
            _ => None,
        }
    }

    /// The items of a text value that holds a sequence; an error where it
    /// holds something else.
    pub fn require_seq(value: &Value) -> (r: Result<&Vec<TextValue>, LqError>)
        ensures
            match r {
                Ok(items) => *value == Value::Sequence(*items),
                Err(e) => !(value is Sequence) && e.kind == ErrorKind::TextParse,
            },
    {
        match Self::to_seq(value) {
            Some(v) => Ok(v),
            None => LqError::err_new(
                ErrorKind::TextParse,
                "Expecting to have a sequence (aka. list or vector).",
            ),
        }
    }

    /// The entries of a text map with text keys, in their order: for each
    /// its key and its value. Nothing where the value is no sequence or one
    /// of its items is no entry with a text as its key. Where a key stands
    /// more than once, its last entry counts.
    pub fn to_string_map(value: &Value) -> (r: Option<Vec<(&str, &TextValue)>>)
        ensures
            match r {
                Some(entries) => value matches Value::Sequence(items) && items@.len()
                    == entries@.len() && forall|i: int|
                    0 <= i < entries@.len() ==> crate::text::rules::entry_key(#[trigger] items@[i])
                        == Some((entries@[i].0)@) && *entries@[i].1
                        == crate::text::rules::entry_value(items@[i]),
                None => !(value matches Value::Sequence(items)
                    && crate::text::rules::is_string_map(items@)),
            },
    {
        match value {
            Value::Sequence(seq) => {
                let mut result: Vec<(&str, &TextValue)> = Vec::new();
                let mut index: usize = 0;
                while index < seq.len()
                    invariant
                        *value == Value::Sequence(*seq),
                        index <= seq@.len(),
                        result@.len() == index,
                        forall|i: int|
                            0 <= i < index ==> crate::text::rules::entry_key(#[trigger] seq@[i])
                                == Some((result@[i].0)@) && *result@[i].1
                                == crate::text::rules::entry_value(seq@[i]),
                    decreases seq.len() - index,
                {
                    match &seq[index].value {
                        Value::Sequence(key_value) => {
                            if key_value.len() == 2 {
                                match Self::to_text(&key_value[0].value) {
                                    Some(key) => {
                                        result.push((key, &key_value[1]));
                                    },
                                    None => {
                                        return None;
                                    },
                                }
                            } else {
                                return None;
                            }
                        },
                        _ => {
                            return None;
                        },
                    }
                    index += 1;
                }
                Some(result)
            },
            _ => None,
        }
    }

    /// The entries of a text map with text keys; an error where the value
    /// is none.
    pub fn require_string_map(value: &Value) -> (r: Result<Vec<(&str, &TextValue)>, LqError>)
        ensures
            match r {
                Ok(entries) => value matches Value::Sequence(items) && items@.len()
                    == entries@.len() && crate::text::rules::is_string_map(items@),
                Err(e) => !(value matches Value::Sequence(items)
                    && crate::text::rules::is_string_map(items@)) && e.kind
                    == ErrorKind::TextParse,
            },
    {
        match Self::to_string_map(value) {
            Some(v) => Ok(v),
            None => LqError::err_new(
                ErrorKind::TextParse,
                "Expecting to have a map with text keys (or a sequence with 0-n entries where each entry in turn is a sequence with 2 elements where the first of those 2 elements is a text)",
            ),
        }
    }

    /// The binary data that a text value stands for.
    pub fn to_binary(value: &Value) -> (r: Option<Vec<u8>>)
        ensures
            binary_of(*value) == match r {
                Some(v) => Some(v@),
                None => None,
            },
    {
        match value {
            Value::Text(text) => {
                let utf8_text: &[u8] = text.as_str().as_bytes();
                if utf8_text.len() >= 4 && utf8_text[0] == 104 && utf8_text[1] == 101
                    && utf8_text[2] == 120 && utf8_text[3] == 58 {
                    // try to decode as hex (don't care about case)
                    hex_decode(vstd::slice::slice_subrange(utf8_text, 4, utf8_text.len()))
                } else {
                    // try to decode that as base64
                    base64_decode(utf8_text)
                }
            },
            Value::Sequence(seq) => {
                // sequence of bytes
                let number_of_elements = seq.len();
                let mut result: Vec<u8> = Vec::new();
                let mut index: usize = 0;
                proof {
                    assert(seq@.take(0) =~= Seq::<TextValue>::empty());
                }
                while index < number_of_elements
                    invariant
                        *value == Value::Sequence(*seq),
                        number_of_elements == seq@.len(),
                        index <= number_of_elements,
                        bytes_of_items(seq@.take(index as int)) == Some(result@),
                    decreases number_of_elements - index,
                {
                    proof {
                        let next = seq@.take(index + 1);
                        assert(next.drop_last() =~= seq@.take(index as int));
                        assert(next.last() == seq@[index as int]);
                        if bytes_of_items(seq@) is Some {
                            lemma_bytes_of_items_prefix(seq@, index + 1);
                        }
                    }
                    match Self::to_u128(&seq[index].value) {
                        Some(element_as_number) => {
                            if element_as_number <= u8::MAX as u128 {
                                result.push(element_as_number as u8);
                            } else {
                                return None;
                            }
                        },
                        None => {
                            return None;
                        },
                    }
                    index += 1;
                }
                proof {
                    assert(seq@.take(index as int) =~= seq@);
                }
                Some(result)
            },
            _ => None,
        }
    }

    /// The binary data that a text value stands for; an error where it
    /// stands for none.
    pub fn require_binary(value: &Value) -> (r: Result<Vec<u8>, LqError>)
        ensures
            match r {
                Ok(v) => binary_of(*value) == Some(v@),
                Err(e) => binary_of(*value) is None && e.kind == ErrorKind::TextParse,
            },
    {
        match Self::to_binary(value) {
            Some(v) => Ok(v),
            None => LqError::err_new(
                ErrorKind::TextParse,
                "Expecting to have binary data. Valid binary data is either base64 (string; no padding) or hex encoding (a string starting with 'hex:') or a sequence of numbers (0-255). Example (base 64): 'aGVsbG8'; Example (hex encoding): 'hex:68656C6C6F'; Example (seq): [104, 101, 108, 108, 111].",
            ),
        }
    }
}

/// A text that stands for a whole number holds ASCII characters only.
pub proof fn lemma_digits_are_ascii(s: Seq<char>, signed: bool)
    requires
        !is_ascii_chars(s),
    ensures
        integer_of(s, signed) is None,
{
    if integer_of(s, signed) is Some {
        let digits = s.subrange(1, s.len() as int);
        assert forall|i: int| 0 <= i < s.len() implies '\0' <= #[trigger] s[i] <= '\u{7f}' by {
            if s[0] == '+' || (signed && s[0] == '-') {
                if i > 0 {
                    assert(digits[i - 1] == s[i]);
                }
            }
        }
    }
}

} // verus!
