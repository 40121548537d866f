//! What it means for bytes to be a valid value of a schema type, and what
//! key a value of a schema type is ordered by. The functions here are the
//! reference that the validators and the comparison are proved to compute.

use crate::error::ErrorKind;
use crate::major_types::TYPE_UNICODE;
use crate::schema::any_type::AnyType;
use crate::schema::types::ascii::TAscii;
use crate::schema::types::binary::TBinary;
use crate::schema::types::boolean::TBool;
use crate::schema::types::decimal::TDecimal;
use crate::schema::types::enumeration::TEnum;
use crate::schema::types::float::{TFloat32, TFloat64};
use crate::schema::types::key_ref::TKeyRef;
use crate::schema::types::map::TMap;
use crate::schema::types::option::TOption;
use crate::schema::types::range::TRange;
use crate::schema::types::root_map::TRootMap;
use crate::schema::types::seq::TSeq;
use crate::schema::types::sint::TSInt;
use crate::schema::types::structure::TStruct;
use crate::schema::types::uint::TUInt;
use crate::schema::types::unicode::TUnicode;
use crate::schema::types::uuid::TUuid;
use crate::schema::keys::{key_order, Comparison, Key};
use crate::schema::type_ref::RefTarget;
use crate::schema::types::ascii::codes_allowed;
use crate::schema::types::float::{float_allowed, layout32, layout64, total_key};
use crate::schema::types::map::Sorting;
use crate::schema::types::range::Inclusion;
use crate::schema::types::seq::{Direction, Order};
use crate::schema::types::structure::Field;
use crate::schema::types::unicode::LengthType;
use crate::types::binary::{binary_at, leaf_at};
use crate::types::boolean::bool_at;
use crate::types::enumeration::enum_header_at;
use crate::types::float::{float32_at, float64_at};
use crate::types::option::{presence_at, Presence};
use crate::types::seq::seq_header_at;
use crate::types::sint::{sint_at, sint_at_within};
use crate::types::uint::{uint_at, uint_at_most};
use crate::types::unicode::unicode_at;
use crate::wire::{value_end, values_end};
use vstd::prelude::*;
use vstd::utf8::encode_utf8;

verus! {

/// What validation reads of a schema: its types, their names, and whether
/// extensions are rejected.
pub struct Env {
    pub types: Seq<AnyType>,
    pub names: Seq<Seq<char>>,
    pub strict: bool,
}

/// The same schema without the strict mode. Keys do not depend on the mode.
pub open spec fn loose(env: Env) -> Env {
    Env { types: env.types, names: env.names, strict: false }
}

/// The index of the first name from the `i`-th on that is the given one.
pub open spec fn name_index(names: Seq<Seq<char>>, name: Seq<char>, i: int) -> Option<int>
    decreases names.len() - i,
{
    if i < 0 || i >= names.len() {
        None
    } else if names[i] == name {
        Some(i)
    } else {
        name_index(names, name, i + 1)
    }
}

/// The index of the type that a reference points at.
pub open spec fn resolve_index(env: Env, r: RefTarget) -> Option<int> {
    match r {
        RefTarget::Index(i) => if i < env.types.len() {
            Some(i as int)
        } else {
            None
        },
        RefTarget::Name(name) => match name_index(env.names, name, 0) {
            Some(i) => if i < env.types.len() {
                Some(i)
            } else {
                None
            },
            None => None,
        },
    }
}

/// The type that a reference points at.
pub open spec fn resolve_in(env: Env, r: RefTarget) -> Option<AnyType> {
    match resolve_index(env, r) {
        Some(i) => Some(env.types[i]),
        None => None,
    }
}

/// Whether a length is a multiple of what the type asks for. Only the empty
/// sequence is a multiple of zero.
pub open spec fn multiple_ok(n: int, multiple_of: Option<u32>) -> bool {
    match multiple_of {
        Some(m) => if m == 0 {
            n == 0
        } else {
            n % (m as int) == 0
        },
        None => true,
    }
}

/// Whether two neighbours of a sorted sequence may compare as they do.
pub open spec fn order_ok(direction: Direction, unique: bool, c: Comparison) -> bool {
    match c {
        Comparison::Equal => !unique,
        Comparison::Less => direction == Direction::Ascending,
        Comparison::Greater => direction == Direction::Descending,
    }
}

/// Whether two neighbouring keys of a map may compare as they do: strictly
/// in the direction of the sorting.
pub open spec fn key_step_ok(sorting: Sorting, c: Comparison) -> bool {
    match c {
        Comparison::Equal => false,
        Comparison::Less => sorting == Sorting::Ascending,
        Comparison::Greater => sorting == Sorting::Descending,
    }
}

/// Whether start and end of a range are included, where the type says so.
pub open spec fn fixed_inclusion(inclusion: Inclusion) -> (bool, bool) {
    match inclusion {
        Inclusion::BothInclusive => (true, true),
        Inclusion::StartInclusive => (true, false),
        Inclusion::BothExclusive => (false, false),
        Inclusion::EndInclusive => (false, true),
        Inclusion::Supplied => (true, true),
    }
}

/// The number of values of a range on the wire.
pub open spec fn range_items(inclusion: Inclusion) -> int {
    if inclusion == Inclusion::Supplied {
        4
    } else {
        2
    }
}

/// Whether a range may have a start and an end that compare as they do.
/// The start is never greater than the end. Where they are equal and the
/// type does not allow empty ranges, both have to be included.
pub open spec fn range_ok(allow_empty: bool, start_included: bool, end_included: bool, c: Comparison)
    -> bool {
    match c {
        Comparison::Less => true,
        Comparison::Equal => allow_empty || (start_included && end_included),
        Comparison::Greater => false,
    }
}

/// The length of a text as the given length type counts it.
pub open spec fn text_length(length_type: LengthType, text: Seq<char>) -> int {
    match length_type {
        LengthType::Byte => encode_utf8(text).len() as int,
        LengthType::Utf8Byte => encode_utf8(text).len() as int,
        LengthType::ScalarValue => text.len() as int,
    }
}

/// The stack of key reference frames inside a map of `n` entries.
pub open spec fn frames_in(frames: Seq<u32>, anchors: bool, n: u32) -> Seq<u32> {
    if anchors {
        frames.push(n)
    } else {
        frames
    }
}

/// The references of the fields of a structure.
pub open spec fn field_targets(fields: Seq<Field>) -> Seq<RefTarget> {
    Seq::new(fields.len(), |i: int| fields[i].type_ref.target())
}

/// What a row of references points at.
pub open spec fn targets_of(refs: Seq<crate::schema::type_ref::TypeRef>) -> Seq<RefTarget> {
    Seq::new(refs.len(), |i: int| refs[i].target())
}

/// Validates the value at `pos` against the type that `r` points at: the
/// position behind the value, or the kind of the first violation. `frames`
/// holds the numbers of keys of the maps with anchors around the value, the
/// innermost last.
pub open spec fn validate_at(env: Env, r: RefTarget, data: Seq<u8>, pos: int, frames: Seq<u32>)
    -> Result<int, ErrorKind>
    decreases data.len() - pos, 2nat, 0nat,
{
    match resolve_in(env, r) {
        Some(t) => validate_type(env, t, data, pos, frames),
        None => Err(ErrorKind::Reference),
    }
}

/// Validates the value at `pos` against a type.
pub open spec fn validate_type(env: Env, t: AnyType, data: Seq<u8>, pos: int, frames: Seq<u32>)
    -> Result<int, ErrorKind>
    decreases data.len() - pos, 1nat, 0nat,
{
    match t {
        AnyType::Bool(t) => bool_valid_at(env, t, data, pos, frames),
        AnyType::UInt(t) => uint_valid_at(env, t, data, pos, frames),
        AnyType::SInt(t) => sint_valid_at(env, t, data, pos, frames),
        AnyType::Float32(t) => float32_valid_at(env, t, data, pos, frames),
        AnyType::Float64(t) => float64_valid_at(env, t, data, pos, frames),
        AnyType::Binary(t) => binary_valid_at(env, t, data, pos, frames),
        AnyType::Unicode(t) => unicode_valid_at(env, t, data, pos, frames),
        AnyType::Ascii(t) => ascii_valid_at(env, t, data, pos, frames),
        AnyType::Uuid(t) => uuid_valid_at(env, t, data, pos, frames),
        AnyType::KeyRef(t) => key_ref_valid_at(env, t, data, pos, frames),
        AnyType::Decimal(t) => decimal_valid_at(env, t, data, pos, frames),
        AnyType::Option(t) => option_valid_at(env, t, data, pos, frames),
        AnyType::Sequence(t) => sequence_valid_at(env, t, data, pos, frames),
        AnyType::Struct(t) => structure_valid_at(env, t, data, pos, frames),
        AnyType::Enum(t) => enumeration_valid_at(env, t, data, pos, frames),
        AnyType::Mapping(t) => map_valid_at(env, t, data, pos, frames),
        AnyType::RootMap(t) => root_map_valid_at(env, t, data, pos, frames),
        AnyType::Range(t) => range_valid_at(env, t, data, pos, frames),
    }
}

/// A boolean is valid where it can be read.
pub open spec fn bool_valid_at(
    env: Env,
    t: TBool,
    data: Seq<u8>,
    pos: int,
    frames: Seq<u32>,
) -> Result<int, ErrorKind>
    decreases data.len() - pos, 0nat, 0nat,
{
    match bool_at(data, pos) {
        Some((_, e)) => Ok(e),
        None => Err(ErrorKind::Codec),
    }
}

/// An unsigned integer is valid where it lies in the range of the type.
pub open spec fn uint_valid_at(
    env: Env,
    t: TUInt,
    data: Seq<u8>,
    pos: int,
    frames: Seq<u32>,
) -> Result<int, ErrorKind>
    decreases data.len() - pos, 0nat, 0nat,
{
    match uint_at(data, pos) {
        Some((v, e)) => if t.range.spec_contains(v as int) {
            Ok(e)
        } else {
            Err(ErrorKind::Schema)
        },
        None => Err(ErrorKind::Codec),
    }
}

/// A signed integer is valid where it lies in the range of the type.
pub open spec fn sint_valid_at(
    env: Env,
    t: TSInt,
    data: Seq<u8>,
    pos: int,
    frames: Seq<u32>,
) -> Result<int, ErrorKind>
    decreases data.len() - pos, 0nat, 0nat,
{
    match sint_at(data, pos) {
        Some((v, e)) => if t.range.spec_contains(v) {
            Ok(e)
        } else {
            Err(ErrorKind::Schema)
        },
        None => Err(ErrorKind::Codec),
    }
}

/// A 32 bit float is valid where the range and the flags of the type accept it.
pub open spec fn float32_valid_at(
    env: Env,
    t: TFloat32,
    data: Seq<u8>,
    pos: int,
    frames: Seq<u32>,
) -> Result<int, ErrorKind>
    decreases data.len() - pos, 0nat, 0nat,
{
    match float32_at(data, pos) {
        Some((bits, e)) => if float_allowed(
            layout32(),
            t.min as int,
            t.max as int,
            t.flags,
            bits as int,
        ) {
            Ok(e)
        } else {
            Err(ErrorKind::Schema)
        },
        None => Err(ErrorKind::Codec),
    }
}

/// A 64 bit float is valid where the range and the flags of the type accept it.
pub open spec fn float64_valid_at(
    env: Env,
    t: TFloat64,
    data: Seq<u8>,
    pos: int,
    frames: Seq<u32>,
) -> Result<int, ErrorKind>
    decreases data.len() - pos, 0nat, 0nat,
{
    match float64_at(data, pos) {
        Some((bits, e)) => if float_allowed(
            layout64(),
            t.min as int,
            t.max as int,
            t.flags,
            bits as int,
        ) {
            Ok(e)
        } else {
            Err(ErrorKind::Schema)
        },
        None => Err(ErrorKind::Codec),
    }
}

/// Binary data is valid where its number of bytes lies in the range of the type.
pub open spec fn binary_valid_at(
    env: Env,
    t: TBinary,
    data: Seq<u8>,
    pos: int,
    frames: Seq<u32>,
) -> Result<int, ErrorKind>
    decreases data.len() - pos, 0nat, 0nat,
{
    match binary_at(data, pos) {
        Some((body, e)) => if t.length.spec_contains(body.len() as int) {
            Ok(e)
        } else {
            Err(ErrorKind::Schema)
        },
        None => Err(ErrorKind::Codec),
    }
}

/// A text is valid where its length, counted as the type says, lies in the range of
/// the type.
pub open spec fn unicode_valid_at(
    env: Env,
    t: TUnicode,
    data: Seq<u8>,
    pos: int,
    frames: Seq<u32>,
) -> Result<int, ErrorKind>
    decreases data.len() - pos, 0nat, 0nat,
{
    match unicode_at(data, pos) {
        Some((text, e)) => if t.length.spec_contains(text_length(t.length_type, text)) {
            Ok(e)
        } else {
            Err(ErrorKind::Schema)
        },
        None => Err(ErrorKind::Codec),
    }
}

/// An ASCII text is valid where its number of characters lies in the range of the
/// type and each of its bytes lies in one of the code ranges of the type.
pub open spec fn ascii_valid_at(
    env: Env,
    t: TAscii,
    data: Seq<u8>,
    pos: int,
    frames: Seq<u32>,
) -> Result<int, ErrorKind>
    decreases data.len() - pos, 0nat, 0nat,
{
    match leaf_at(TYPE_UNICODE, data, pos) {
        Some((body, e)) => if t.length.spec_contains(body.len() as int) && codes_allowed(
            t.codes.codes@,
            body,
        ) {
            Ok(e)
        } else {
            Err(ErrorKind::Schema)
        },
        None => Err(ErrorKind::Codec),
    }
}

/// A UUID is valid where it is binary data of 16 bytes.
pub open spec fn uuid_valid_at(
    env: Env,
    t: TUuid,
    data: Seq<u8>,
    pos: int,
    frames: Seq<u32>,
) -> Result<int, ErrorKind>
    decreases data.len() - pos, 0nat, 0nat,
{
    match binary_at(data, pos) {
        Some((body, e)) => if body.len() == 16 {
            Ok(e)
        } else {
            Err(ErrorKind::Codec)
        },
        None => Err(ErrorKind::Codec),
    }
}

/// A key reference is valid where it is a number below the number of keys of the
/// innermost frame; without a frame none is.
pub open spec fn key_ref_valid_at(
    env: Env,
    t: TKeyRef,
    data: Seq<u8>,
    pos: int,
    frames: Seq<u32>,
) -> Result<int, ErrorKind>
    decreases data.len() - pos, 0nat, 0nat,
{
    match uint_at_most(data, pos, u32::MAX as nat) {
        Some((v, e)) => if frames.len() > 0 && v < frames.last() {
            Ok(e)
        } else {
            Err(ErrorKind::Reference)
        },
        None => Err(ErrorKind::Codec),
    }
}

/// A decimal is a sequence of two signed integers: the coefficient and the
/// exponent, which fits in 8 bits; each has to lie in its range.
pub open spec fn decimal_valid_at(
    env: Env,
    t: TDecimal,
    data: Seq<u8>,
    pos: int,
    frames: Seq<u32>,
) -> Result<int, ErrorKind>
    decreases data.len() - pos, 0nat, 0nat,
{
    match seq_header_at(data, pos) {
        Some((n, p)) => if n != 2 {
            Err(ErrorKind::Schema)
        } else {
            match sint_at(data, p) {
                Some((coefficient, q)) => if !t.coefficient.spec_contains(coefficient) {
                    Err(ErrorKind::Schema)
                } else {
                    match sint_at_within(data, q, i8::MIN as int, i8::MAX as int) {
                        Some((exponent, e)) => if t.exponent.spec_contains(exponent) {
                            Ok(e)
                        } else {
                            Err(ErrorKind::Schema)
                        },
                        None => Err(ErrorKind::Codec),
                    }
                },
                None => Err(ErrorKind::Codec),
            }
        },
        None => Err(ErrorKind::Codec),
    }
}

/// An option is valid where it is absent, or present with a valid value of the
/// inner type.
pub open spec fn option_valid_at(
    env: Env,
    t: TOption,
    data: Seq<u8>,
    pos: int,
    frames: Seq<u32>,
) -> Result<int, ErrorKind>
    decreases data.len() - pos, 0nat, 0nat,
{
    match presence_at(data, pos) {
        Some((Presence::Absent, e)) => Ok(e),
        Some((Presence::Present, p)) => if pos < p <= data.len() {
            validate_at(env, t.inner.target(), data, p, frames)
        } else {
            Err(ErrorKind::Codec)
        },
        None => Err(ErrorKind::Codec),
    }
}

/// A sequence is valid where its length lies in the range of the type and is a
/// multiple of what the type asks for, each element is valid and, in a sorted
/// sequence, each element compares with the one before it as the type says.
pub open spec fn sequence_valid_at(
    env: Env,
    t: TSeq,
    data: Seq<u8>,
    pos: int,
    frames: Seq<u32>,
) -> Result<int, ErrorKind>
    decreases data.len() - pos, 0nat, 0nat,
{
    match seq_header_at(data, pos) {
        Some((n, p)) => if !t.length.spec_contains(n as int) || !multiple_ok(
            n as int,
            t.multiple_of,
        ) {
            Err(ErrorKind::Schema)
        } else if pos < p <= data.len() {
            match elements_valid_at(
                env,
                t.element.target(),
                t.ordering,
                data,
                p,
                n as nat,
                frames,
            ) {
                Ok((e, _)) => Ok(e),
                Err(kind) => Err(kind),
            }
        } else {
            Err(ErrorKind::Codec)
        },
        None => Err(ErrorKind::Codec),
    }
}

/// A structure is a sequence with at least as many values as the type has
/// fields, in strict mode exactly as many. The first values have to be valid
/// values of the fields, in their order; the others only have to be whole
/// wire values.
pub open spec fn structure_valid_at(
    env: Env,
    t: TStruct,
    data: Seq<u8>,
    pos: int,
    frames: Seq<u32>,
) -> Result<int, ErrorKind>
    decreases data.len() - pos, 0nat, 0nat,
{
    match seq_header_at(data, pos) {
        Some((n, p)) => if n < t.fields@.len() || (env.strict && n != t.fields@.len()) {
            Err(ErrorKind::Schema)
        } else if pos < p <= data.len() {
            match refs_valid_at(
                env,
                field_targets(t.fields@),
                data,
                p,
                t.fields@.len(),
                frames,
            ) {
                Ok(q) => match values_end(data, q, (n - t.fields@.len()) as nat) {
                    Some(e) => Ok(e),
                    None => Err(ErrorKind::Codec),
                },
                Err(kind) => Err(kind),
            }
        } else {
            Err(ErrorKind::Codec)
        },
        None => Err(ErrorKind::Codec),
    }
}

/// An enum value is valid where its ordinal is that of a variant of the type, it
/// has at least as many values as the variant declares, in strict mode exactly
/// as many, the first of them are valid values of the declared types, and the
/// others are whole wire values.
pub open spec fn enumeration_valid_at(
    env: Env,
    t: TEnum,
    data: Seq<u8>,
    pos: int,
    frames: Seq<u32>,
) -> Result<int, ErrorKind>
    decreases data.len() - pos, 0nat, 0nat,
{
    match enum_header_at(data, pos) {
        Some((h, p)) => if h.ordinal >= t.variants@.len() {
            Err(ErrorKind::Schema)
        } else {
            let values = t.variants@[h.ordinal as int].values@;
            if h.number_of_values < values.len() || (env.strict && h.number_of_values
                != values.len()) {
                Err(ErrorKind::Schema)
            } else if pos < p <= data.len() {
                match refs_valid_at(env, targets_of(values), data, p, values.len(), frames) {
                    Ok(q) => match values_end(
                        data,
                        q,
                        (h.number_of_values - values.len()) as nat,
                    ) {
                        Some(e) => Ok(e),
                        None => Err(ErrorKind::Codec),
                    },
                    Err(kind) => Err(kind),
                }
            } else {
                Err(ErrorKind::Codec)
            }
        },
        None => Err(ErrorKind::Codec),
    }
}

/// A map is valid where its number of entries lies in the range of the type and
/// its entries are valid; with anchors its entries see a frame with the number
/// of its keys.
pub open spec fn map_valid_at(
    env: Env,
    t: TMap,
    data: Seq<u8>,
    pos: int,
    frames: Seq<u32>,
) -> Result<int, ErrorKind>
    decreases data.len() - pos, 0nat, 0nat,
{
    match seq_header_at(data, pos) {
        Some((n, p)) => if !t.length.spec_contains(n as int) {
            Err(ErrorKind::Schema)
        } else if pos < p <= data.len() {
            match entries_valid_at(
                env,
                t.key.target(),
                t.value.target(),
                t.sorting,
                data,
                p,
                n as nat,
                frames_in(frames, t.anchors, n),
            ) {
                Ok((e, _)) => Ok(e),
                Err(kind) => Err(kind),
            }
        } else {
            Err(ErrorKind::Codec)
        },
        None => Err(ErrorKind::Codec),
    }
}

/// A root map is a sequence of two: the root and the sequence of the entries.
/// Both see a frame with the number of the entries, which is read ahead by
/// skipping the root.
pub open spec fn root_map_valid_at(
    env: Env,
    t: TRootMap,
    data: Seq<u8>,
    pos: int,
    frames: Seq<u32>,
) -> Result<int, ErrorKind>
    decreases data.len() - pos, 0nat, 0nat,
{
    match seq_header_at(data, pos) {
        Some((outer, p)) => if outer != 2 {
            Err(ErrorKind::Schema)
        } else {
            match value_end(data, p) {
                Some(behind_root) => match seq_header_at(data, behind_root) {
                    Some((n, q)) => if !t.length.spec_contains(n as int) {
                        Err(ErrorKind::Schema)
                    } else if pos < p <= data.len() && p < q <= data.len() {
                        match validate_at(env, t.root.target(), data, p, frames.push(n)) {
                            Ok(_) => match entries_valid_at(
                                env,
                                t.key.target(),
                                t.value.target(),
                                t.sorting,
                                data,
                                q,
                                n as nat,
                                frames.push(n),
                            ) {
                                Ok((e, _)) => Ok(e),
                                Err(kind) => Err(kind),
                            },
                            Err(kind) => Err(kind),
                        }
                    } else {
                        Err(ErrorKind::Codec)
                    },
                    None => Err(ErrorKind::Codec),
                },
                None => Err(ErrorKind::Codec),
            }
        },
        None => Err(ErrorKind::Codec),
    }
}

/// A range is a sequence of a start and an end of the element type, and of two
/// booleans where the data supplies the inclusion. The start is at most the
/// end; they are equal only in an allowed empty range or where both are
/// included.
pub open spec fn range_valid_at(
    env: Env,
    t: TRange,
    data: Seq<u8>,
    pos: int,
    frames: Seq<u32>,
) -> Result<int, ErrorKind>
    decreases data.len() - pos, 0nat, 0nat,
{
    match seq_header_at(data, pos) {
        Some((n, p)) => if n != range_items(t.inclusion) {
            Err(ErrorKind::Schema)
        } else if pos < p <= data.len() {
            match validate_at(env, t.element.target(), data, p, frames) {
                Ok(q) => if p < q <= data.len() {
                    match validate_at(env, t.element.target(), data, q, frames) {
                        Ok(behind_end) => match range_flags_at(t.inclusion, data, behind_end) {
                            Some((start_included, end_included, e)) => match (
                                key_at(loose(env), t.element.target(), data, p),
                                key_at(loose(env), t.element.target(), data, q),
                            ) {
                                (Ok((start, _)), Ok((end, _))) => if range_ok(
                                    t.allow_empty,
                                    start_included,
                                    end_included,
                                    key_order(start, end),
                                ) {
                                    Ok(e)
                                } else {
                                    Err(ErrorKind::Relational)
                                },
                                _ => Err(ErrorKind::Codec),
                            },
                            None => Err(ErrorKind::Codec),
                        },
                        Err(kind) => Err(kind),
                    }
                } else {
                    Err(ErrorKind::Codec)
                },
                Err(kind) => Err(kind),
            }
        } else {
            Err(ErrorKind::Codec)
        },
        None => Err(ErrorKind::Codec),
    }
}

/// Whether start and end of a range are included, and the position behind
/// the range: read from the two booleans at `pos` where the data supplies
/// them, else as the type says.
pub open spec fn range_flags_at(inclusion: Inclusion, data: Seq<u8>, pos: int) -> Option<
    (bool, bool, int),
> {
    if inclusion == Inclusion::Supplied {
        match bool_at(data, pos) {
            Some((start_included, p)) => match bool_at(data, p) {
                Some((end_included, e)) => Some((start_included, end_included, e)),
                None => None,
            },
            None => None,
        }
    } else {
        Some((fixed_inclusion(inclusion).0, fixed_inclusion(inclusion).1, pos))
    }
}

/// Validates `k` values in a row, the `i`-th against the `i`-th reference:
/// the position behind the last.
pub open spec fn refs_valid_at(
    env: Env,
    targets: Seq<RefTarget>,
    data: Seq<u8>,
    first: int,
    k: nat,
    frames: Seq<u32>,
) -> Result<int, ErrorKind>
    decreases data.len() - first, 3nat, k,
{
    if k == 0 {
        Ok(first)
    } else if k > targets.len() {
        Err(ErrorKind::Reference)
    } else {
        match refs_valid_at(env, targets, data, first, (k - 1) as nat, frames) {
            Ok(p) => if first <= p <= data.len() {
                validate_at(env, targets[k - 1], data, p, frames)
            } else {
                Err(ErrorKind::Codec)
            },
            Err(kind) => Err(kind),
        }
    }
}

/// Validates the first `k` elements of a sequence that start at `first`:
/// the position behind the last of them and the position at which it
/// starts. Each element is validated and then, in a sorted sequence,
/// compared with the one before it.
pub open spec fn elements_valid_at(
    env: Env,
    element: RefTarget,
    ordering: Order,
    data: Seq<u8>,
    first: int,
    k: nat,
    frames: Seq<u32>,
) -> Result<(int, int), ErrorKind>
    decreases data.len() - first, 3nat, k,
{
    if k == 0 {
        Ok((first, first))
    } else {
        match elements_valid_at(env, element, ordering, data, first, (k - 1) as nat, frames) {
            Ok((p, previous)) => if first <= p <= data.len() {
                match validate_at(env, element, data, p, frames) {
                    Ok(e) => match ordering {
                        Order::Sorted { direction, unique } => if k >= 2 {
                            match (
                                key_at(loose(env), element, data, previous),
                                key_at(loose(env), element, data, p),
                            ) {
                                (Ok((a, _)), Ok((b, _))) => if order_ok(
                                    direction,
                                    unique,
                                    key_order(a, b),
                                ) {
                                    Ok((e, p))
                                } else {
                                    Err(ErrorKind::Relational)
                                },
                                _ => Err(ErrorKind::Codec),
                            }
                        } else {
                            Ok((e, p))
                        },
                        Order::Any => Ok((e, p)),
                    },
                    Err(kind) => Err(kind),
                }
            } else {
                Err(ErrorKind::Codec)
            },
            Err(kind) => Err(kind),
        }
    }
}

/// Validates the first `k` entries of a map that start at `first`: the
/// position behind the last of them and the position at which its key
/// starts. Each entry is a sequence of two; its key is validated, then
/// compared with the key before it, then its value is validated.
pub open spec fn entries_valid_at(
    env: Env,
    key: RefTarget,
    value: RefTarget,
    sorting: Sorting,
    data: Seq<u8>,
    first: int,
    k: nat,
    frames: Seq<u32>,
) -> Result<(int, int), ErrorKind>
    decreases data.len() - first, 3nat, k,
{
    if k == 0 {
        Ok((first, first))
    } else {
        match entries_valid_at(env, key, value, sorting, data, first, (k - 1) as nat, frames) {
            Ok((p, previous)) => match seq_header_at(data, p) {
                Some((n, q)) => if n != 2 {
                    Err(ErrorKind::Schema)
                } else if first <= p < q <= data.len() {
                    match validate_at(env, key, data, q, frames) {
                        Ok(v) => {
                            let step: Result<(), ErrorKind> = if k >= 2 {
                                match (key_at(loose(env), key, data, previous), key_at(loose(env), key, data, q)) {
                                    (Ok((a, _)), Ok((b, _))) => if key_step_ok(
                                        sorting,
                                        key_order(a, b),
                                    ) {
                                        Ok(())
                                    } else {
                                        Err(ErrorKind::Relational)
                                    },
                                    _ => Err(ErrorKind::Codec),
                                }
                            } else {
                                Ok(())
                            };
                            match step {
                                Ok(_) => if q <= v <= data.len() {
                                    match validate_at(env, value, data, v, frames) {
                                        Ok(e) => Ok((e, q)),
                                        Err(kind) => Err(kind),
                                    }
                                } else {
                                    Err(ErrorKind::Codec)
                                },
                                Err(kind) => Err(kind),
                            }
                        },
                        Err(kind) => Err(kind),
                    }
                } else {
                    Err(ErrorKind::Codec)
                },
                None => Err(ErrorKind::Codec),
            },
            Err(kind) => Err(kind),
        }
    }
}

/// The key that the value at `pos` is ordered by among the values of the
/// type that `r` points at, and the position behind the value; or the kind
/// of the first thing that keeps the value from being read as that type.
/// Ranges and limits of the type are not looked at.
pub open spec fn key_at(env: Env, r: RefTarget, data: Seq<u8>, pos: int) -> Result<
    (Key, int),
    ErrorKind,
>
    decreases data.len() - pos, 2nat, 0nat,
{
    match resolve_in(env, r) {
        Some(t) => key_of_type(env, t, data, pos),
        None => Err(ErrorKind::Reference),
    }
}

/// The key of the value at `pos` under a type.
///
/// Booleans, integers and key references are ordered as numbers, `false`
/// before `true`; floats by `total_key`; binaries, texts and UUIDs
/// lexicographically by their bytes. An absent option comes before every
/// present one. Sequences, structures, variants, maps, ranges and decimals
/// are ordered lexicographically by their parts: a variant by its ordinal and
/// then its values, a range by start, end and the supplied flags, a decimal
/// by coefficient and exponent. Of a structure and a variant only the parts
/// that the schema declares count.
pub open spec fn key_of_type(env: Env, t: AnyType, data: Seq<u8>, pos: int) -> Result<
    (Key, int),
    ErrorKind,
>
    decreases data.len() - pos, 1nat, 0nat,
{
    match t {
        AnyType::Bool(t) => bool_key_at(env, t, data, pos),
        AnyType::UInt(t) => uint_key_at(env, t, data, pos),
        AnyType::SInt(t) => sint_key_at(env, t, data, pos),
        AnyType::Float32(t) => float32_key_at(env, t, data, pos),
        AnyType::Float64(t) => float64_key_at(env, t, data, pos),
        AnyType::Binary(t) => binary_key_at(env, t, data, pos),
        AnyType::Unicode(t) => unicode_key_at(env, t, data, pos),
        AnyType::Ascii(t) => ascii_key_at(env, t, data, pos),
        AnyType::Uuid(t) => uuid_key_at(env, t, data, pos),
        AnyType::KeyRef(t) => key_ref_key_at(env, t, data, pos),
        AnyType::Decimal(t) => decimal_key_at(env, t, data, pos),
        AnyType::Option(t) => option_key_at(env, t, data, pos),
        AnyType::Sequence(t) => sequence_key_at(env, t, data, pos),
        AnyType::Struct(t) => structure_key_at(env, t, data, pos),
        AnyType::Enum(t) => enumeration_key_at(env, t, data, pos),
        AnyType::Mapping(t) => map_key_at(env, t, data, pos),
        AnyType::RootMap(t) => root_map_key_at(env, t, data, pos),
        AnyType::Range(t) => range_key_at(env, t, data, pos),
    }
}

/// The key of a bool value.
pub open spec fn bool_key_at(env: Env, t: TBool, data: Seq<u8>, pos: int) -> Result<
    (Key, int),
    ErrorKind,
>
    decreases data.len() - pos, 0nat, 0nat,
{
    match bool_at(data, pos) {
        Some((b, e)) => Ok(
            (
                Key::Int(
                    if b {
                        1
                    } else {
                        0
                    },
                ),
                e,
            ),
        ),
        None => Err(ErrorKind::Codec),
    }
}

/// The key of an uint value.
pub open spec fn uint_key_at(env: Env, t: TUInt, data: Seq<u8>, pos: int) -> Result<
    (Key, int),
    ErrorKind,
>
    decreases data.len() - pos, 0nat, 0nat,
{
    match uint_at(data, pos) {
        Some((v, e)) => Ok((Key::Int(v as int), e)),
        None => Err(ErrorKind::Codec),
    }
}

/// The key of a sint value.
pub open spec fn sint_key_at(env: Env, t: TSInt, data: Seq<u8>, pos: int) -> Result<
    (Key, int),
    ErrorKind,
>
    decreases data.len() - pos, 0nat, 0nat,
{
    match sint_at(data, pos) {
        Some((v, e)) => Ok((Key::Int(v), e)),
        None => Err(ErrorKind::Codec),
    }
}

/// The key of a float32 value.
pub open spec fn float32_key_at(env: Env, t: TFloat32, data: Seq<u8>, pos: int) -> Result<
    (Key, int),
    ErrorKind,
>
    decreases data.len() - pos, 0nat, 0nat,
{
    match float32_at(data, pos) {
        Some((bits, e)) => Ok((Key::Int(total_key(layout32(), bits as int)), e)),
        None => Err(ErrorKind::Codec),
    }
}

/// The key of a float64 value.
pub open spec fn float64_key_at(env: Env, t: TFloat64, data: Seq<u8>, pos: int) -> Result<
    (Key, int),
    ErrorKind,
>
    decreases data.len() - pos, 0nat, 0nat,
{
    match float64_at(data, pos) {
        Some((bits, e)) => Ok((Key::Int(total_key(layout64(), bits as int)), e)),
        None => Err(ErrorKind::Codec),
    }
}

/// The key of a binary value.
pub open spec fn binary_key_at(env: Env, t: TBinary, data: Seq<u8>, pos: int) -> Result<
    (Key, int),
    ErrorKind,
>
    decreases data.len() - pos, 0nat, 0nat,
{
    match binary_at(data, pos) {
        Some((body, e)) => Ok((Key::Bytes(body), e)),
        None => Err(ErrorKind::Codec),
    }
}

/// The key of an unicode value.
pub open spec fn unicode_key_at(env: Env, t: TUnicode, data: Seq<u8>, pos: int) -> Result<
    (Key, int),
    ErrorKind,
>
    decreases data.len() - pos, 0nat, 0nat,
{
    match unicode_at(data, pos) {
        Some((text, e)) => Ok((Key::Bytes(encode_utf8(text)), e)),
        None => Err(ErrorKind::Codec),
    }
}

/// The key of an ascii value.
pub open spec fn ascii_key_at(env: Env, t: TAscii, data: Seq<u8>, pos: int) -> Result<
    (Key, int),
    ErrorKind,
>
    decreases data.len() - pos, 0nat, 0nat,
{
    match leaf_at(TYPE_UNICODE, data, pos) {
        Some((body, e)) => Ok((Key::Bytes(body), e)),
        None => Err(ErrorKind::Codec),
    }
}

/// The key of an uuid value.
pub open spec fn uuid_key_at(env: Env, t: TUuid, data: Seq<u8>, pos: int) -> Result<
    (Key, int),
    ErrorKind,
>
    decreases data.len() - pos, 0nat, 0nat,
{
    match binary_at(data, pos) {
        Some((body, e)) => if body.len() == 16 {
            Ok((Key::Bytes(body), e))
        } else {
            Err(ErrorKind::Codec)
        },
        None => Err(ErrorKind::Codec),
    }
}

/// The key of a key ref value.
pub open spec fn key_ref_key_at(env: Env, t: TKeyRef, data: Seq<u8>, pos: int) -> Result<
    (Key, int),
    ErrorKind,
>
    decreases data.len() - pos, 0nat, 0nat,
{
    match uint_at_most(data, pos, u32::MAX as nat) {
        Some((v, e)) => Ok((Key::Int(v as int), e)),
        None => Err(ErrorKind::Codec),
    }
}

/// The key of a decimal value.
pub open spec fn decimal_key_at(env: Env, t: TDecimal, data: Seq<u8>, pos: int) -> Result<
    (Key, int),
    ErrorKind,
>
    decreases data.len() - pos, 0nat, 0nat,
{
    match seq_header_at(data, pos) {
        Some((n, p)) => if n != 2 {
            Err(ErrorKind::Schema)
        } else {
            match sint_at(data, p) {
                Some((coefficient, q)) => match sint_at_within(
                    data,
                    q,
                    i8::MIN as int,
                    i8::MAX as int,
                ) {
                    Some((exponent, e)) => Ok(
                        (Key::List(seq![Key::Int(coefficient), Key::Int(exponent)]), e),
                    ),
                    None => Err(ErrorKind::Codec),
                },
                None => Err(ErrorKind::Codec),
            }
        },
        None => Err(ErrorKind::Codec),
    }
}

/// The key of an option value.
pub open spec fn option_key_at(env: Env, t: TOption, data: Seq<u8>, pos: int) -> Result<
    (Key, int),
    ErrorKind,
>
    decreases data.len() - pos, 0nat, 0nat,
{
    match presence_at(data, pos) {
        Some((Presence::Absent, e)) => Ok((Key::List(Seq::empty()), e)),
        Some((Presence::Present, p)) => if pos < p <= data.len() {
            match key_at(env, t.inner.target(), data, p) {
                Ok((k, e)) => Ok((Key::List(seq![k]), e)),
                Err(kind) => Err(kind),
            }
        } else {
            Err(ErrorKind::Codec)
        },
        None => Err(ErrorKind::Codec),
    }
}

/// The key of a sequence value.
pub open spec fn sequence_key_at(env: Env, t: TSeq, data: Seq<u8>, pos: int) -> Result<
    (Key, int),
    ErrorKind,
>
    decreases data.len() - pos, 0nat, 0nat,
{
    match seq_header_at(data, pos) {
        Some((n, p)) => if pos < p <= data.len() {
            match keys_at(
                env,
                Seq::new(n as nat, |i: int| t.element.target()),
                data,
                p,
                n as nat,
            ) {
                Ok((keys, e)) => Ok((Key::List(keys), e)),
                Err(kind) => Err(kind),
            }
        } else {
            Err(ErrorKind::Codec)
        },
        None => Err(ErrorKind::Codec),
    }
}

/// The key of a structure value.
pub open spec fn structure_key_at(env: Env, t: TStruct, data: Seq<u8>, pos: int) -> Result<
    (Key, int),
    ErrorKind,
>
    decreases data.len() - pos, 0nat, 0nat,
{
    match seq_header_at(data, pos) {
        Some((n, p)) => if n < t.fields@.len() {
            Err(ErrorKind::Schema)
        } else if pos < p <= data.len() {
            match keys_at(env, field_targets(t.fields@), data, p, t.fields@.len()) {
                Ok((keys, q)) => match values_end(data, q, (n - t.fields@.len()) as nat) {
                    Some(e) => Ok((Key::List(keys), e)),
                    None => Err(ErrorKind::Codec),
                },
                Err(kind) => Err(kind),
            }
        } else {
            Err(ErrorKind::Codec)
        },
        None => Err(ErrorKind::Codec),
    }
}

/// The key of an enumeration value.
pub open spec fn enumeration_key_at(env: Env, t: TEnum, data: Seq<u8>, pos: int) -> Result<
    (Key, int),
    ErrorKind,
>
    decreases data.len() - pos, 0nat, 0nat,
{
    match enum_header_at(data, pos) {
        Some((h, p)) => if h.ordinal >= t.variants@.len() {
            Err(ErrorKind::Schema)
        } else {
            let values = t.variants@[h.ordinal as int].values@;
            if h.number_of_values < values.len() {
                Err(ErrorKind::Schema)
            } else if pos < p <= data.len() {
                match keys_at(env, targets_of(values), data, p, values.len()) {
                    Ok((keys, q)) => match values_end(
                        data,
                        q,
                        (h.number_of_values - values.len()) as nat,
                    ) {
                        Some(e) => Ok((Key::List(seq![Key::Int(h.ordinal as int)] + keys), e)),
                        None => Err(ErrorKind::Codec),
                    },
                    Err(kind) => Err(kind),
                }
            } else {
                Err(ErrorKind::Codec)
            }
        },
        None => Err(ErrorKind::Codec),
    }
}

/// The key of a map value.
pub open spec fn map_key_at(env: Env, t: TMap, data: Seq<u8>, pos: int) -> Result<
    (Key, int),
    ErrorKind,
>
    decreases data.len() - pos, 0nat, 0nat,
{
    match seq_header_at(data, pos) {
        Some((n, p)) => if pos < p <= data.len() {
            match entry_keys_at(env, t.key.target(), t.value.target(), data, p, n as nat) {
                Ok((keys, e)) => Ok((Key::List(keys), e)),
                Err(kind) => Err(kind),
            }
        } else {
            Err(ErrorKind::Codec)
        },
        None => Err(ErrorKind::Codec),
    }
}

/// The key of a root map value.
pub open spec fn root_map_key_at(env: Env, t: TRootMap, data: Seq<u8>, pos: int) -> Result<
    (Key, int),
    ErrorKind,
>
    decreases data.len() - pos, 0nat, 0nat,
{
    match seq_header_at(data, pos) {
        Some((outer, p)) => if outer != 2 {
            Err(ErrorKind::Schema)
        } else if pos < p <= data.len() {
            match key_at(env, t.root.target(), data, p) {
                Ok((root, behind_root)) => match seq_header_at(data, behind_root) {
                    Some((n, q)) => if p <= behind_root < q <= data.len() {
                        match entry_keys_at(
                            env,
                            t.key.target(),
                            t.value.target(),
                            data,
                            q,
                            n as nat,
                        ) {
                            Ok((keys, e)) => Ok((Key::List(seq![root, Key::List(keys)]), e)),
                            Err(kind) => Err(kind),
                        }
                    } else {
                        Err(ErrorKind::Codec)
                    },
                    None => Err(ErrorKind::Codec),
                },
                Err(kind) => Err(kind),
            }
        } else {
            Err(ErrorKind::Codec)
        },
        None => Err(ErrorKind::Codec),
    }
}

/// The key of a range value.
pub open spec fn range_key_at(env: Env, t: TRange, data: Seq<u8>, pos: int) -> Result<
    (Key, int),
    ErrorKind,
>
    decreases data.len() - pos, 0nat, 0nat,
{
    match seq_header_at(data, pos) {
        Some((n, p)) => if n != range_items(t.inclusion) {
            Err(ErrorKind::Schema)
        } else if pos < p <= data.len() {
            match key_at(env, t.element.target(), data, p) {
                Ok((start, q)) => if p <= q <= data.len() {
                    match key_at(env, t.element.target(), data, q) {
                        Ok((end, behind_end)) => if t.inclusion == Inclusion::Supplied {
                            match range_flags_at(t.inclusion, data, behind_end) {
                                Some((start_included, end_included, e)) => Ok(
                                    (
                                        Key::List(
                                            seq![
                                                start,
                                                end,
                                                Key::Int(
                                                    if start_included {
                                                        1
                                                    } else {
                                                        0
                                                    },
                                                ),
                                                Key::Int(
                                                    if end_included {
                                                        1
                                                    } else {
                                                        0
                                                    },
                                                ),
                                            ],
                                        ),
                                        e,
                                    ),
                                ),
                                None => Err(ErrorKind::Codec),
                            }
                        } else {
                            Ok((Key::List(seq![start, end]), behind_end))
                        },
                        Err(kind) => Err(kind),
                    }
                } else {
                    Err(ErrorKind::Codec)
                },
                Err(kind) => Err(kind),
            }
        } else {
            Err(ErrorKind::Codec)
        },
        None => Err(ErrorKind::Codec),
    }
}

/// The keys of `k` values in a row, the `i`-th under the `i`-th reference,
/// and the position behind the last.
pub open spec fn keys_at(env: Env, targets: Seq<RefTarget>, data: Seq<u8>, first: int, k: nat)
    -> Result<(Seq<Key>, int), ErrorKind>
    decreases data.len() - first, 3nat, k,
{
    if k == 0 {
        Ok((Seq::empty(), first))
    } else if k > targets.len() {
        Err(ErrorKind::Reference)
    } else {
        match keys_at(env, targets, data, first, (k - 1) as nat) {
            Ok((keys, p)) => if first <= p <= data.len() {
                match key_at(env, targets[k - 1], data, p) {
                    Ok((key, e)) => Ok((keys.push(key), e)),
                    Err(kind) => Err(kind),
                }
            } else {
                Err(ErrorKind::Codec)
            },
            Err(kind) => Err(kind),
        }
    }
}

/// The keys of the first `k` entries of a map that start at `first`, each
/// the pair of the keys of its key and its value, and the position behind
/// the last.
pub open spec fn entry_keys_at(
    env: Env,
    key: RefTarget,
    value: RefTarget,
    data: Seq<u8>,
    first: int,
    k: nat,
) -> Result<(Seq<Key>, int), ErrorKind>
    decreases data.len() - first, 3nat, k,
{
    if k == 0 {
        Ok((Seq::empty(), first))
    } else {
        match entry_keys_at(env, key, value, data, first, (k - 1) as nat) {
            Ok((keys, p)) => match seq_header_at(data, p) {
                Some((n, q)) => if n != 2 {
                    Err(ErrorKind::Schema)
                } else if first <= p < q <= data.len() {
                    match key_at(env, key, data, q) {
                        Ok((a, v)) => if q <= v <= data.len() {
                            match key_at(env, value, data, v) {
                                Ok((b, e)) => Ok((keys.push(Key::List(seq![a, b])), e)),
                                Err(kind) => Err(kind),
                            }
                        } else {
                            Err(ErrorKind::Codec)
                        },
                        Err(kind) => Err(kind),
                    }
                } else {
                    Err(ErrorKind::Codec)
                },
                None => Err(ErrorKind::Codec),
            },
            Err(kind) => Err(kind),
        }
    }
}

} // verus!
