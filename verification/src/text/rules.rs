//! What bytes a text value stands for under a schema type. The functions
//! here are the reference that the parsers are proved to compute.

use crate::error::ErrorKind;
use crate::identifier::joined;
use crate::schema::any_type::AnyType;
use crate::schema::rules::{range_items, resolve_in, Env};
use crate::schema::type_ref::{RefTarget, TypeRef};
use crate::schema::types::enumeration::Variant;
use crate::schema::types::range::Inclusion;
use crate::schema::types::structure::Field;
use crate::text::converter::{
    binary_of, bool_of, decimal_value_of, i128_of, narrowed, u128_of,
};
use crate::text::value::{TextValue, Value};
use crate::types::binary::binary_bytes;
use crate::types::boolean::bool_bytes;
use crate::types::enumeration::{enum_header_bytes, EnumHeader};
use crate::types::float::{float_bytes, Float};
use crate::types::option::{presence_bytes, Presence};
use crate::types::seq::seq_header_bytes;
use crate::types::sint::sint_bytes;
use crate::types::uint::uint_bytes;
use crate::types::unicode::unicode_bytes;
use vstd::prelude::*;

verus! {

/// How many options may be nested around one text value: one more than the
/// schema has types. A chain of options that is longer runs in a circle.
pub open spec fn full_fuel(env: Env) -> nat {
    env.types.len() + 1
}

/// The key of an entry of a text map: the entry is a sequence of two whose
/// first item is a text.
pub open spec fn entry_key(entry: TextValue) -> Option<Seq<char>> {
    match entry.value {
        Value::Sequence(pair) => if pair@.len() == 2 {
            match pair@[0].value {
                Value::Text(key) => Some(key@),
                _ => None,
            }
        } else {
            None
        },
        _ => None,
    }
}

/// Whether every item is an entry of a text map with a text as its key.
pub open spec fn is_string_map(entries: Seq<TextValue>) -> bool {
    forall|i: int| 0 <= i < entries.len() ==> entry_key(#[trigger] entries[i]) is Some
}

/// The index of the last of the first `k` entries with the given key.
pub open spec fn last_entry(entries: Seq<TextValue>, key: Seq<char>, k: nat) -> Option<int>
    decreases k,
{
    if k == 0 || k > entries.len() {
        None
    } else if entry_key(entries[k - 1]) == Some(key) {
        Some(k - 1)
    } else {
        last_entry(entries, key, (k - 1) as nat)
    }
}

/// The names of the fields of a structure as they stand in text.
pub open spec fn field_names(fields: Seq<Field>) -> Seq<Seq<char>> {
    Seq::new(fields.len(), |i: int| joined(fields[i].identifier@))
}

/// Whether the key of each of the first `k` entries is one of the names.
pub open spec fn keys_known(entries: Seq<TextValue>, names: Seq<Seq<char>>, k: nat) -> bool
    decreases k,
{
    if k == 0 || k > entries.len() {
        true
    } else {
        keys_known(entries, names, (k - 1) as nat) && match entry_key(entries[k - 1]) {
            Some(key) => names.contains(key),
            None => false,
        }
    }
}

/// The ordinal of the first of the variants from the `i`-th on with the
/// given name.
pub open spec fn variant_index(variants: Seq<Variant>, name: Seq<char>, i: int) -> Option<int>
    decreases variants.len() - i,
{
    if i < 0 || i >= variants.len() {
        None
    } else if joined(variants[i].name@) == name {
        Some(i)
    } else {
        variant_index(variants, name, i + 1)
    }
}

/// The bytes that a text value stands for under the type that `r` points
/// at; or the kind of the first thing that keeps it from standing for any:
/// `Reference` for a reference that points at no type, `Codec` for a
/// sequence that is too long to be written, `TextParse` for a text value
/// that is not what the type expects.
pub open spec fn text_bytes(env: Env, r: RefTarget, v: TextValue, fuel: nat) -> Result<
    Seq<u8>,
    ErrorKind,
>
    decreases v, fuel, 2nat,
{
    match resolve_in(env, r) {
        Some(t) => type_text_bytes(env, t, v, fuel),
        None => Err(ErrorKind::Reference),
    }
}

/// The bytes that a text value stands for under a type.
///
/// A boolean is a boolean or one of the texts `true` and `false`. An integer
/// is a whole number or a text of digits. A float is a float. Binary data
/// and a UUID are a text in base64 or, behind `hex:`, in hexadecimal digits,
/// or a sequence of numbers. A text is a text. A key reference is the index
/// of the key. A decimal is a decimal text, a whole number or a sequence of
/// coefficient and exponent. An option is absent where nothing is there. A
/// sequence is a
/// sequence. A structure is a map from the names of its fields; a field that
/// is missing has to be an option and is absent. An enum value is the name
/// of a variant without values, or a map of one entry from the name of the
/// variant to its value, or to the sequence of its values where it has more
/// than one. A map is a sequence of entries, each a sequence of key and
/// value. A root map is a sequence of the root and the entries. A range is a
/// sequence of start and end, and of the two flags where the data supplies
/// them.
pub open spec fn type_text_bytes(env: Env, t: AnyType, v: TextValue, fuel: nat) -> Result<
    Seq<u8>,
    ErrorKind,
>
    decreases v, fuel, 1nat,
{
    match t {
        AnyType::Bool(_) => match bool_of(v.value) {
            Some(b) => Ok(bool_bytes(b)),
            None => Err(ErrorKind::TextParse),
        },
        AnyType::UInt(_) => match u128_of(v.value) {
            Some(n) => Ok(uint_bytes(n as nat)),
            None => Err(ErrorKind::TextParse),
        },
        AnyType::SInt(_) => match i128_of(v.value) {
            Some(n) => Ok(sint_bytes(n as int)),
            None => Err(ErrorKind::TextParse),
        },
        AnyType::Float32(_) => match v.value {
            Value::F64(bits) => match narrowed(bits) {
                Some(narrow) => Ok(float_bytes(Float::F32(narrow))),
                None => Err(ErrorKind::TextParse),
            },
            _ => Err(ErrorKind::TextParse),
        },
        AnyType::Float64(_) => match v.value {
            Value::F64(bits) => Ok(float_bytes(Float::F64(bits))),
            _ => Err(ErrorKind::TextParse),
        },
        AnyType::Binary(_) => match binary_of(v.value) {
            Some(bytes) => Ok(binary_bytes(bytes)),
            None => Err(ErrorKind::TextParse),
        },
        AnyType::Uuid(_) => match binary_of(v.value) {
            Some(bytes) => if bytes.len() == 16 {
                Ok(binary_bytes(bytes))
            } else {
                Err(ErrorKind::TextParse)
            },
            None => Err(ErrorKind::TextParse),
        },
        AnyType::Unicode(_) => match v.value {
            Value::Text(text) => Ok(unicode_bytes(text@)),
            _ => Err(ErrorKind::TextParse),
        },
        AnyType::Ascii(_) => match v.value {
            Value::Text(text) => Ok(unicode_bytes(text@)),
            _ => Err(ErrorKind::TextParse),
        },
        AnyType::KeyRef(_) => match u128_of(v.value) {
            Some(n) => if n <= u32::MAX {
                Ok(uint_bytes(n as nat))
            } else {
                Err(ErrorKind::TextParse)
            },
            None => Err(ErrorKind::TextParse),
        },
        AnyType::Decimal(_) => match v.value {
            Value::Sequence(parts) => if parts@.len() == 2 {
                match (i128_of(parts@[0].value), i128_of(parts@[1].value)) {
                    (Some(coefficient), Some(exponent)) => if i8::MIN <= exponent <= i8::MAX {
                        Ok(
                            seq_header_bytes(2) + sint_bytes(coefficient as int) + sint_bytes(
                                exponent as int,
                            ),
                        )
                    } else {
                        Err(ErrorKind::TextParse)
                    },
                    _ => Err(ErrorKind::TextParse),
                }
            } else {
                Err(ErrorKind::TextParse)
            },
            _ => match decimal_value_of(v.value) {
                Some((coefficient, exponent)) => Ok(
                    seq_header_bytes(2) + sint_bytes(coefficient as int) + sint_bytes(
                        exponent as int,
                    ),
                ),
                None => Err(ErrorKind::TextParse),
            },
        },
        AnyType::Option(o) => match v.value {
            Value::Nothing => Ok(presence_bytes(Presence::Absent)),
            _ => if fuel == 0 {
                Err(ErrorKind::TextParse)
            } else {
                match text_bytes(env, o.inner.target(), v, (fuel - 1) as nat) {
                    Ok(inner) => Ok(presence_bytes(Presence::Present) + inner),
                    Err(kind) => Err(kind),
                }
            },
        },
        AnyType::Sequence(s) => match v.value {
            Value::Sequence(items) => if items@.len() > u32::MAX {
                Err(ErrorKind::Codec)
            } else {
                match items_text_bytes(
                    env,
                    Seq::new(items@.len(), |i: int| s.element.target()),
                    items@,
                    items@.len(),
                ) {
                    Ok(bytes) => Ok(seq_header_bytes(items@.len() as u32) + bytes),
                    Err(kind) => Err(kind),
                }
            },
            _ => Err(ErrorKind::TextParse),
        },
        AnyType::Struct(s) => match v.value {
            Value::Sequence(entries) => if !is_string_map(entries@) || !keys_known(
                entries@,
                field_names(s.fields@),
                entries@.len(),
            ) {
                Err(ErrorKind::TextParse)
            } else if s.fields@.len() > u32::MAX {
                Err(ErrorKind::Codec)
            } else {
                match fields_text_bytes(env, s.fields@, entries@, s.fields@.len()) {
                    Ok(bytes) => Ok(seq_header_bytes(s.fields@.len() as u32) + bytes),
                    Err(kind) => Err(kind),
                }
            },
            _ => Err(ErrorKind::TextParse),
        },
        AnyType::Enum(e) => match v.value {
            Value::Text(name) => match variant_index(e.variants@, name@, 0) {
                Some(ordinal) => if ordinal <= u32::MAX && e.variants@[ordinal].values@.len() == 0 {
                    Ok(enum_header_bytes(EnumHeader { ordinal: ordinal as u32, number_of_values: 0 }))
                } else {
                    Err(ErrorKind::TextParse)
                },
                None => Err(ErrorKind::TextParse),
            },
            Value::Sequence(entries) => if entries@.len() != 1 {
                Err(ErrorKind::TextParse)
            } else {
                match entries@[0].value {
                    Value::Sequence(pair) => if pair@.len() != 2 {
                        Err(ErrorKind::TextParse)
                    } else {
                        match pair@[0].value {
                            Value::Text(name) => match variant_index(e.variants@, name@, 0) {
                                Some(ordinal) => if ordinal > u32::MAX {
                                    Err(ErrorKind::TextParse)
                                } else {
                                    variant_text_bytes(
                                        env,
                                        ordinal as u32,
                                        e.variants@[ordinal].values@,
                                        pair@[1],
                                    )
                                },
                                None => Err(ErrorKind::TextParse),
                            },
                            _ => Err(ErrorKind::TextParse),
                        }
                    },
                    _ => Err(ErrorKind::TextParse),
                }
            },
            _ => Err(ErrorKind::TextParse),
        },
        AnyType::Mapping(m) => match v.value {
            Value::Sequence(entries) => if entries@.len() > u32::MAX {
                Err(ErrorKind::Codec)
            } else {
                match entries_text_bytes(
                    env,
                    m.key.target(),
                    m.value.target(),
                    entries@,
                    entries@.len(),
                ) {
                    Ok(bytes) => Ok(seq_header_bytes(entries@.len() as u32) + bytes),
                    Err(kind) => Err(kind),
                }
            },
            _ => Err(ErrorKind::TextParse),
        },
        AnyType::RootMap(m) => match v.value {
            Value::Sequence(parts) => if parts@.len() != 2 {
                Err(ErrorKind::TextParse)
            } else {
                match text_bytes(env, m.root.target(), parts@[0], full_fuel(env)) {
                    Ok(root) => match parts@[1].value {
                        Value::Sequence(entries) => if entries@.len() > u32::MAX {
                            Err(ErrorKind::Codec)
                        } else {
                            match entries_text_bytes(
                                env,
                                m.key.target(),
                                m.value.target(),
                                entries@,
                                entries@.len(),
                            ) {
                                Ok(bytes) => Ok(
                                    seq_header_bytes(2) + root + seq_header_bytes(
                                        entries@.len() as u32,
                                    ) + bytes,
                                ),
                                Err(kind) => Err(kind),
                            }
                        },
                        _ => Err(ErrorKind::TextParse),
                    },
                    Err(kind) => Err(kind),
                }
            },
            _ => Err(ErrorKind::TextParse),
        },
        AnyType::Range(r) => match v.value {
            Value::Sequence(parts) => if parts@.len() != range_items(r.inclusion) {
                Err(ErrorKind::TextParse)
            } else {
                match text_bytes(env, r.element.target(), parts@[0], full_fuel(env)) {
                    Ok(start) => match text_bytes(
                        env,
                        r.element.target(),
                        parts@[1],
                        full_fuel(env),
                    ) {
                        Ok(end) => if r.inclusion == Inclusion::Supplied {
                            match (bool_of(parts@[2].value), bool_of(parts@[3].value)) {
                                (Some(start_included), Some(end_included)) => Ok(
                                    seq_header_bytes(4) + start + end + bool_bytes(start_included)
                                        + bool_bytes(end_included),
                                ),
                                _ => Err(ErrorKind::TextParse),
                            }
                        } else {
                            Ok(seq_header_bytes(2) + start + end)
                        },
                        Err(kind) => Err(kind),
                    },
                    Err(kind) => Err(kind),
                }
            },
            _ => Err(ErrorKind::TextParse),
        },
    }
}

/// The bytes of the first `k` items, the `i`-th under the `i`-th reference.
pub open spec fn items_text_bytes(
    env: Env,
    targets: Seq<RefTarget>,
    items: Seq<TextValue>,
    k: nat,
) -> Result<Seq<u8>, ErrorKind>
    decreases items, k, 0nat,
{
    if k == 0 {
        Ok(Seq::empty())
    } else if k > items.len() || k > targets.len() {
        Err(ErrorKind::TextParse)
    } else {
        match items_text_bytes(env, targets, items, (k - 1) as nat) {
            Ok(before) => match text_bytes(env, targets[k - 1], items[k - 1], full_fuel(env)) {
                Ok(bytes) => Ok(before + bytes),
                Err(kind) => Err(kind),
            },
            Err(kind) => Err(kind),
        }
    }
}

/// The value of an entry of a text map.
pub open spec fn entry_value(entry: TextValue) -> TextValue {
    entry.value->Sequence_0@[1]
}

/// The bytes of the first `k` fields of a structure, each read from the
/// last entry of the text map with the name of the field. A field without
/// an entry has to be an option and is absent.
pub open spec fn fields_text_bytes(env: Env, fields: Seq<Field>, entries: Seq<TextValue>, k: nat)
    -> Result<Seq<u8>, ErrorKind>
    decreases entries, k, 0nat,
{
    if k == 0 {
        Ok(Seq::empty())
    } else if k > fields.len() || !is_string_map(entries) {
        Err(ErrorKind::TextParse)
    } else {
        match fields_text_bytes(env, fields, entries, (k - 1) as nat) {
            Ok(before) => {
                let field = fields[k - 1];
                match last_entry(entries, joined(field.identifier@), entries.len()) {
                    Some(j) => if 0 <= j < entries.len() {
                        match text_bytes(
                            env,
                            field.type_ref.target(),
                            entry_value(entries[j]),
                            full_fuel(env),
                        ) {
                            Ok(bytes) => Ok(before + bytes),
                            Err(kind) => Err(kind),
                        }
                    } else {
                        Err(ErrorKind::TextParse)
                    },
                    None => match resolve_in(env, field.type_ref.target()) {
                        Some(AnyType::Option(_)) => Ok(before + presence_bytes(Presence::Absent)),
                        Some(_) => Err(ErrorKind::TextParse),
                        None => Err(ErrorKind::Reference),
                    },
                }
            },
            Err(kind) => Err(kind),
        }
    }
}

/// The bytes of an enum value of the variant with the given ordinal and
/// declared values: nothing for no value, the value itself for one, a
/// sequence of as many values for more.
pub open spec fn variant_text_bytes(env: Env, ordinal: u32, values: Seq<TypeRef>, v: TextValue)
    -> Result<Seq<u8>, ErrorKind>
    decreases v, full_fuel(env) + 1, 0nat,
{
    if values.len() == 0 {
        match v.value {
            Value::Nothing => Ok(enum_header_bytes(EnumHeader { ordinal, number_of_values: 0 })),
            _ => Err(ErrorKind::TextParse),
        }
    } else if values.len() == 1 {
        match text_bytes(env, values[0].target(), v, full_fuel(env)) {
            Ok(bytes) => Ok(
                enum_header_bytes(EnumHeader { ordinal, number_of_values: 1 }) + bytes,
            ),
            Err(kind) => Err(kind),
        }
    } else {
        match v.value {
            Value::Sequence(items) => if items@.len() != values.len() || values.len()
                > u32::MAX {
                Err(ErrorKind::TextParse)
            } else {
                match items_text_bytes(
                    env,
                    Seq::new(values.len(), |i: int| values[i].target()),
                    items@,
                    items@.len(),
                ) {
                    Ok(bytes) => Ok(
                        enum_header_bytes(
                            EnumHeader { ordinal, number_of_values: values.len() as u32 },
                        ) + bytes,
                    ),
                    Err(kind) => Err(kind),
                }
            },
            _ => Err(ErrorKind::TextParse),
        }
    }
}

/// The bytes of the first `k` entries of a map: each a sequence of the key
/// and the value.
pub open spec fn entries_text_bytes(
    env: Env,
    key: RefTarget,
    value: RefTarget,
    entries: Seq<TextValue>,
    k: nat,
) -> Result<Seq<u8>, ErrorKind>
    decreases entries, k, 0nat,
{
    if k == 0 {
        Ok(Seq::empty())
    } else if k > entries.len() {
        Err(ErrorKind::TextParse)
    } else {
        match entries_text_bytes(env, key, value, entries, (k - 1) as nat) {
            Ok(before) => match entries[k - 1].value {
                Value::Sequence(pair) => if pair@.len() != 2 {
                    Err(ErrorKind::TextParse)
                } else {
                    match text_bytes(env, key, pair@[0], full_fuel(env)) {
                        Ok(a) => match text_bytes(env, value, pair@[1], full_fuel(env)) {
                            Ok(b) => Ok(before + seq_header_bytes(2) + a + b),
                            Err(kind) => Err(kind),
                        },
                        Err(kind) => Err(kind),
                    }
                },
                _ => Err(ErrorKind::TextParse),
            },
            Err(kind) => Err(kind),
        }
    }
}

} // verus!
