//! The parsers: one for each schema type. A parser appends to a writer the
//! bytes that a text value stands for under its type.

use crate::error::{ErrorKind, LqError};
use crate::schema::any_type::AnyType;
use crate::schema::container::{lemma_found, TypeContainer};
use crate::schema::rules::{validate_at, Env};
use crate::schema::type_ref::{Config, RefTarget, TypeRef};
use crate::schema::types::ascii::TAscii;
use crate::schema::types::enumeration::{same_text, TEnum, Variant};
use crate::schema::types::map::TMap;
use crate::schema::types::option::TOption;
use crate::schema::types::range::{Inclusion, TRange};
use crate::schema::types::root_map::TRootMap;
use crate::schema::types::seq::TSeq;
use crate::schema::types::structure::{Field, TStruct};
use crate::slice_reader::SliceReader;
use crate::text::converter::{Converter, IdentifierType};
use crate::text::rules::{
    entries_text_bytes, entry_key, field_names, fields_text_bytes, full_fuel, is_string_map,
    items_text_bytes, keys_known, last_entry, text_bytes, type_text_bytes, variant_index,
    variant_text_bytes,
};
use crate::text::value::{TextValue, Value};
use crate::types::binary::Binary;
use crate::types::boolean::Bool;
use crate::types::enumeration::EnumHeader;
use crate::types::float::{Float32, Float64};
use crate::types::option::Presence;
use crate::types::seq::SeqHeader;
use crate::types::sint::SInt128;
use crate::types::uint::UInt128;
use crate::types::unicode::Unicode;
use crate::vec_writer::VecWriter;
use vstd::prelude::*;
use vstd::string::*;

verus! {

/// Parses options.
pub struct POption;

/// Parses sequences.
pub struct PSeq;

/// Parses structures.
pub struct PStruct;

/// Parses enum values.
pub struct PEnum;

/// Parses maps.
pub struct PMap;

/// Parses root maps.
pub struct PRootMap;

/// Parses ranges.
pub struct PRange;

/// Parses ASCII texts.
pub struct PAscii;

/// Whether a parser went as the rules say: on success it has appended the
/// bytes that the rules give, on failure the error is of the kind that the
/// rules give.
pub open spec fn parse_outcome(
    r: Result<(), LqError>,
    before: Seq<u8>,
    after: Seq<u8>,
    rule: Result<Seq<u8>, ErrorKind>,
) -> bool {
    match r {
        Ok(_) => rule is Ok && after == before + rule.unwrap(),
        Err(e) => rule == Err::<Seq<u8>, ErrorKind>(e.kind),
    }
}

/// Where the first `k` items stand for no bytes, more items stand for none
/// either, for the same reason.
pub proof fn lemma_items_text_prefix(
    env: Env,
    targets: Seq<RefTarget>,
    items: Seq<TextValue>,
    k: nat,
    n: nat,
)
    requires
        k <= n <= items.len(),
        n <= targets.len(),
        items_text_bytes(env, targets, items, k) is Err,
    ensures
        items_text_bytes(env, targets, items, n) == items_text_bytes(env, targets, items, k),
    decreases n,
{
    if k < n {
        lemma_items_text_prefix(env, targets, items, k, (n - 1) as nat);
    }
}

/// Where the first `k` fields stand for no bytes, more fields stand for
/// none either, for the same reason.
pub proof fn lemma_fields_text_prefix(
    env: Env,
    fields: Seq<Field>,
    entries: Seq<TextValue>,
    k: nat,
    n: nat,
)
    requires
        k <= n <= fields.len(),
        is_string_map(entries),
        fields_text_bytes(env, fields, entries, k) is Err,
    ensures
        fields_text_bytes(env, fields, entries, n) == fields_text_bytes(env, fields, entries, k),
    decreases n,
{
    if k < n {
        lemma_fields_text_prefix(env, fields, entries, k, (n - 1) as nat);
    }
}

/// Where the first `k` entries stand for no bytes, more entries stand for
/// none either, for the same reason.
pub proof fn lemma_entries_text_prefix(
    env: Env,
    key: RefTarget,
    value: RefTarget,
    entries: Seq<TextValue>,
    k: nat,
    n: nat,
)
    requires
        k <= n <= entries.len(),
        entries_text_bytes(env, key, value, entries, k) is Err,
    ensures
        entries_text_bytes(env, key, value, entries, n) == entries_text_bytes(
            env,
            key,
            value,
            entries,
            k,
        ),
    decreases n,
{
    if k < n {
        lemma_entries_text_prefix(env, key, value, entries, k, (n - 1) as nat);
    }
}

/// How many options may be nested around one text value.
pub fn full_fuel_of(schema: &TypeContainer) -> (fuel: u128)
    ensures
        fuel == full_fuel(schema.env(true)),
{
    schema.types.len() as u128 + 1
}

/// Appends the bytes that a text value stands for under the type that the
/// reference points at. An error gets the position of the innermost text
/// value that has one and in which it came up.
pub fn parse_value(
    schema: &TypeContainer,
    writer: &mut VecWriter,
    type_ref: &TypeRef,
    value: &TextValue,
    fuel: u128,
) -> (r: Result<(), LqError>)
    ensures
        parse_outcome(
            r,
            old(writer)@,
            final(writer)@,
            text_bytes(schema.env(true), type_ref.target(), *value, fuel as nat),
        ),
        r matches Err(e) ==> (value.position is Some ==> e.position is Some),
    decreases value, fuel, 2nat,
{
    proof {
        lemma_found(schema.env(true), schema.names@, type_ref.target());
    }
    let outcome = match schema.resolve(type_ref) {
        Ok(t) => parse_any(schema, t, value, writer, fuel),
        Err(e) => Err(e),
    };
    match outcome {
        Ok(_) => Ok(()),
        Err(e) => match (e.position(), value.position) {
            (None, Some(position)) => Err(e.with_position(position)),
            _ => Err(e),
        },
    }
}

/// Appends the bytes that a text value stands for under a type: hands the
/// value to the parser of the type.
pub fn parse_any(
    schema: &TypeContainer,
    any_type: &AnyType,
    text_value: &TextValue,
    writer: &mut VecWriter,
    fuel: u128,
) -> (r: Result<(), LqError>)
    ensures
        parse_outcome(
            r,
            old(writer)@,
            final(writer)@,
            type_text_bytes(schema.env(true), *any_type, *text_value, fuel as nat),
        ),
    decreases text_value, fuel, 1nat,
{
    let ghost before = writer@;
    match any_type {
        AnyType::Option(value) => POption::parse(schema, writer, text_value, value, fuel),
        AnyType::UInt(_) => {
            let number = Converter::require_u128(&text_value.value)?;
            UInt128::serialize(writer, &number);
            Ok(())
        },
        AnyType::SInt(_) => {
            let number = Converter::require_i128(&text_value.value)?;
            SInt128::serialize(writer, &number);
            Ok(())
        },
        AnyType::Struct(value) => PStruct::parse(schema, writer, text_value, value, fuel),
        AnyType::Sequence(value) => PSeq::parse(schema, writer, text_value, value, fuel),
        AnyType::Binary(_) => {
            let bytes = Converter::require_binary(&text_value.value)?;
            let _length = bytes.len();
            Binary::serialize(writer, bytes.as_slice());
            Ok(())
        },
        AnyType::Ascii(value) => PAscii::parse(writer, text_value, value),
        AnyType::Enum(value) => PEnum::parse(schema, writer, text_value, value, fuel),
        AnyType::Bool(_) => {
            let boolean = Converter::require_bool(&text_value.value)?;
            Bool::serialize(writer, &boolean);
            Ok(())
        },
        AnyType::Unicode(_) => {
            let text = Converter::require_text(&text_value.value)?;
            Unicode::serialize(writer, text);
            Ok(())
        },
        AnyType::Float32(_) => {
            let bits = Converter::require_f32(&text_value.value)?;
            Float32::serialize(writer, &bits);
            Ok(())
        },
        AnyType::Float64(_) => {
            let bits = Converter::require_f64(&text_value.value)?;
            Float64::serialize(writer, &bits);
            Ok(())
        },
        AnyType::Uuid(_) => {
            let bytes = Converter::require_binary(&text_value.value)?;
            if bytes.len() != 16 {
                return LqError::err_new(ErrorKind::TextParse, "A UUID needs 16 bytes");
            }
            Binary::serialize(writer, bytes.as_slice());
            Ok(())
        },
        AnyType::Range(value) => PRange::parse(schema, writer, text_value, value, fuel),
        AnyType::Mapping(value) => PMap::parse(schema, writer, text_value, value, fuel),
        AnyType::RootMap(value) => PRootMap::parse(schema, writer, text_value, value, fuel),
        AnyType::KeyRef(_) => {
            let number = Converter::require_u128(&text_value.value)?;
            if number > u32::MAX as u128 {
                return LqError::err_new(ErrorKind::TextParse, "A key reference is an index");
            }
            UInt128::serialize(writer, &number);
            Ok(())
        },
        AnyType::Decimal(_) => {
            match &text_value.value {
                Value::Sequence(parts) => {
                    if parts.len() != 2 {
                        return LqError::err_new(
                            ErrorKind::TextParse,
                            "Expecting a decimal value: a coefficient and an exponent",
                        );
                    }
                    let coefficient = Converter::to_i128(&parts[0].value);
                    let exponent = Converter::to_i128(&parts[1].value);
                    match (coefficient, exponent) {
                        (Some(c), Some(x)) => {
                            if x < i8::MIN as i128 || x > i8::MAX as i128 {
                                return LqError::err_new(
                                    ErrorKind::TextParse,
                                    "The exponent of a decimal has 8 bits",
                                );
                            }
                            SeqHeader::serialize(writer, &SeqHeader::new(2));
                            SInt128::serialize(writer, &c);
                            SInt128::serialize(writer, &x);
                            proof {
                                assert(writer@ =~= before + (crate::types::seq::seq_header_bytes(2)
                                    + crate::types::sint::sint_bytes(c as int)
                                    + crate::types::sint::sint_bytes(x as int)));
                            }
                            Ok(())
                        },
                        _ => LqError::err_new(
                            ErrorKind::TextParse,
                            "Expecting a decimal value: coefficient and exponent are whole numbers",
                        ),
                    }
                },
                other => {
                    let decimal = Converter::require_decimal(other)?;
                    let coefficient = decimal.coefficient();
                    let exponent: i128 = decimal.exponent() as i128;
                    SeqHeader::serialize(writer, &SeqHeader::new(2));
                    SInt128::serialize(writer, &coefficient);
                    SInt128::serialize(writer, &exponent);
                    proof {
                        assert(writer@ =~= before + (crate::types::seq::seq_header_bytes(2)
                            + crate::types::sint::sint_bytes(coefficient as int)
                            + crate::types::sint::sint_bytes(exponent as int)));
                    }
                    Ok(())
                },
            }
        },
    }
}

impl PAscii {
    /// Parses an ASCII text: a text.
    pub fn parse(writer: &mut VecWriter, value: &TextValue, ascii: &TAscii) -> (r: Result<
        (),
        LqError,
    >)
        ensures
            parse_outcome(
                r,
                old(writer)@,
                final(writer)@,
                match value.value {
                    Value::Text(text) => Ok(crate::types::unicode::unicode_bytes(text@)),
                    _ => Err(ErrorKind::TextParse),
                },
            ),
    {
        let text = Converter::require_text(value.as_ref())?;
        Unicode::serialize(writer, text);
        Ok(())
    }
}

impl POption {
    /// Parses an option: absent where nothing is there, else present with
    /// what the value stands for under the inner type.
    pub fn parse(
        schema: &TypeContainer,
        writer: &mut VecWriter,
        value: &TextValue,
        option: &TOption,
        fuel: u128,
    ) -> (r: Result<(), LqError>)
        ensures
            parse_outcome(
                r,
                old(writer)@,
                final(writer)@,
                type_text_bytes(schema.env(true), AnyType::Option(*option), *value, fuel as nat),
            ),
        decreases value, fuel, 0nat,
    {
        let ghost before = writer@;
        if value.as_ref().is_nothing() {
            Presence::serialize(writer, &Presence::Absent);
            Ok(())
        } else {
            if fuel == 0 {
                return LqError::err_new(
                    ErrorKind::TextParse,
                    "The schema nests options in a circle",
                );
            }
            Presence::serialize(writer, &Presence::Present);
            let r = parse_value(schema, writer, &option.inner, value, fuel - 1);
            proof {
                if r is Ok {
                    let inner = text_bytes(
                        schema.env(true),
                        option.inner.target(),
                        *value,
                        (fuel - 1) as nat,
                    ).unwrap();
                    assert(writer@ =~= before + (crate::types::option::presence_bytes(
                        Presence::Present,
                    ) + inner));
                }
            }
            r
        }
    }
}

/// Appends the bytes of the items of a text sequence, each under one type.
pub fn parse_elements(
    schema: &TypeContainer,
    writer: &mut VecWriter,
    element: &TypeRef,
    items: &Vec<TextValue>,
) -> (r: Result<(), LqError>)
    ensures
        parse_outcome(
            r,
            old(writer)@,
            final(writer)@,
            items_text_bytes(
                schema.env(true),
                Seq::new(items@.len(), |i: int| element.target()),
                items@,
                items@.len(),
            ),
        ),
    decreases items, 0nat, 3nat,
{
    let ghost env = schema.env(true);
    let ghost before = writer@;
    let ghost targets = Seq::new(items@.len(), |i: int| element.target());
    let fuel = full_fuel_of(schema);
    let mut index: usize = 0;
    while index < items.len()
        invariant
            env == schema.env(true),
            targets == Seq::new(items@.len(), |i: int| element.target()),
            fuel == full_fuel(env),
            index <= items@.len(),
            items_text_bytes(env, targets, items@, index as nat) is Ok,
            writer@ == before + items_text_bytes(env, targets, items@, index as nat).unwrap(),
        decreases items.len() - index,
    {
        let ghost so_far = items_text_bytes(env, targets, items@, index as nat).unwrap();
        proof {
            assert(decreases_to!(items => items[index as int]));
            if items_text_bytes(env, targets, items@, (index + 1) as nat) is Err {
                lemma_items_text_prefix(env, targets, items@, (index + 1) as nat, items@.len());
            }
        }
        parse_value(schema, writer, element, &items[index], fuel)?;
        proof {
            let bytes = text_bytes(env, element.target(), items@[index as int], fuel as nat).unwrap();
            assert(writer@ =~= before + (so_far + bytes));
        }
        index += 1;
    }
    Ok(())
}

/// Appends the bytes of the items of a text sequence, the `i`-th under the
/// `i`-th of the given types.
pub fn parse_items(
    schema: &TypeContainer,
    writer: &mut VecWriter,
    refs: &[TypeRef],
    items: &Vec<TextValue>,
) -> (r: Result<(), LqError>)
    requires
        refs@.len() == items@.len(),
    ensures
        parse_outcome(
            r,
            old(writer)@,
            final(writer)@,
            items_text_bytes(
                schema.env(true),
                Seq::new(refs@.len(), |i: int| refs@[i].target()),
                items@,
                items@.len(),
            ),
        ),
    decreases items, 0nat, 3nat,
{
    let ghost env = schema.env(true);
    let ghost before = writer@;
    let ghost targets = Seq::new(refs@.len(), |i: int| refs@[i].target());
    let fuel = full_fuel_of(schema);
    let mut index: usize = 0;
    while index < items.len()
        invariant
            env == schema.env(true),
            targets == Seq::new(refs@.len(), |i: int| refs@[i].target()),
            refs@.len() == items@.len(),
            fuel == full_fuel(env),
            index <= items@.len(),
            items_text_bytes(env, targets, items@, index as nat) is Ok,
            writer@ == before + items_text_bytes(env, targets, items@, index as nat).unwrap(),
        decreases items.len() - index,
    {
        let ghost so_far = items_text_bytes(env, targets, items@, index as nat).unwrap();
        proof {
            assert(decreases_to!(items => items[index as int]));
            if items_text_bytes(env, targets, items@, (index + 1) as nat) is Err {
                lemma_items_text_prefix(env, targets, items@, (index + 1) as nat, items@.len());
            }
        }
        parse_value(schema, writer, &refs[index], &items[index], fuel)?;
        proof {
            let bytes = text_bytes(env, refs@[index as int].target(), items@[index as int], fuel as nat).unwrap();
            assert(writer@ =~= before + (so_far + bytes));
        }
        index += 1;
    }
    Ok(())
}

/// Appends the bytes of the entries of a text map: for each entry a
/// sequence of its key and its value.
pub fn parse_map(
    schema: &TypeContainer,
    writer: &mut VecWriter,
    key: &TypeRef,
    value: &TypeRef,
    entries: &Vec<TextValue>,
) -> (r: Result<(), LqError>)
    ensures
        parse_outcome(
            r,
            old(writer)@,
            final(writer)@,
            entries_text_bytes(
                schema.env(true),
                key.target(),
                value.target(),
                entries@,
                entries@.len(),
            ),
        ),
    decreases entries, 0nat, 3nat,
{
    let ghost env = schema.env(true);
    let ghost before = writer@;
    let fuel = full_fuel_of(schema);
    let mut index: usize = 0;
    while index < entries.len()
        invariant
            env == schema.env(true),
            fuel == full_fuel(env),
            index <= entries@.len(),
            entries_text_bytes(env, key.target(), value.target(), entries@, index as nat) is Ok,
            writer@ == before + entries_text_bytes(
                env,
                key.target(),
                value.target(),
                entries@,
                index as nat,
            ).unwrap(),
        decreases entries.len() - index,
    {
        let ghost so_far = entries_text_bytes(
            env,
            key.target(),
            value.target(),
            entries@,
            index as nat,
        ).unwrap();
        proof {
            assert(decreases_to!(entries => entries[index as int]));
            if entries_text_bytes(env, key.target(), value.target(), entries@, (index + 1) as nat)
                is Err {
                lemma_entries_text_prefix(
                    env,
                    key.target(),
                    value.target(),
                    entries@,
                    (index + 1) as nat,
                    entries@.len(),
                );
            }
        }
        let pair = Converter::require_seq(&entries[index].value)?;
        if pair.len() != 2 {
            return LqError::err_new(
                ErrorKind::TextParse,
                "An entry of a map is a sequence of a key and a value",
            );
        }
        SeqHeader::serialize(writer, &SeqHeader::new(2));
        proof {
            assert(decreases_to!(pair => pair[0]));
            assert(decreases_to!(pair => pair[1]));
        }
        parse_value(schema, writer, key, &pair[0], fuel)?;
        parse_value(schema, writer, value, &pair[1], fuel)?;
        proof {
            let a = text_bytes(env, key.target(), pair@[0], fuel as nat).unwrap();
            let b = text_bytes(env, value.target(), pair@[1], fuel as nat).unwrap();
            assert(writer@ =~= before + (so_far + crate::types::seq::seq_header_bytes(2) + a + b));
        }
        index += 1;
    }
    Ok(())
}

impl PSeq {
    /// Parses a sequence: a text sequence, item by item.
    pub fn parse(
        schema: &TypeContainer,
        writer: &mut VecWriter,
        value: &TextValue,
        seq: &TSeq,
        fuel: u128,
    ) -> (r: Result<(), LqError>)
        ensures
            parse_outcome(
                r,
                old(writer)@,
                final(writer)@,
                type_text_bytes(schema.env(true), AnyType::Sequence(*seq), *value, fuel as nat),
            ),
        decreases value, fuel, 0nat,
    {
        let ghost before = writer@;
        let items = Converter::require_seq(&value.value)?;
        let len = items.len();
        if len > u32::MAX as usize {
            return LqError::err_new(ErrorKind::Codec, "The sequence has too many items");
        }
        SeqHeader::serialize(writer, &SeqHeader::new(len as u32));
        let r = parse_elements(schema, writer, &seq.element, items);
        proof {
            if r is Ok {
                let bytes = items_text_bytes(
                    schema.env(true),
                    Seq::new(items@.len(), |i: int| seq.element.target()),
                    items@,
                    items@.len(),
                ).unwrap();
                assert(writer@ =~= before + (crate::types::seq::seq_header_bytes(len as u32)
                    + bytes));
            }
        }
        r
    }
}

impl PMap {
    /// Parses a map: a text sequence of entries, each a sequence of a key
    /// and a value. The entries are written in the order in which they
    /// stand.
    pub fn parse(
        schema: &TypeContainer,
        writer: &mut VecWriter,
        value: &TextValue,
        map: &TMap,
        fuel: u128,
    ) -> (r: Result<(), LqError>)
        ensures
            parse_outcome(
                r,
                old(writer)@,
                final(writer)@,
                type_text_bytes(schema.env(true), AnyType::Mapping(*map), *value, fuel as nat),
            ),
        decreases value, fuel, 0nat,
    {
        let ghost before = writer@;
        let entries = Converter::require_seq(&value.value)?;
        let len = entries.len();
        if len > u32::MAX as usize {
            return LqError::err_new(ErrorKind::Codec, "The map has too many entries");
        }
        SeqHeader::serialize(writer, &SeqHeader::new(len as u32));
        let r = parse_map(schema, writer, &map.key, &map.value, entries);
        proof {
            if r is Ok {
                let bytes = entries_text_bytes(
                    schema.env(true),
                    map.key.target(),
                    map.value.target(),
                    entries@,
                    entries@.len(),
                ).unwrap();
                assert(writer@ =~= before + (crate::types::seq::seq_header_bytes(len as u32)
                    + bytes));
            }
        }
        r
    }
}

impl PRootMap {
    /// Parses a root map: a text sequence of the root and the entries.
    pub fn parse(
        schema: &TypeContainer,
        writer: &mut VecWriter,
        value: &TextValue,
        map: &TRootMap,
        fuel: u128,
    ) -> (r: Result<(), LqError>)
        ensures
            parse_outcome(
                r,
                old(writer)@,
                final(writer)@,
                type_text_bytes(schema.env(true), AnyType::RootMap(*map), *value, fuel as nat),
            ),
        decreases value, fuel, 0nat,
    {
        let ghost env = schema.env(true);
        let ghost before = writer@;
        let parts = Converter::require_seq(&value.value)?;
        if parts.len() != 2 {
            return LqError::err_new(
                ErrorKind::TextParse,
                "A root map is a sequence of the root and the entries",
            );
        }
        let full = full_fuel_of(schema);
        SeqHeader::serialize(writer, &SeqHeader::new(2));
        proof {
            assert(decreases_to!(parts => parts[0]));
            assert(decreases_to!(parts => parts[1]));
        }
        parse_value(schema, writer, &map.root, &parts[0], full)?;
        let entries = Converter::require_seq(&parts[1].value)?;
        let len = entries.len();
        if len > u32::MAX as usize {
            return LqError::err_new(ErrorKind::Codec, "The map has too many entries");
        }
        SeqHeader::serialize(writer, &SeqHeader::new(len as u32));
        let r = parse_map(schema, writer, &map.key, &map.value, entries);
        proof {
            if r is Ok {
                let root = text_bytes(env, map.root.target(), parts@[0], full as nat).unwrap();
                let bytes = entries_text_bytes(
                    env,
                    map.key.target(),
                    map.value.target(),
                    entries@,
                    entries@.len(),
                ).unwrap();
                assert(writer@ =~= before + (crate::types::seq::seq_header_bytes(2) + root
                    + crate::types::seq::seq_header_bytes(len as u32) + bytes));
            }
        }
        r
    }
}

impl PRange {
    /// Parses a range: a text sequence of start and end, and of the two
    /// flags where the data supplies the inclusion.
    pub fn parse(
        schema: &TypeContainer,
        writer: &mut VecWriter,
        value: &TextValue,
        range: &TRange,
        fuel: u128,
    ) -> (r: Result<(), LqError>)
        ensures
            parse_outcome(
                r,
                old(writer)@,
                final(writer)@,
                type_text_bytes(schema.env(true), AnyType::Range(*range), *value, fuel as nat),
            ),
        decreases value, fuel, 0nat,
    {
        let ghost env = schema.env(true);
        let ghost before = writer@;
        let sequence = Converter::require_seq(&value.value)?;
        let supplied_inclusion = match range.inclusion() {
            Inclusion::Supplied => true,
            _ => false,
        };
        let number_of_fields: usize = if supplied_inclusion {
            4
        } else {
            2
        };

        if sequence.len() != number_of_fields {
            return LqError::err_new(
                ErrorKind::TextParse,
                "Range parsing: Got a sequence (this is correct) but the sequence has another length than needed: [start, end, start included, end included] or just [start, end] (when schema provides inclusion).",
            );
        }

        let full = full_fuel_of(schema);
        SeqHeader::serialize(writer, &SeqHeader::new(number_of_fields as u32));
        proof {
            assert(decreases_to!(sequence => sequence[0]));
            assert(decreases_to!(sequence => sequence[1]));
        }

        parse_value(schema, writer, range.element(), &sequence[0], full)?;
        parse_value(schema, writer, range.element(), &sequence[1], full)?;
        let ghost start = text_bytes(env, range.element.target(), sequence@[0], full as nat).unwrap();
        let ghost end = text_bytes(env, range.element.target(), sequence@[1], full as nat).unwrap();

        if supplied_inclusion {
            let first = Converter::to_bool(&sequence[2].value);
            let second = Converter::to_bool(&sequence[3].value);
            match (first, second) {
                (Some(start_included), Some(end_included)) => {
                    Bool::serialize(writer, &start_included);
                    Bool::serialize(writer, &end_included);
                    proof {
                        assert(writer@ =~= before + (crate::types::seq::seq_header_bytes(4) + start
                            + end + crate::types::boolean::bool_bytes(start_included)
                            + crate::types::boolean::bool_bytes(end_included)));
                    }
                },
                _ => {
                    return LqError::err_new(ErrorKind::TextParse, "Expecting a boolean");
                },
            }
        } else {
            proof {
                assert(writer@ =~= before + (crate::types::seq::seq_header_bytes(2) + start + end));
            }
        }

        Ok(())
    }
}

/// The names of the fields of a structure as they stand in text.
pub fn names_of_fields(fields: &[Field]) -> (names: Vec<String>)
    ensures
        names@.len() == fields@.len(),
        forall|i: int|
            0 <= i < names@.len() ==> (#[trigger] names@[i])@ == field_names(fields@)[i],
{
    let mut names: Vec<String> = Vec::new();
    let mut index: usize = 0;
    while index < fields.len()
        invariant
            index <= fields@.len(),
            names@.len() == index,
            forall|i: int| 0 <= i < index ==> (#[trigger] names@[i])@ == field_names(fields@)[i],
        decreases fields.len() - index,
    {
        names.push(
            Converter::identifier_to_string(&fields[index].identifier, IdentifierType::StructField),
        );
        index += 1;
    }
    names
}

/// The key of an entry of a text map.
pub fn key_of_entry(entry: &TextValue) -> (r: Option<&str>)
    ensures
        match r {
            Some(key) => entry_key(*entry) == Some(key@),
            None => entry_key(*entry) is None,
        },
{
    match &entry.value {
        Value::Sequence(pair) => if pair.len() == 2 {
            Converter::to_text(&pair[0].value)
        } else {
            None
        },
        _ => None,
    }
}

/// Finds the last entry of a text map with the given key.
pub fn find_entry(entries: &Vec<TextValue>, key: &str) -> (r: Option<usize>)
    ensures
        match r {
            Some(j) => last_entry(entries@, key@, entries@.len()) == Some(j as int) && j
                < entries@.len(),
            None => last_entry(entries@, key@, entries@.len()) is None,
        },
{
    let mut index: usize = entries.len();
    while index > 0
        invariant
            index <= entries@.len(),
            last_entry(entries@, key@, entries@.len()) == last_entry(
                entries@,
                key@,
                index as nat,
            ),
        decreases index,
    {
        match key_of_entry(&entries[index - 1]) {
            Some(own) => if same_text(own, key) {
                return Some(index - 1);
            },
            None => {},
        }
        index -= 1;
    }
    None
}

/// Whether the text is one of the names.
pub fn is_name(names: &Vec<String>, text: &str) -> (b: bool)
    ensures
        b == exists|i: int| 0 <= i < names@.len() && (#[trigger] names@[i])@ == text@,
{
    let mut index: usize = 0;
    while index < names.len()
        invariant
            index <= names@.len(),
            forall|i: int| 0 <= i < index ==> (#[trigger] names@[i])@ != text@,
        decreases names.len() - index,
    {
        if same_text(names[index].as_str(), text) {
            return true;
        }
        index += 1;
    }
    false
}

impl PStruct {
    /// Parses a structure: a text map from the names of the fields. Each
    /// key of the map has to be the name of a field. The fields are written
    /// in the order of the schema; a field without an entry has to be an
    /// option and is written as absent.
    pub fn parse(
        schema: &TypeContainer,
        writer: &mut VecWriter,
        value: &TextValue,
        structure: &TStruct,
        fuel: u128,
    ) -> (r: Result<(), LqError>)
        ensures
            parse_outcome(
                r,
                old(writer)@,
                final(writer)@,
                type_text_bytes(schema.env(true), AnyType::Struct(*structure), *value, fuel as nat),
            ),
        decreases value, fuel, 0nat,
    {
        let ghost env = schema.env(true);
        let ghost before = writer@;
        let entries = Converter::require_seq(&value.value)?;
        let names = names_of_fields(structure.fields.as_slice());
        let ghost all_names = field_names(structure.fields@);
        // every entry has a text as its key, and the key is the name of a field
        let mut index: usize = 0;
        while index < entries.len()
            invariant
                index <= entries@.len(),
                names@.len() == all_names.len(),
                all_names == field_names(structure.fields@),
                forall|i: int| 0 <= i < names@.len() ==> (#[trigger] names@[i])@ == all_names[i],
                forall|i: int| 0 <= i < index ==> entry_key(#[trigger] entries@[i]) is Some,
                keys_known(entries@, all_names, index as nat),
                value.value == Value::Sequence(*entries),
            decreases entries.len() - index,
        {
            match key_of_entry(&entries[index]) {
                Some(key) => {
                    if !is_name(&names, key) {
                        proof {
                            assert(!all_names.contains(key@)) by {
                                if all_names.contains(key@) {
                                    let j = choose|j: int|
                                        0 <= j < all_names.len() && all_names[j] == key@;
                                    assert(names@[j]@ == key@);
                                }
                            }
                            lemma_keys_known_prefix(
                                entries@,
                                all_names,
                                (index + 1) as nat,
                                entries@.len(),
                            );
                        }
                        return LqError::err_new(
                            ErrorKind::TextParse,
                            "The structure has a field that the schema does not know",
                        );
                    }
                    proof {
                        let j = choose|j: int|
                            0 <= j < names@.len() && (#[trigger] names@[j])@ == key@;
                        assert(all_names[j] == key@);
                    }
                },
                None => {
                    return LqError::err_new(
                        ErrorKind::TextParse,
                        "Expecting to have a map with text keys (or a sequence with 0-n entries where each entry in turn is a sequence with 2 elements where the first of those 2 elements is a text)",
                    );
                },
            }
            index += 1;
        }
        let number_of_fields = structure.fields.len();
        if number_of_fields > u32::MAX as usize {
            return LqError::err_new(ErrorKind::Codec, "The structure has too many fields");
        }
        SeqHeader::serialize(writer, &SeqHeader::new(number_of_fields as u32));
        let ghost head = writer@;
        let full = full_fuel_of(schema);
        let mut field_index: usize = 0;
        while field_index < number_of_fields
            invariant
                env == schema.env(true),
                full == full_fuel(env),
                number_of_fields == structure.fields@.len(),
                names@.len() == number_of_fields,
                all_names == field_names(structure.fields@),
                forall|i: int| 0 <= i < names@.len() ==> (#[trigger] names@[i])@ == all_names[i],
                field_index <= number_of_fields,
                is_string_map(entries@),
                decreases_to!(value => entries),
                number_of_fields <= u32::MAX,
                head == before + crate::types::seq::seq_header_bytes(number_of_fields as u32),
                before == old(writer)@,
                type_text_bytes(env, AnyType::Struct(*structure), *value, fuel as nat) == (
                match fields_text_bytes(env, structure.fields@, entries@, number_of_fields as nat) {
                    Ok(bytes) => Ok::<Seq<u8>, ErrorKind>(
                        crate::types::seq::seq_header_bytes(number_of_fields as u32) + bytes,
                    ),
                    Err(kind) => Err::<Seq<u8>, ErrorKind>(kind),
                }),
                fields_text_bytes(env, structure.fields@, entries@, field_index as nat) is Ok,
                writer@ == head + fields_text_bytes(
                    env,
                    structure.fields@,
                    entries@,
                    field_index as nat,
                ).unwrap(),
            decreases number_of_fields - field_index,
        {
            let ghost so_far = fields_text_bytes(
                env,
                structure.fields@,
                entries@,
                field_index as nat,
            ).unwrap();
            proof {
                if fields_text_bytes(env, structure.fields@, entries@, (field_index + 1) as nat)
                    is Err {
                    lemma_fields_text_prefix(
                        env,
                        structure.fields@,
                        entries@,
                        (field_index + 1) as nat,
                        number_of_fields as nat,
                    );
                }
                lemma_found(env, schema.names@, structure.fields@[field_index as int].type_ref.target());
            }
            let field = &structure.fields.as_slice()[field_index];
            match find_entry(entries, names[field_index].as_str()) {
                Some(j) => {
                    match &entries[j].value {
                        Value::Sequence(pair) => {
                            proof {
                                assert(entry_key(entries@[j as int]) is Some);
                                assert(decreases_to!(entries => entries[j as int]));
                                assert(decreases_to!(pair => pair[1]));
                            }
                            parse_value(schema, writer, &field.type_ref, &pair[1], full)?;
                            proof {
                                let bytes = text_bytes(
                                    env,
                                    field.type_ref.target(),
                                    pair@[1],
                                    full as nat,
                                ).unwrap();
                                assert(writer@ =~= head + (so_far + bytes));
                            }
                        },
                        _ => {
                            proof {
                                assert(entry_key(entries@[j as int]) is Some);
                            }
                            return LqError::err_new(ErrorKind::TextParse, "Expecting an entry");
                        },
                    }
                },
                None => {
                    match schema.resolve(&field.type_ref) {
                        Ok(AnyType::Option(_)) => {
                            Presence::serialize(writer, &Presence::Absent);
                            proof {
                                assert(writer@ =~= head + (so_far
                                    + crate::types::option::presence_bytes(Presence::Absent)));
                            }
                        },
                        Ok(_) => {
                            return LqError::err_new(
                                ErrorKind::TextParse,
                                "A required field is missing",
                            );
                        },
                        Err(e) => {
                            return Err(e);
                        },
                    }
                },
            }
            field_index += 1;
        }
        proof {
            let bytes = fields_text_bytes(
                env,
                structure.fields@,
                entries@,
                number_of_fields as nat,
            ).unwrap();
            assert(writer@ =~= before + (crate::types::seq::seq_header_bytes(
                number_of_fields as u32,
            ) + bytes));
        }
        Ok(())
    }
}

/// Where the keys of the first `k` entries are not all known, those of more
/// entries are not either.
pub proof fn lemma_keys_known_prefix(
    entries: Seq<TextValue>,
    names: Seq<Seq<char>>,
    k: nat,
    n: nat,
)
    requires
        k <= n <= entries.len(),
        !keys_known(entries, names, k),
    ensures
        !keys_known(entries, names, n),
    decreases n,
{
    if k < n {
        lemma_keys_known_prefix(entries, names, k, (n - 1) as nat);
    }
}

/// Finds the first variant with the given name: its ordinal.
pub fn find_variant(variants: &[Variant], name: &str) -> (r: Option<usize>)
    ensures
        match r {
            Some(i) => variant_index(variants@, name@, 0) == Some(i as int) && i < variants@.len(),
            None => variant_index(variants@, name@, 0) is None,
        },
{
    let mut index: usize = 0;
    while index < variants.len()
        invariant
            index <= variants@.len(),
            variant_index(variants@, name@, 0) == variant_index(variants@, name@, index as int),
        decreases variants.len() - index,
    {
        let own = Converter::identifier_to_string(
            &variants[index].name,
            IdentifierType::EnumIdentifier,
        );
        if same_text(own.as_str(), name) {
            return Some(index);
        }
        index += 1;
    }
    None
}

impl PEnum {
    /// Parses an enum value: the name of a variant without values; or a
    /// text map of one entry from the name of the variant to its value, or
    /// to the sequence of its values where the variant has more than one.
    pub fn parse(
        schema: &TypeContainer,
        writer: &mut VecWriter,
        value: &TextValue,
        enumeration: &TEnum,
        fuel: u128,
    ) -> (r: Result<(), LqError>)
        ensures
            parse_outcome(
                r,
                old(writer)@,
                final(writer)@,
                type_text_bytes(schema.env(true), AnyType::Enum(*enumeration), *value, fuel as nat),
            ),
        decreases value, fuel, 0nat,
    {
        let ghost env = schema.env(true);
        match &value.value {
            Value::Text(name) => {
                match find_variant(enumeration.variants.as_slice(), name.as_str()) {
                    Some(ordinal) => {
                        if ordinal > u32::MAX as usize
                            || enumeration.variants.as_slice()[ordinal].values.len() != 0 {
                            return LqError::err_new(
                                ErrorKind::TextParse,
                                "The variant needs values",
                            );
                        }
                        EnumHeader::serialize(writer, &EnumHeader::new(ordinal as u32, 0));
                        Ok(())
                    },
                    None => LqError::err_new(ErrorKind::TextParse, "There is no such variant"),
                }
            },
            Value::Sequence(entries) => {
                if entries.len() != 1 {
                    return LqError::err_new(
                        ErrorKind::TextParse,
                        "An enum value is a map of one entry: from the name of the variant to its value",
                    );
                }
                match &entries[0].value {
                    Value::Sequence(pair) => {
                        if pair.len() != 2 {
                            return LqError::err_new(
                                ErrorKind::TextParse,
                                "An entry is a sequence of a key and a value",
                            );
                        }
                        match &pair[0].value {
                            Value::Text(name) => {
                                match find_variant(enumeration.variants.as_slice(), name.as_str()) {
                                    Some(ordinal) => {
                                        if ordinal > u32::MAX as usize {
                                            return LqError::err_new(
                                                ErrorKind::TextParse,
                                                "The ordinal of the variant is too large",
                                            );
                                        }
                                        proof {
                                            assert(decreases_to!(entries => entries[0]));
                                            assert(decreases_to!(pair => pair[1]));
                                        }
                                        Self::parse_variant(
                                            schema,
                                            writer,
                                            ordinal as u32,
                                            &enumeration.variants.as_slice()[ordinal],
                                            &pair[1],
                                        )
                                    },
                                    None => LqError::err_new(
                                        ErrorKind::TextParse,
                                        "There is no such variant",
                                    ),
                                }
                            },
                            _ => LqError::err_new(
                                ErrorKind::TextParse,
                                "The name of a variant is a text",
                            ),
                        }
                    },
                    _ => LqError::err_new(
                        ErrorKind::TextParse,
                        "An entry is a sequence of a key and a value",
                    ),
                }
            },
            _ => LqError::err_new(
                ErrorKind::TextParse,
                "An enum value is the name of a variant or a map of one entry",
            ),
        }
    }

    /// Parses the values of a variant: nothing for a variant without
    /// values, the value itself for a variant with one, a sequence of as
    /// many values as the variant declares for more.
    pub fn parse_variant(
        schema: &TypeContainer,
        writer: &mut VecWriter,
        ordinal: u32,
        variant: &Variant,
        value: &TextValue,
    ) -> (r: Result<(), LqError>)
        ensures
            parse_outcome(
                r,
                old(writer)@,
                final(writer)@,
                variant_text_bytes(schema.env(true), ordinal, variant.values@, *value),
            ),
        decreases value, full_fuel(schema.env(true)) + 1, 0nat,
    {
        let ghost env = schema.env(true);
        let ghost before = writer@;
        let number_of_values = variant.values.len();
        if number_of_values == 0 {
            if value.as_ref().is_nothing() {
                EnumHeader::serialize(writer, &EnumHeader::new(ordinal, 0));
                Ok(())
            } else {
                LqError::err_new(ErrorKind::TextParse, "The variant has no values")
            }
        } else if number_of_values == 1 {
            let fuel = full_fuel_of(schema);
            EnumHeader::serialize(writer, &EnumHeader::new(ordinal, 1));
            let r = parse_value(schema, writer, &variant.values.as_slice()[0], value, fuel);
            proof {
                if r is Ok {
                    let bytes = text_bytes(env, variant.values@[0].target(), *value, fuel as nat).unwrap();
                    assert(writer@ =~= before + (crate::types::enumeration::enum_header_bytes(
                        EnumHeader { ordinal, number_of_values: 1 },
                    ) + bytes));
                }
            }
            r
        } else {
            match &value.value {
                Value::Sequence(items) => {
                    if items.len() != number_of_values || number_of_values > u32::MAX as usize {
                        return LqError::err_new(
                            ErrorKind::TextParse,
                            "The variant has another number of values than the schema declares",
                        );
                    }
                    EnumHeader::serialize(
                        writer,
                        &EnumHeader::new(ordinal, number_of_values as u32),
                    );
                    let r = parse_items(schema, writer, variant.values.as_slice(), items);
                    proof {
                        if r is Ok {
                            let bytes = items_text_bytes(
                                env,
                                Seq::new(variant.values@.len(), |i: int| variant.values@[i].target()),
                                items@,
                                items@.len(),
                            ).unwrap();
                            assert(writer@ =~= before + (
                            crate::types::enumeration::enum_header_bytes(
                                EnumHeader { ordinal, number_of_values: number_of_values as u32 },
                            ) + bytes));
                        }
                    }
                    r
                },
                _ => LqError::err_new(
                    ErrorKind::TextParse,
                    "The values of the variant are a sequence",
                ),
            }
        }
    }
}

/// Turns a text document into bytes and validates them: the bytes that the
/// document stands for under the root type of the schema, where they are a
/// valid document of the schema in strict mode. Where the document stands
/// for no bytes and has a position, the error has a position.
pub fn parse(schema: &TypeContainer, value: &TextValue) -> (r: Result<Vec<u8>, LqError>)
    ensures
        match r {
            Ok(data) => text_bytes(
                schema.env(true),
                schema.root.target(),
                *value,
                full_fuel(schema.env(true)),
            ) == Ok::<Seq<u8>, ErrorKind>(data@) && validate_at(
                schema.env(true),
                schema.root.target(),
                data@,
                0,
                Seq::empty(),
            ) == Ok::<int, ErrorKind>(data@.len() as int),
            Err(e) => match text_bytes(
                schema.env(true),
                schema.root.target(),
                *value,
                full_fuel(schema.env(true)),
            ) {
                Ok(bytes) => match validate_at(
                    schema.env(true),
                    schema.root.target(),
                    bytes,
                    0,
                    Seq::empty(),
                ) {
                    Ok(end) => end != bytes.len() && e.kind == ErrorKind::Codec,
                    Err(kind) => e.kind == kind,
                },
                Err(kind) => e.kind == kind && (value.position is Some ==> e.position is Some),
            },
        },
{
    let mut writer = VecWriter::new();
    let fuel = full_fuel_of(schema);
    parse_value(schema, &mut writer, &schema.root, value, fuel)?;
    let data = writer.into_vec();
    proof {
        assert(data@ =~= Seq::<u8>::empty() + data@);
    }

    // Now validate the result
    let mut reader = SliceReader::new(data.as_slice());
    schema.validate(Config::strict(), &mut reader)?;

    Ok(data)
}

} // verus!
