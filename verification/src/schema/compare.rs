//! Reading the key of a value and comparing two values of one type.

use crate::error::{ErrorKind, LqError};
use crate::major_types::TYPE_UNICODE;
use crate::schema::any_type::AnyType;
use crate::schema::container::{lemma_found, TypeContainer};
use crate::schema::keys::{
    compare_keys, key_models, key_order, lemma_key_list_model, lemma_key_models_push,
    Comparison, Key, KeyValue,
};
use crate::schema::rules::{
    ascii_key_at, binary_key_at, bool_key_at, decimal_key_at, entry_keys_at, enumeration_key_at,
    field_targets, float32_key_at, float64_key_at, key_at, key_of_type, key_ref_key_at, keys_at,
    map_key_at, option_key_at, range_key_at, root_map_key_at, sequence_key_at, sint_key_at,
    structure_key_at, targets_of, uint_key_at, unicode_key_at, uuid_key_at, Env,
};
use crate::schema::type_ref::{RefTarget, TypeRef};
use crate::schema::types::ascii::TAscii;
use crate::schema::types::binary::TBinary;
use crate::schema::types::boolean::TBool;
use crate::schema::types::decimal::TDecimal;
use crate::schema::types::enumeration::TEnum;
use crate::schema::types::float::{total_key32, total_key64, TFloat32, TFloat64};
use crate::schema::types::key_ref::TKeyRef;
use crate::schema::types::map::TMap;
use crate::schema::types::option::TOption;
use crate::schema::types::range::{Inclusion, TRange};
use crate::schema::types::root_map::TRootMap;
use crate::schema::types::seq::TSeq;
use crate::schema::types::sint::TSInt;
use crate::schema::types::structure::{Field, TStruct};
use crate::schema::types::uint::TUInt;
use crate::schema::types::unicode::TUnicode;
use crate::schema::types::uuid::TUuid;
use crate::slice_reader::SliceReader;
use crate::types::binary::{read_leaf, Binary};
use crate::types::boolean::Bool;
use crate::types::enumeration::EnumHeader;
use crate::types::float::{Float32, Float64};
use crate::types::option::Presence;
use crate::types::seq::SeqHeader;
use crate::types::sint::{SInt128, SInt8};
use crate::types::uint::{UInt128, UInt32};
use crate::types::unicode::Unicode;
use vstd::prelude::*;
use vstd::string::*;

verus! {

/// Whether reading a key went as the rules say: on success the key and the
/// position behind the value, else the kind of the error.
pub open spec fn key_outcome(
    r: Result<KeyValue, LqError>,
    end: int,
    rule: Result<(Key, int), ErrorKind>,
) -> bool {
    match r {
        Ok(k) => rule == Ok::<(Key, int), ErrorKind>((k@, end)),
        Err(e) => rule == Err::<(Key, int), ErrorKind>(e.kind),
    }
}

/// Whether reading keys in a row went as the rules say.
pub open spec fn keys_outcome(
    r: Result<Vec<KeyValue>, LqError>,
    end: int,
    rule: Result<(Seq<Key>, int), ErrorKind>,
) -> bool {
    match r {
        Ok(k) => rule == Ok::<(Seq<Key>, int), ErrorKind>((key_models(k@), end)),
        Err(e) => rule == Err::<(Seq<Key>, int), ErrorKind>(e.kind),
    }
}

/// Whether a comparison went as the rules say. It succeeds where both values
/// have a key, and then gives the order of the keys and leaves both cursors
/// behind the values. Else it fails with the error of the first value, or,
/// where that has a key, of the second.
pub open spec fn comparison_outcome(
    r: Result<Comparison, LqError>,
    end1: int,
    end2: int,
    rule1: Result<(Key, int), ErrorKind>,
    rule2: Result<(Key, int), ErrorKind>,
) -> bool {
    match r {
        Ok(c) => rule1 is Ok && rule2 is Ok && c == key_order(rule1.unwrap().0, rule2.unwrap().0)
            && end1 == rule1.unwrap().1 && end2 == rule2.unwrap().1,
        Err(e) => rule1 == Err::<(Key, int), ErrorKind>(e.kind) || (rule1 is Ok && rule2 == Err::<
            (Key, int),
            ErrorKind,
        >(e.kind)),
    }
}

/// Where reading `k` keys in a row fails, reading more fails the same way.
pub proof fn lemma_keys_at_prefix(
    env: Env,
    targets: Seq<RefTarget>,
    data: Seq<u8>,
    first: int,
    k: nat,
    n: nat,
)
    requires
        k <= n <= targets.len(),
        keys_at(env, targets, data, first, k) is Err,
    ensures
        keys_at(env, targets, data, first, n) == keys_at(env, targets, data, first, k),
    decreases n,
{
    if k < n {
        lemma_keys_at_prefix(env, targets, data, first, k, (n - 1) as nat);
    }
}

/// Where reading the keys of `k` entries fails, reading more fails the same
/// way.
pub proof fn lemma_entry_keys_at_prefix(
    env: Env,
    key: RefTarget,
    value: RefTarget,
    data: Seq<u8>,
    first: int,
    k: nat,
    n: nat,
)
    requires
        k <= n,
        entry_keys_at(env, key, value, data, first, k) is Err,
    ensures
        entry_keys_at(env, key, value, data, first, n) == entry_keys_at(
            env,
            key,
            value,
            data,
            first,
            k,
        ),
    decreases n,
{
    if k < n {
        lemma_entry_keys_at_prefix(env, key, value, data, first, k, (n - 1) as nat);
    }
}

/// Reads the key of the value at the cursor under the type that the
/// reference points at.
pub fn read_key_at<'a>(schema: &TypeContainer, type_ref: &TypeRef, reader: &mut SliceReader<'a>)
    -> (r: Result<KeyValue<'a>, LqError>)
    ensures
        final(reader).spec_data() == old(reader).spec_data(),
        key_outcome(
            r,
            final(reader).spec_offset(),
            key_at(
                schema.env(false),
                type_ref.target(),
                old(reader).spec_data(),
                old(reader).spec_offset(),
            ),
        ),
    decreases old(reader).spec_data().len() - old(reader).spec_offset(), 2nat, 0nat,
{
    proof {
        lemma_found(schema.env(false), schema.names@, type_ref.target());
    }
    match schema.resolve(type_ref) {
        Ok(t) => t.read_key(schema, reader),
        Err(e) => Err(e),
    }
}

/// Compares the values at the two cursors under the type that the reference
/// points at. Both cursors move behind their value, whatever the result.
pub fn compare_at<'a, 'b>(
    schema: &TypeContainer,
    type_ref: &TypeRef,
    r1: &mut SliceReader<'a>,
    r2: &mut SliceReader<'b>,
) -> (r: Result<Comparison, LqError>)
    ensures
        final(r1).spec_data() == old(r1).spec_data(),
        final(r2).spec_data() == old(r2).spec_data(),
        comparison_outcome(
            r,
            final(r1).spec_offset(),
            final(r2).spec_offset(),
            key_at(schema.env(false), type_ref.target(), old(r1).spec_data(), old(r1).spec_offset()),
            key_at(schema.env(false), type_ref.target(), old(r2).spec_data(), old(r2).spec_offset()),
        ),
{
    let a = read_key_at(schema, type_ref, r1)?;
    let b = read_key_at(schema, type_ref, r2)?;
    Ok(compare_keys(&a, &b))
}

impl AnyType {
    /// Reads the key of the value at the cursor under this type.
    pub fn read_key<'a>(&self, schema: &TypeContainer, reader: &mut SliceReader<'a>) -> (r: Result<
        KeyValue<'a>,
        LqError,
    >)
        ensures
            final(reader).spec_data() == old(reader).spec_data(),
            key_outcome(
                r,
                final(reader).spec_offset(),
                key_of_type(
                    schema.env(false),
                    *self,
                    old(reader).spec_data(),
                    old(reader).spec_offset(),
                ),
            ),
        decreases old(reader).spec_data().len() - old(reader).spec_offset(), 1nat, 0nat,
    {
        match self {
            AnyType::Struct(value) => value.read_key(schema, reader),
            AnyType::Mapping(value) => value.read_key(schema, reader),
            AnyType::RootMap(value) => value.read_key(schema, reader),
            AnyType::KeyRef(value) => value.read_key(schema, reader),
            AnyType::UInt(value) => value.read_key(schema, reader),
            AnyType::SInt(value) => value.read_key(schema, reader),
            AnyType::Ascii(value) => value.read_key(schema, reader),
            AnyType::Bool(value) => value.read_key(schema, reader),
            AnyType::Enum(value) => value.read_key(schema, reader),
            AnyType::Sequence(value) => value.read_key(schema, reader),
            AnyType::Binary(value) => value.read_key(schema, reader),
            AnyType::Float32(value) => value.read_key(schema, reader),
            AnyType::Float64(value) => value.read_key(schema, reader),
            AnyType::Option(value) => value.read_key(schema, reader),
            AnyType::Unicode(value) => value.read_key(schema, reader),
            AnyType::Uuid(value) => value.read_key(schema, reader),
            AnyType::Range(value) => value.read_key(schema, reader),
            AnyType::Decimal(value) => value.read_key(schema, reader),
        }
    }

    /// Compares the values at the two cursors under this type. Both cursors
    /// move behind their value, whatever the result.
    pub fn compare<'a, 'b>(
        &self,
        schema: &TypeContainer,
        r1: &mut SliceReader<'a>,
        r2: &mut SliceReader<'b>,
    ) -> (r: Result<Comparison, LqError>)
        ensures
            final(r1).spec_data() == old(r1).spec_data(),
            final(r2).spec_data() == old(r2).spec_data(),
            comparison_outcome(
                r,
                final(r1).spec_offset(),
                final(r2).spec_offset(),
                key_of_type(schema.env(false), *self, old(r1).spec_data(), old(r1).spec_offset()),
                key_of_type(schema.env(false), *self, old(r2).spec_data(), old(r2).spec_offset()),
            ),
    {
        let a = self.read_key(schema, r1)?;
        let b = self.read_key(schema, r2)?;
        Ok(compare_keys(&a, &b))
    }
}

impl TBool {
    /// Reads the key of a boolean: 0 for `false`, 1 for `true`.
    pub fn read_key<'a>(&self, schema: &TypeContainer, reader: &mut SliceReader<'a>) -> (r: Result<
        KeyValue<'a>,
        LqError,
    >)
        ensures
            final(reader).spec_data() == old(reader).spec_data(),
            key_outcome(
                r,
                final(reader).spec_offset(),
                bool_key_at(
                    schema.env(false),
                    *self,
                    old(reader).spec_data(),
                    old(reader).spec_offset(),
                ),
            ),
    {
        let value = Bool::de_serialize(reader)?;
        Ok(KeyValue::of_bool(value))
    }
}

impl TUInt {
    /// Reads the key of an unsigned integer: the number.
    pub fn read_key<'a>(&self, schema: &TypeContainer, reader: &mut SliceReader<'a>) -> (r: Result<
        KeyValue<'a>,
        LqError,
    >)
        ensures
            final(reader).spec_data() == old(reader).spec_data(),
            key_outcome(
                r,
                final(reader).spec_offset(),
                uint_key_at(
                    schema.env(false),
                    *self,
                    old(reader).spec_data(),
                    old(reader).spec_offset(),
                ),
            ),
    {
        let value = UInt128::de_serialize(reader)?;
        Ok(KeyValue::Unsigned(value))
    }
}

impl TSInt {
    /// Reads the key of a signed integer: the number.
    pub fn read_key<'a>(&self, schema: &TypeContainer, reader: &mut SliceReader<'a>) -> (r: Result<
        KeyValue<'a>,
        LqError,
    >)
        ensures
            final(reader).spec_data() == old(reader).spec_data(),
            key_outcome(
                r,
                final(reader).spec_offset(),
                sint_key_at(
                    schema.env(false),
                    *self,
                    old(reader).spec_data(),
                    old(reader).spec_offset(),
                ),
            ),
    {
        let value = SInt128::de_serialize(reader)?;
        Ok(KeyValue::Signed(value))
    }
}

impl TFloat32 {
    /// Reads the key of a 32 bit float: its place in the total order.
    pub fn read_key<'a>(&self, schema: &TypeContainer, reader: &mut SliceReader<'a>) -> (r: Result<
        KeyValue<'a>,
        LqError,
    >)
        ensures
            final(reader).spec_data() == old(reader).spec_data(),
            key_outcome(
                r,
                final(reader).spec_offset(),
                float32_key_at(
                    schema.env(false),
                    *self,
                    old(reader).spec_data(),
                    old(reader).spec_offset(),
                ),
            ),
    {
        let bits = Float32::de_serialize(reader)?;
        Ok(KeyValue::Unsigned(total_key32(bits) as u128))
    }
}

impl TFloat64 {
    /// Reads the key of a 64 bit float: its place in the total order.
    pub fn read_key<'a>(&self, schema: &TypeContainer, reader: &mut SliceReader<'a>) -> (r: Result<
        KeyValue<'a>,
        LqError,
    >)
        ensures
            final(reader).spec_data() == old(reader).spec_data(),
            key_outcome(
                r,
                final(reader).spec_offset(),
                float64_key_at(
                    schema.env(false),
                    *self,
                    old(reader).spec_data(),
                    old(reader).spec_offset(),
                ),
            ),
    {
        let bits = Float64::de_serialize(reader)?;
        Ok(KeyValue::Unsigned(total_key64(bits)))
    }
}

impl TBinary {
    /// Reads the key of binary data: its bytes.
    pub fn read_key<'a>(&self, schema: &TypeContainer, reader: &mut SliceReader<'a>) -> (r: Result<
        KeyValue<'a>,
        LqError,
    >)
        ensures
            final(reader).spec_data() == old(reader).spec_data(),
            key_outcome(
                r,
                final(reader).spec_offset(),
                binary_key_at(
                    schema.env(false),
                    *self,
                    old(reader).spec_data(),
                    old(reader).spec_offset(),
                ),
            ),
    {
        let bytes = Binary::de_serialize(reader)?;
        Ok(KeyValue::Bytes(bytes))
    }
}

impl TUnicode {
    /// Reads the key of a text: its UTF-8 bytes.
    pub fn read_key<'a>(&self, schema: &TypeContainer, reader: &mut SliceReader<'a>) -> (r: Result<
        KeyValue<'a>,
        LqError,
    >)
        ensures
            final(reader).spec_data() == old(reader).spec_data(),
            key_outcome(
                r,
                final(reader).spec_offset(),
                unicode_key_at(
                    schema.env(false),
                    *self,
                    old(reader).spec_data(),
                    old(reader).spec_offset(),
                ),
            ),
    {
        let text = Unicode::de_serialize(reader)?;
        Ok(KeyValue::Bytes(text.as_bytes()))
    }
}

impl TAscii {
    /// Reads the key of an ASCII text: its bytes.
    pub fn read_key<'a>(&self, schema: &TypeContainer, reader: &mut SliceReader<'a>) -> (r: Result<
        KeyValue<'a>,
        LqError,
    >)
        ensures
            final(reader).spec_data() == old(reader).spec_data(),
            key_outcome(
                r,
                final(reader).spec_offset(),
                ascii_key_at(
                    schema.env(false),
                    *self,
                    old(reader).spec_data(),
                    old(reader).spec_offset(),
                ),
            ),
    {
        let bytes = read_leaf(reader, TYPE_UNICODE)?;
        Ok(KeyValue::Bytes(bytes))
    }
}

impl TUuid {
    /// Reads the key of a UUID: its bytes.
    pub fn read_key<'a>(&self, schema: &TypeContainer, reader: &mut SliceReader<'a>) -> (r: Result<
        KeyValue<'a>,
        LqError,
    >)
        ensures
            final(reader).spec_data() == old(reader).spec_data(),
            key_outcome(
                r,
                final(reader).spec_offset(),
                uuid_key_at(
                    schema.env(false),
                    *self,
                    old(reader).spec_data(),
                    old(reader).spec_offset(),
                ),
            ),
    {
        let bytes = Binary::de_serialize(reader)?;
        if bytes.len() != 16 {
            return LqError::err_new(
                ErrorKind::Codec,
                "Invalid length of UUID (need to be 16 bytes)",
            );
        }
        Ok(KeyValue::Bytes(bytes))
    }
}

impl TKeyRef {
    /// Reads the key of a key reference: the number.
    pub fn read_key<'a>(&self, schema: &TypeContainer, reader: &mut SliceReader<'a>) -> (r: Result<
        KeyValue<'a>,
        LqError,
    >)
        ensures
            final(reader).spec_data() == old(reader).spec_data(),
            key_outcome(
                r,
                final(reader).spec_offset(),
                key_ref_key_at(
                    schema.env(false),
                    *self,
                    old(reader).spec_data(),
                    old(reader).spec_offset(),
                ),
            ),
    {
        let value = UInt32::de_serialize(reader)?;
        Ok(KeyValue::Unsigned(value as u128))
    }
}

impl TDecimal {
    /// Reads the key of a decimal: the coefficient, then the exponent.
    pub fn read_key<'a>(&self, schema: &TypeContainer, reader: &mut SliceReader<'a>) -> (r: Result<
        KeyValue<'a>,
        LqError,
    >)
        ensures
            final(reader).spec_data() == old(reader).spec_data(),
            key_outcome(
                r,
                final(reader).spec_offset(),
                decimal_key_at(
                    schema.env(false),
                    *self,
                    old(reader).spec_data(),
                    old(reader).spec_offset(),
                ),
            ),
    {
        let header = SeqHeader::de_serialize(reader)?;
        if header.length() != 2 {
            return LqError::err_new(ErrorKind::Schema, "A decimal is a sequence of two values");
        }
        let coefficient = SInt128::de_serialize(reader)?;
        let exponent = SInt8::de_serialize(reader)?;
        let mut parts: Vec<KeyValue<'a>> = Vec::new();
        parts.push(KeyValue::Signed(coefficient));
        parts.push(KeyValue::Signed(exponent as i128));
        proof {
            lemma_key_list_model(parts);
            assert(key_models(parts@) =~= seq![
                Key::Int(coefficient as int),
                Key::Int(exponent as int),
            ]);
        }
        Ok(KeyValue::List(parts))
    }
}

impl TOption {
    /// Reads the key of an option: nothing where it is absent, else the key
    /// of its value.
    pub fn read_key<'a>(&self, schema: &TypeContainer, reader: &mut SliceReader<'a>) -> (r: Result<
        KeyValue<'a>,
        LqError,
    >)
        ensures
            final(reader).spec_data() == old(reader).spec_data(),
            key_outcome(
                r,
                final(reader).spec_offset(),
                option_key_at(
                    schema.env(false),
                    *self,
                    old(reader).spec_data(),
                    old(reader).spec_offset(),
                ),
            ),
        decreases old(reader).spec_data().len() - old(reader).spec_offset(), 0nat, 0nat,
    {
        let ghost data = reader.spec_data();
        let ghost start = reader.spec_offset();
        let presence = Presence::de_serialize(reader)?;
        proof {
            crate::types::option::lemma_presence_at(data, start);
        }
        let mut parts: Vec<KeyValue<'a>> = Vec::new();
        match presence {
            Presence::Absent => {},
            Presence::Present => {
                let inner = read_key_at(schema, &self.inner, reader)?;
                parts.push(inner);
            },
        }
        proof {
            lemma_key_list_model(parts);
            match presence {
                Presence::Absent => {
                    assert(key_models(parts@) =~= Seq::<Key>::empty());
                },
                Presence::Present => {
                    assert(key_models(parts@) =~= seq![parts@[0]@]);
                },
            }
        }
        Ok(KeyValue::List(parts))
    }

    /// Compares two options. An absent option is less than every present
    /// one; two present ones compare as their values do.
    pub fn compare<'a, 'b>(
        &self,
        schema: &TypeContainer,
        r1: &mut SliceReader<'a>,
        r2: &mut SliceReader<'b>,
    ) -> (r: Result<Comparison, LqError>)
        ensures
            final(r1).spec_data() == old(r1).spec_data(),
            final(r2).spec_data() == old(r2).spec_data(),
            comparison_outcome(
                r,
                final(r1).spec_offset(),
                final(r2).spec_offset(),
                option_key_at(schema.env(false), *self, old(r1).spec_data(), old(r1).spec_offset()),
                option_key_at(schema.env(false), *self, old(r2).spec_data(), old(r2).spec_offset()),
            ),
    {
        let a = self.read_key(schema, r1)?;
        let b = self.read_key(schema, r2)?;
        Ok(compare_keys(&a, &b))
    }
}

/// Reads the keys of the values at the cursor, one for each of the given
/// references.
pub fn read_keys<'a>(schema: &TypeContainer, refs: &[TypeRef], reader: &mut SliceReader<'a>) -> (r:
    Result<Vec<KeyValue<'a>>, LqError>)
    ensures
        final(reader).spec_data() == old(reader).spec_data(),
        keys_outcome(
            r,
            final(reader).spec_offset(),
            keys_at(
                schema.env(false),
                targets_of(refs@),
                old(reader).spec_data(),
                old(reader).spec_offset(),
                refs@.len(),
            ),
        ),
    decreases old(reader).spec_data().len() - old(reader).spec_offset(), 3nat, 0nat,
{
    proof {
        use_type_invariant(&*reader);
        reader.lemma_within();
    }
    let ghost env = schema.env(false);
    let ghost data = reader.spec_data();
    let ghost first = reader.spec_offset();
    let ghost targets = targets_of(refs@);
    let mut keys: Vec<KeyValue<'a>> = Vec::new();
    let mut index: usize = 0;
    proof {
        assert(key_models(keys@) =~= Seq::<Key>::empty());
    }
    while index < refs.len()
        invariant
            reader.spec_data() == data,
            data == old(reader).spec_data(),
            first == old(reader).spec_offset(),
            env == schema.env(false),
            targets == targets_of(refs@),
            first <= reader.spec_offset() <= data.len(),
            index <= refs@.len(),
            keys_at(env, targets, data, first, index as nat) == Ok::<(Seq<Key>, int), ErrorKind>(
                (key_models(keys@), reader.spec_offset()),
            ),
        decreases refs.len() - index,
    {
        let ghost here = reader.spec_offset();
        let ghost before = keys@;
        proof {
            if keys_at(env, targets, data, first, (index + 1) as nat) is Err {
                lemma_keys_at_prefix(env, targets, data, first, (index + 1) as nat, refs@.len());
            }
        }
        let key = read_key_at(schema, &refs[index], reader)?;
        proof {
            crate::schema::laws::lemma_key_is_value(env, targets[index as int], data, here);
            lemma_key_models_push(before, key);
        }
        keys.push(key);
        index += 1;
    }
    Ok(keys)
}

/// Reads the keys of the fields of a structure at the cursor.
pub fn read_field_keys<'a>(schema: &TypeContainer, fields: &[Field], reader: &mut SliceReader<'a>)
    -> (r: Result<Vec<KeyValue<'a>>, LqError>)
    ensures
        final(reader).spec_data() == old(reader).spec_data(),
        keys_outcome(
            r,
            final(reader).spec_offset(),
            keys_at(
                schema.env(false),
                field_targets(fields@),
                old(reader).spec_data(),
                old(reader).spec_offset(),
                fields@.len(),
            ),
        ),
    decreases old(reader).spec_data().len() - old(reader).spec_offset(), 3nat, 0nat,
{
    proof {
        use_type_invariant(&*reader);
        reader.lemma_within();
    }
    let ghost env = schema.env(false);
    let ghost data = reader.spec_data();
    let ghost first = reader.spec_offset();
    let ghost targets = field_targets(fields@);
    let mut keys: Vec<KeyValue<'a>> = Vec::new();
    let mut index: usize = 0;
    proof {
        assert(key_models(keys@) =~= Seq::<Key>::empty());
    }
    while index < fields.len()
        invariant
            reader.spec_data() == data,
            data == old(reader).spec_data(),
            first == old(reader).spec_offset(),
            env == schema.env(false),
            targets == field_targets(fields@),
            first <= reader.spec_offset() <= data.len(),
            index <= fields@.len(),
            keys_at(env, targets, data, first, index as nat) == Ok::<(Seq<Key>, int), ErrorKind>(
                (key_models(keys@), reader.spec_offset()),
            ),
        decreases fields.len() - index,
    {
        let ghost here = reader.spec_offset();
        let ghost before = keys@;
        proof {
            if keys_at(env, targets, data, first, (index + 1) as nat) is Err {
                lemma_keys_at_prefix(env, targets, data, first, (index + 1) as nat, fields@.len());
            }
        }
        let key = read_key_at(schema, &fields[index].type_ref, reader)?;
        proof {
            crate::schema::laws::lemma_key_is_value(env, targets[index as int], data, here);
            lemma_key_models_push(before, key);
        }
        keys.push(key);
        index += 1;
    }
    Ok(keys)
}

/// Reads the keys of `n` values of one type at the cursor.
pub fn read_element_keys<'a>(
    schema: &TypeContainer,
    element: &TypeRef,
    n: u32,
    reader: &mut SliceReader<'a>,
) -> (r: Result<Vec<KeyValue<'a>>, LqError>)
    ensures
        final(reader).spec_data() == old(reader).spec_data(),
        keys_outcome(
            r,
            final(reader).spec_offset(),
            keys_at(
                schema.env(false),
                Seq::new(n as nat, |i: int| element.target()),
                old(reader).spec_data(),
                old(reader).spec_offset(),
                n as nat,
            ),
        ),
    decreases old(reader).spec_data().len() - old(reader).spec_offset(), 3nat, 0nat,
{
    proof {
        use_type_invariant(&*reader);
        reader.lemma_within();
    }
    let ghost env = schema.env(false);
    let ghost data = reader.spec_data();
    let ghost first = reader.spec_offset();
    let ghost targets = Seq::new(n as nat, |i: int| element.target());
    let mut keys: Vec<KeyValue<'a>> = Vec::new();
    let mut index: u32 = 0;
    proof {
        assert(key_models(keys@) =~= Seq::<Key>::empty());
    }
    while index < n
        invariant
            reader.spec_data() == data,
            data == old(reader).spec_data(),
            first == old(reader).spec_offset(),
            env == schema.env(false),
            targets == Seq::new(n as nat, |i: int| element.target()),
            first <= reader.spec_offset() <= data.len(),
            index <= n,
            keys_at(env, targets, data, first, index as nat) == Ok::<(Seq<Key>, int), ErrorKind>(
                (key_models(keys@), reader.spec_offset()),
            ),
        decreases n - index,
    {
        let ghost here = reader.spec_offset();
        let ghost before = keys@;
        proof {
            if keys_at(env, targets, data, first, (index + 1) as nat) is Err {
                lemma_keys_at_prefix(env, targets, data, first, (index + 1) as nat, n as nat);
            }
        }
        let key = read_key_at(schema, element, reader)?;
        proof {
            crate::schema::laws::lemma_key_is_value(env, targets[index as int], data, here);
            lemma_key_models_push(before, key);
        }
        keys.push(key);
        index += 1;
    }
    Ok(keys)
}

/// Reads the keys of `n` entries of a map at the cursor: for each entry the
/// pair of the keys of its key and its value.
pub fn read_entry_keys<'a>(
    schema: &TypeContainer,
    key: &TypeRef,
    value: &TypeRef,
    n: u32,
    reader: &mut SliceReader<'a>,
) -> (r: Result<Vec<KeyValue<'a>>, LqError>)
    ensures
        final(reader).spec_data() == old(reader).spec_data(),
        keys_outcome(
            r,
            final(reader).spec_offset(),
            entry_keys_at(
                schema.env(false),
                key.target(),
                value.target(),
                old(reader).spec_data(),
                old(reader).spec_offset(),
                n as nat,
            ),
        ),
    decreases old(reader).spec_data().len() - old(reader).spec_offset(), 3nat, 0nat,
{
    proof {
        use_type_invariant(&*reader);
        reader.lemma_within();
    }
    let ghost env = schema.env(false);
    let ghost data = reader.spec_data();
    let ghost first = reader.spec_offset();
    let mut keys: Vec<KeyValue<'a>> = Vec::new();
    let mut index: u32 = 0;
    proof {
        assert(key_models(keys@) =~= Seq::<Key>::empty());
    }
    while index < n
        invariant
            reader.spec_data() == data,
            data == old(reader).spec_data(),
            first == old(reader).spec_offset(),
            env == schema.env(false),
            first <= reader.spec_offset() <= data.len(),
            index <= n,
            entry_keys_at(env, key.target(), value.target(), data, first, index as nat) == Ok::<
                (Seq<Key>, int),
                ErrorKind,
            >((key_models(keys@), reader.spec_offset())),
        decreases n - index,
    {
        let ghost here = reader.spec_offset();
        let ghost before = keys@;
        proof {
            if entry_keys_at(env, key.target(), value.target(), data, first, (index + 1) as nat)
                is Err {
                lemma_entry_keys_at_prefix(
                    env,
                    key.target(),
                    value.target(),
                    data,
                    first,
                    (index + 1) as nat,
                    n as nat,
                );
            }
        }
        let header = SeqHeader::de_serialize(reader)?;
        if header.length() != 2 {
            return LqError::err_new(ErrorKind::Schema, "An entry of a map is a sequence of two");
        }
        let ghost q = reader.spec_offset();
        proof {
            crate::types::seq::lemma_seq_header_at(data, here);
        }
        let a = read_key_at(schema, key, reader)?;
        let ghost v = reader.spec_offset();
        proof {
            crate::schema::laws::lemma_key_is_value(env, key.target(), data, q);
        }
        let b = read_key_at(schema, value, reader)?;
        proof {
            crate::schema::laws::lemma_key_is_value(env, value.target(), data, v);
        }
        let mut pair: Vec<KeyValue<'a>> = Vec::new();
        pair.push(a);
        pair.push(b);
        let entry = KeyValue::List(pair);
        proof {
            lemma_key_list_model(pair);
            assert(key_models(pair@) =~= seq![a@, b@]);
            lemma_key_models_push(before, entry);
        }
        keys.push(entry);
        index += 1;
    }
    Ok(keys)
}

impl TSeq {
    /// Reads the key of a sequence: the keys of its elements.
    pub fn read_key<'a>(&self, schema: &TypeContainer, reader: &mut SliceReader<'a>) -> (r: Result<
        KeyValue<'a>,
        LqError,
    >)
        ensures
            final(reader).spec_data() == old(reader).spec_data(),
            key_outcome(
                r,
                final(reader).spec_offset(),
                sequence_key_at(
                    schema.env(false),
                    *self,
                    old(reader).spec_data(),
                    old(reader).spec_offset(),
                ),
            ),
        decreases old(reader).spec_data().len() - old(reader).spec_offset(), 0nat, 0nat,
    {
        let ghost data = reader.spec_data();
        let ghost start = reader.spec_offset();
        let header = SeqHeader::de_serialize(reader)?;
        proof {
            crate::types::seq::lemma_seq_header_at(data, start);
        }
        let keys = read_element_keys(schema, &self.element, header.length(), reader)?;
        proof {
            lemma_key_list_model(keys);
        }
        Ok(KeyValue::List(keys))
    }
}

impl TStruct {
    /// Reads the key of a structure: the keys of the fields that the type
    /// declares. Further values are passed over.
    pub fn read_key<'a>(&self, schema: &TypeContainer, reader: &mut SliceReader<'a>) -> (r: Result<
        KeyValue<'a>,
        LqError,
    >)
        ensures
            final(reader).spec_data() == old(reader).spec_data(),
            key_outcome(
                r,
                final(reader).spec_offset(),
                structure_key_at(
                    schema.env(false),
                    *self,
                    old(reader).spec_data(),
                    old(reader).spec_offset(),
                ),
            ),
        decreases old(reader).spec_data().len() - old(reader).spec_offset(), 0nat, 0nat,
    {
        let ghost data = reader.spec_data();
        let ghost start = reader.spec_offset();
        let header = SeqHeader::de_serialize(reader)?;
        proof {
            crate::types::seq::lemma_seq_header_at(data, start);
        }
        let number_of_items = header.length() as usize;
        let number_of_fields = self.fields.len();
        if number_of_items < number_of_fields {
            return LqError::err_new(
                ErrorKind::Schema,
                "Some fields are missing in the given struct.",
            );
        }
        let keys = read_field_keys(schema, self.fields.as_slice(), reader)?;
        reader.skip_n_values(number_of_items - number_of_fields)?;
        proof {
            lemma_key_list_model(keys);
        }
        Ok(KeyValue::List(keys))
    }
}

impl TEnum {
    /// Reads the key of an enum value: its ordinal, then the keys of the
    /// values that the variant declares. Further values are passed over.
    pub fn read_key<'a>(&self, schema: &TypeContainer, reader: &mut SliceReader<'a>) -> (r: Result<
        KeyValue<'a>,
        LqError,
    >)
        ensures
            final(reader).spec_data() == old(reader).spec_data(),
            key_outcome(
                r,
                final(reader).spec_offset(),
                enumeration_key_at(
                    schema.env(false),
                    *self,
                    old(reader).spec_data(),
                    old(reader).spec_offset(),
                ),
            ),
        decreases old(reader).spec_data().len() - old(reader).spec_offset(), 0nat, 0nat,
    {
        let ghost data = reader.spec_data();
        let ghost start = reader.spec_offset();
        let header = EnumHeader::de_serialize(reader)?;
        proof {
            crate::types::enumeration::lemma_enum_header_at(data, start);
        }
        let ordinal = header.ordinal();
        let usize_ordinal = ordinal as usize;
        if usize_ordinal >= self.variants.len() {
            return LqError::err_new(
                ErrorKind::Schema,
                "There's no such variant defined for that ordinal value in the schema.",
            );
        }
        let variant = &self.variants.as_slice()[usize_ordinal];
        let number_of_values = header.number_of_values() as usize;
        let schema_number_of_values = variant.values.len();
        if number_of_values < schema_number_of_values {
            return LqError::err_new(
                ErrorKind::Schema,
                "The variant has less values than the schema declares.",
            );
        }
        let keys = read_keys(schema, variant.values.as_slice(), reader)?;
        // it's very important that we finish reading to the end
        reader.skip_n_values(number_of_values - schema_number_of_values)?;
        let mut parts: Vec<KeyValue<'a>> = Vec::new();
        parts.push(KeyValue::Unsigned(ordinal as u128));
        let mut index: usize = 0;
        let mut keys = keys;
        let ghost all = key_models(keys@);
        // move the keys of the values behind the ordinal
        parts.append(&mut keys);
        proof {
            lemma_key_list_model(parts);
            assert(key_models(parts@) =~= seq![Key::Int(ordinal as int)] + all);
        }
        Ok(KeyValue::List(parts))
    }

    /// Compares two enum values: by ordinal, then by the values that the
    /// variant declares, one after the other. Values that the schema does
    /// not declare are passed over on both sides and count for nothing.
    pub fn compare<'a, 'b>(
        &self,
        schema: &TypeContainer,
        r1: &mut SliceReader<'a>,
        r2: &mut SliceReader<'b>,
    ) -> (r: Result<Comparison, LqError>)
        ensures
            final(r1).spec_data() == old(r1).spec_data(),
            final(r2).spec_data() == old(r2).spec_data(),
            comparison_outcome(
                r,
                final(r1).spec_offset(),
                final(r2).spec_offset(),
                enumeration_key_at(
                    schema.env(false),
                    *self,
                    old(r1).spec_data(),
                    old(r1).spec_offset(),
                ),
                enumeration_key_at(
                    schema.env(false),
                    *self,
                    old(r2).spec_data(),
                    old(r2).spec_offset(),
                ),
            ),
    {
        let a = self.read_key(schema, r1)?;
        let b = self.read_key(schema, r2)?;
        Ok(compare_keys(&a, &b))
    }
}

impl TMap {
    /// Reads the key of a map: for each entry the keys of its key and its
    /// value.
    pub fn read_key<'a>(&self, schema: &TypeContainer, reader: &mut SliceReader<'a>) -> (r: Result<
        KeyValue<'a>,
        LqError,
    >)
        ensures
            final(reader).spec_data() == old(reader).spec_data(),
            key_outcome(
                r,
                final(reader).spec_offset(),
                map_key_at(
                    schema.env(false),
                    *self,
                    old(reader).spec_data(),
                    old(reader).spec_offset(),
                ),
            ),
        decreases old(reader).spec_data().len() - old(reader).spec_offset(), 0nat, 0nat,
    {
        let ghost data = reader.spec_data();
        let ghost start = reader.spec_offset();
        let header = SeqHeader::de_serialize(reader)?;
        proof {
            crate::types::seq::lemma_seq_header_at(data, start);
        }
        let keys = read_entry_keys(schema, &self.key, &self.value, header.length(), reader)?;
        proof {
            lemma_key_list_model(keys);
        }
        Ok(KeyValue::List(keys))
    }
}

impl TRootMap {
    /// Reads the key of a root map: the key of the root, then the keys of
    /// the entries.
    pub fn read_key<'a>(&self, schema: &TypeContainer, reader: &mut SliceReader<'a>) -> (r: Result<
        KeyValue<'a>,
        LqError,
    >)
        ensures
            final(reader).spec_data() == old(reader).spec_data(),
            key_outcome(
                r,
                final(reader).spec_offset(),
                root_map_key_at(
                    schema.env(false),
                    *self,
                    old(reader).spec_data(),
                    old(reader).spec_offset(),
                ),
            ),
        decreases old(reader).spec_data().len() - old(reader).spec_offset(), 0nat, 0nat,
    {
        let ghost env = schema.env(false);
        let ghost data = reader.spec_data();
        let ghost start = reader.spec_offset();
        let outer = SeqHeader::de_serialize(reader)?;
        if outer.length() != 2 {
            return LqError::err_new(
                ErrorKind::Schema,
                "A root map is a sequence of the root and the entries",
            );
        }
        let ghost p = reader.spec_offset();
        proof {
            crate::types::seq::lemma_seq_header_at(data, start);
        }
        let root = read_key_at(schema, &self.root, reader)?;
        let ghost behind_root = reader.spec_offset();
        proof {
            crate::schema::laws::lemma_key_is_value(env, self.root.target(), data, p);
        }
        let header = SeqHeader::de_serialize(reader)?;
        proof {
            crate::types::seq::lemma_seq_header_at(data, behind_root);
        }
        let keys = read_entry_keys(schema, &self.key, &self.value, header.length(), reader)?;
        let entries = KeyValue::List(keys);
        let mut parts: Vec<KeyValue<'a>> = Vec::new();
        parts.push(root);
        parts.push(entries);
        proof {
            lemma_key_list_model(keys);
            lemma_key_list_model(parts);
            assert(key_models(parts@) =~= seq![root@, entries@]);
        }
        Ok(KeyValue::List(parts))
    }
}

impl TRange {
    /// Reads the key of a range: the keys of start and end, then the two
    /// flags where the data supplies them.
    pub fn read_key<'a>(&self, schema: &TypeContainer, reader: &mut SliceReader<'a>) -> (r: Result<
        KeyValue<'a>,
        LqError,
    >)
        ensures
            final(reader).spec_data() == old(reader).spec_data(),
            key_outcome(
                r,
                final(reader).spec_offset(),
                range_key_at(
                    schema.env(false),
                    *self,
                    old(reader).spec_data(),
                    old(reader).spec_offset(),
                ),
            ),
        decreases old(reader).spec_data().len() - old(reader).spec_offset(), 0nat, 0nat,
    {
        let ghost env = schema.env(false);
        let ghost data = reader.spec_data();
        let ghost begin = reader.spec_offset();
        let header = SeqHeader::de_serialize(reader)?;
        let with_inclusion = match self.inclusion {
            Inclusion::Supplied => true,
            _ => false,
        };
        let expected: u32 = if with_inclusion {
            4
        } else {
            2
        };
        if header.length() != expected {
            return LqError::err_new(
                ErrorKind::Schema,
                "The given range has another number of values than the schema asks for.",
            );
        }
        let ghost p = reader.spec_offset();
        proof {
            crate::types::seq::lemma_seq_header_at(data, begin);
        }
        let start = read_key_at(schema, &self.element, reader)?;
        let ghost q = reader.spec_offset();
        proof {
            crate::schema::laws::lemma_key_is_value(env, self.element.target(), data, p);
        }
        let end = read_key_at(schema, &self.element, reader)?;
        let mut parts: Vec<KeyValue<'a>> = Vec::new();
        parts.push(start);
        parts.push(end);
        if with_inclusion {
            let start_included = Bool::de_serialize(reader)?;
            let end_included = Bool::de_serialize(reader)?;
            let first_flag = KeyValue::of_bool(start_included);
            let second_flag = KeyValue::of_bool(end_included);
            parts.push(first_flag);
            parts.push(second_flag);
            proof {
                lemma_key_list_model(parts);
                assert(key_models(parts@) =~= seq![start@, end@, first_flag@, second_flag@]);
            }
        } else {
            proof {
                lemma_key_list_model(parts);
                assert(key_models(parts@) =~= seq![start@, end@]);
            }
        }
        Ok(KeyValue::List(parts))
    }

    /// Compares two ranges: by start, then by end, then by the flags where
    /// the data supplies them.
    pub fn compare<'a, 'b>(
        &self,
        schema: &TypeContainer,
        r1: &mut SliceReader<'a>,
        r2: &mut SliceReader<'b>,
    ) -> (r: Result<Comparison, LqError>)
        ensures
            final(r1).spec_data() == old(r1).spec_data(),
            final(r2).spec_data() == old(r2).spec_data(),
            comparison_outcome(
                r,
                final(r1).spec_offset(),
                final(r2).spec_offset(),
                range_key_at(schema.env(false), *self, old(r1).spec_data(), old(r1).spec_offset()),
                range_key_at(schema.env(false), *self, old(r2).spec_data(), old(r2).spec_offset()),
            ),
    {
        let a = self.read_key(schema, r1)?;
        let b = self.read_key(schema, r2)?;
        Ok(compare_keys(&a, &b))
    }
}

} // verus!
