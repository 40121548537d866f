//! A value of any shape that the wire format knows: for data that is built
//! or inspected without a schema.

use crate::error::{ErrorKind, LqError};
use crate::major_types::{
    TYPE_BINARY, TYPE_BOOL_FALSE, TYPE_BOOL_TRUE, TYPE_ENUM_0, TYPE_ENUM_1, TYPE_ENUM_2,
    TYPE_ENUM_3, TYPE_ENUM_N, TYPE_FLOAT, TYPE_OPTION, TYPE_SEQ, TYPE_SINT, TYPE_UINT,
    TYPE_UNICODE,
};
use crate::slice_reader::SliceReader;
use crate::types::binary::{binary_at, binary_bytes, Binary};
use crate::types::boolean::{bool_at, bool_bytes, Bool};
use crate::types::enumeration::{enum_header_at, enum_header_bytes, EnumHeader};
use crate::types::float::{float_at, float_bytes, Float};
use crate::types::option::{presence_at, presence_bytes, Presence};
use crate::types::seq::{seq_header_at, seq_header_bytes, SeqHeader};
use crate::types::sint::{sint_at, sint_bytes, SInt128};
use crate::types::uint::{uint_at, uint_bytes, UInt128};
use crate::types::unicode::{unicode_at, unicode_bytes, Unicode};
use crate::vec_writer::VecWriter;
use vstd::prelude::*;
use vstd::string::*;
use vstd::utf8::encode_utf8;

verus! {

/// All values this serialization format knows.
#[derive(Debug)]
pub enum Value {
    Bool(bool),
    Unicode(String),
    Binary(Vec<u8>),
    Option(Option<Box<Value>>),
    List(Vec<Value>),
    Enum(ValueVariant),
    UInt(u128),
    SInt(i128),
    Float(Float),
}

/// An enum variant. Has at least an ordinal any maybe some values.
#[derive(Debug)]
pub struct ValueVariant {
    pub ordinal: u32,
    pub values: Vec<Value>,
}

/// What a `Value` stands for.
pub enum ValueView {
    Bool(bool),
    Unicode(Seq<char>),
    Binary(Seq<u8>),
    Option(Option<Box<ValueView>>),
    List(Seq<ValueView>),
    Enum(u32, Seq<ValueView>),
    UInt(u128),
    SInt(i128),
    Float(Float),
}

impl Value {
    /// What this value stands for.
    pub open spec fn model(&self) -> ValueView
        decreases self,
    {
        match self {
            Value::Bool(b) => ValueView::Bool(*b),
            Value::Unicode(s) => ValueView::Unicode(s@),
            Value::Binary(b) => ValueView::Binary(b@),
            Value::Option(o) => match o {
                Some(b) => ValueView::Option(Some(Box::new((**b).model()))),
                None => ValueView::Option(None),
            },
            Value::List(v) => ValueView::List(
                Seq::new(
                    v@.len(),
                    |i: int|
                        if 0 <= i < v@.len() {
                            v@[i].model()
                        } else {
                            ValueView::Bool(false)
                        },
                ),
            ),
            Value::Enum(e) => ValueView::Enum(
                e.ordinal,
                Seq::new(
                    e.values@.len(),
                    |i: int|
                        if 0 <= i < e.values@.len() {
                            e.values@[i].model()
                        } else {
                            ValueView::Bool(false)
                        },
                ),
            ),
            Value::UInt(u) => ValueView::UInt(*u),
            Value::SInt(i) => ValueView::SInt(*i),
            Value::Float(f) => ValueView::Float(*f),
        }
    }
}

impl View for Value {
    type V = ValueView;

    open spec fn view(&self) -> ValueView {
        self.model()
    }
}

/// What a row of values stands for.
pub open spec fn models(s: Seq<Value>) -> Seq<ValueView> {
    Seq::new(s.len(), |i: int| s[i].model())
}

/// Whether a value can be written: no sequence and no variant in it has
/// more than `u32::MAX` items, and no text or binary more than `u64::MAX`
/// bytes.
pub open spec fn encodable(v: ValueView) -> bool
    decreases v,
{
    match v {
        ValueView::Unicode(s) => encode_utf8(s).len() <= u64::MAX,
        ValueView::Binary(b) => b.len() <= u64::MAX,
        ValueView::Option(Some(b)) => encodable(*b),
        ValueView::List(s) => s.len() <= u32::MAX && all_encodable(s),
        ValueView::Enum(_, s) => s.len() <= u32::MAX && all_encodable(s),
        _ => true,
    }
}

/// Whether every value of a row can be written.
pub open spec fn all_encodable(s: Seq<ValueView>) -> bool
    decreases s,
{
    s.len() > 0 ==> all_encodable(s.drop_last()) && encodable(s.last())
}

/// The canonical bytes of a value.
pub open spec fn value_bytes(v: ValueView) -> Seq<u8>
    decreases v,
{
    match v {
        ValueView::Bool(b) => bool_bytes(b),
        ValueView::Unicode(s) => unicode_bytes(s),
        ValueView::Binary(b) => binary_bytes(b),
        ValueView::Option(None) => presence_bytes(Presence::Absent),
        ValueView::Option(Some(b)) => presence_bytes(Presence::Present) + value_bytes(*b),
        ValueView::List(s) => seq_header_bytes(s.len() as u32) + values_bytes(s),
        ValueView::Enum(ordinal, s) => enum_header_bytes(
            EnumHeader { ordinal, number_of_values: s.len() as u32 },
        ) + values_bytes(s),
        ValueView::UInt(u) => uint_bytes(u as nat),
        ValueView::SInt(i) => sint_bytes(i as int),
        ValueView::Float(f) => float_bytes(f),
    }
}

/// The canonical bytes of a row of values: one after the other.
pub open spec fn values_bytes(s: Seq<ValueView>) -> Seq<u8>
    decreases s,
{
    if s.len() == 0 {
        Seq::empty()
    } else {
        values_bytes(s.drop_last()) + value_bytes(s.last())
    }
}

/// The major type of the wire value at `pos`.
pub open spec fn major_at(data: Seq<u8>, pos: int) -> Option<u8> {
    if 0 <= pos < data.len() {
        Some(data[pos] / 13)
    } else {
        None
    }
}

/// The value at `pos` and the position behind it. Only canonical bytes are
/// a value.
pub open spec fn value_at(data: Seq<u8>, pos: int) -> Option<(ValueView, int)>
    decreases data.len() - pos, 0nat,
{
    match major_at(data, pos) {
        None => None,
        Some(major) => if major == TYPE_BOOL_FALSE || major == TYPE_BOOL_TRUE {
            match bool_at(data, pos) {
                Some((b, e)) => Some((ValueView::Bool(b), e)),
                None => None,
            }
        } else if major == TYPE_OPTION {
            match presence_at(data, pos) {
                Some((Presence::Absent, e)) => Some((ValueView::Option(None), e)),
                Some((Presence::Present, p)) => if pos < p <= data.len() {
                    match value_at(data, p) {
                        Some((v, e)) => Some((ValueView::Option(Some(Box::new(v))), e)),
                        None => None,
                    }
                } else {
                    None
                },
                None => None,
            }
        } else if major == TYPE_SEQ {
            match seq_header_at(data, pos) {
                Some((length, p)) => if pos < p <= data.len() {
                    match values_at(data, p, length as nat) {
                        Some((s, e)) => Some((ValueView::List(s), e)),
                        None => None,
                    }
                } else {
                    None
                },
                None => None,
            }
        } else if major == TYPE_BINARY {
            match binary_at(data, pos) {
                Some((b, e)) => Some((ValueView::Binary(b), e)),
                None => None,
            }
        } else if major == TYPE_UNICODE {
            match unicode_at(data, pos) {
                Some((s, e)) => Some((ValueView::Unicode(s), e)),
                None => None,
            }
        } else if major == TYPE_ENUM_0 || major == TYPE_ENUM_1 || major == TYPE_ENUM_2 || major
            == TYPE_ENUM_3 || major == TYPE_ENUM_N {
            match enum_header_at(data, pos) {
                Some((h, p)) => if pos < p <= data.len() {
                    match values_at(data, p, h.number_of_values as nat) {
                        Some((s, e)) => Some((ValueView::Enum(h.ordinal, s), e)),
                        None => None,
                    }
                } else {
                    None
                },
                None => None,
            }
        } else if major == TYPE_UINT {
            match uint_at(data, pos) {
                Some((v, e)) => if v <= u128::MAX {
                    Some((ValueView::UInt(v as u128), e))
                } else {
                    None
                },
                None => None,
            }
        } else if major == TYPE_SINT {
            match sint_at(data, pos) {
                Some((v, e)) => if i128::MIN <= v <= i128::MAX {
                    Some((ValueView::SInt(v as i128), e))
                } else {
                    None
                },
                None => None,
            }
        } else if major == TYPE_FLOAT {
            match float_at(data, pos) {
                Some((f, e)) => Some((ValueView::Float(f), e)),
                None => None,
            }
        } else {
            None
        },
    }
}

/// The `n` values in a row, the first at `pos`, and the position behind the
/// last.
pub open spec fn values_at(data: Seq<u8>, pos: int, n: nat) -> Option<(Seq<ValueView>, int)>
    decreases data.len() - pos, n + 1,
{
    if n == 0 {
        Some((Seq::empty(), pos))
    } else {
        match values_at(data, pos, (n - 1) as nat) {
            Some((s, p)) => if pos <= p <= data.len() {
                match value_at(data, p) {
                    Some((v, e)) => Some((s.push(v), e)),
                    None => None,
                }
            } else {
                None
            },
            None => None,
        }
    }
}

impl ValueVariant {
    /// New variant with no values.
    pub fn new_no_value(ordinal: u32) -> (v: ValueVariant)
        ensures
            v.ordinal == ordinal,
            v.values@.len() == 0,
    {
        ValueVariant { ordinal, values: Vec::new() }
    }

    /// A new variant with one single value.
    pub fn new(ordinal: u32, value: Value) -> (v: ValueVariant)
        ensures
            v.ordinal == ordinal,
            v.values@ == seq![value],
    {
        let mut values = Vec::new();
        values.push(value);
        ValueVariant { ordinal, values }
    }

    /// A new variant with 0-n values.
    pub fn new_values(ordinal: u32, values: Vec<Value>) -> (v: ValueVariant)
        ensures
            v.ordinal == ordinal,
            v.values == values,
    {
        ValueVariant { ordinal, values }
    }

    /// The ordinal value of this enum variant.
    pub fn ordinal(&self) -> (o: u32)
        ensures
            o == self.ordinal,
    {
        self.ordinal
    }

    /// 0-n values of this variant.
    pub fn values(&self) -> (v: &Vec<Value>)
        ensures
            *v == self.values,
    {
        &self.values
    }
}

/// Bytes and writability of a row with one more value at its end.
pub proof fn lemma_values_push(s: Seq<ValueView>, v: ValueView)
    ensures
        values_bytes(s.push(v)) == values_bytes(s) + value_bytes(v),
        all_encodable(s.push(v)) == (all_encodable(s) && encodable(v)),
{
    assert(s.push(v).drop_last() =~= s);
    assert(s.push(v).last() == v);
}

/// What a row with one more value at its end stands for.
pub proof fn lemma_models_push(s: Seq<Value>, v: Value)
    ensures
        models(s.push(v)) == models(s).push(v.model()),
{
    assert(models(s.push(v)) =~= models(s).push(v.model()));
}

/// What a list and a variant stand for, over what their items stand for.
pub proof fn lemma_model_of_items(values: Vec<Value>, ordinal: u32)
    ensures
        Value::List(values).model() == ValueView::List(models(values@)),
        Value::Enum(ValueVariant { ordinal, values }).model() == ValueView::Enum(
            ordinal,
            models(values@),
        ),
{
    let a = Value::List(values).model();
    assert(a->List_0 =~= models(values@));
    let b = Value::Enum(ValueVariant { ordinal, values }).model();
    assert(b->Enum_1 =~= models(values@));
}

/// Where a row of values can be read, each shorter row from the same start
/// can be read too.
pub proof fn lemma_values_at_prefix(data: Seq<u8>, pos: int, k: nat, n: nat)
    requires
        k <= n,
        values_at(data, pos, n) is Some,
    ensures
        values_at(data, pos, k) is Some,
    decreases n,
{
    if k < n {
        lemma_values_at_prefix(data, pos, k, (n - 1) as nat);
    }
}

impl Value {
    /// Reads a value of any shape. Only canonical bytes are accepted.
    pub fn de_serialize(reader: &mut SliceReader) -> (r: Result<Value, LqError>)
        ensures
            final(reader).spec_data() == old(reader).spec_data(),
            match r {
                Ok(v) => value_at(old(reader).spec_data(), old(reader).spec_offset()) == Some(
                    (v@, final(reader).spec_offset()),
                ),
                Err(e) => value_at(old(reader).spec_data(), old(reader).spec_offset()) is None
                    && e.kind == ErrorKind::Codec,
            },
        decreases old(reader).spec_data().len() - old(reader).spec_offset(), 0nat,
    {
        let ghost data = reader.spec_data();
        let ghost start = reader.spec_offset();
        let major_type = reader.peek_header_byte()?.major_type().id();
        if major_type == TYPE_BOOL_FALSE || major_type == TYPE_BOOL_TRUE {
            Ok(Value::Bool(Bool::de_serialize(reader)?))
        } else if major_type == TYPE_OPTION {
            let presence = Presence::de_serialize(reader)?;
            proof {
                crate::types::option::lemma_presence_at(data, start);
            }
            match presence {
                Presence::Present => {
                    let inner = Value::de_serialize(reader)?;
                    Ok(Value::Option(Some(Box::new(inner))))
                },
                Presence::Absent => Ok(Value::Option(None)),
            }
        } else if major_type == TYPE_SEQ {
            let list_data = SeqHeader::de_serialize(reader)?;
            proof {
                crate::types::seq::lemma_seq_header_at(data, start);
            }
            let values = Value::de_serialize_values(reader, list_data.length())?;
            proof {
                lemma_model_of_items(values, 0);
            }
            Ok(Value::List(values))
        } else if major_type == TYPE_BINARY {
            let bin = Binary::de_serialize(reader)?;
            Ok(Value::Binary(vstd::slice::slice_to_vec(bin)))
        } else if major_type == TYPE_UNICODE {
            let string = Unicode::de_serialize(reader)?;
            Ok(Value::Unicode(string.to_owned()))
        } else if major_type == TYPE_ENUM_0 || major_type == TYPE_ENUM_1 || major_type
            == TYPE_ENUM_2 || major_type == TYPE_ENUM_3 || major_type == TYPE_ENUM_N {
            let enum_header = EnumHeader::de_serialize(reader)?;
            proof {
                crate::types::enumeration::lemma_enum_header_at(data, start);
            }
            let values = Value::de_serialize_values(reader, enum_header.number_of_values())?;
            proof {
                lemma_model_of_items(values, enum_header.ordinal);
            }
            Ok(Value::Enum(ValueVariant { ordinal: enum_header.ordinal(), values }))
        } else if major_type == TYPE_UINT {
            let value = UInt128::de_serialize(reader)?;
            Ok(Value::UInt(value))
        } else if major_type == TYPE_SINT {
            let value = SInt128::de_serialize(reader)?;
            Ok(Value::SInt(value))
        } else if major_type == TYPE_FLOAT {
            let value = Float::de_serialize(reader)?;
            Ok(Value::Float(value))
        } else {
            LqError::err_new(ErrorKind::Codec, "Unknown type")
        }
    }

    /// Reads `n` values in a row.
    pub fn de_serialize_values(reader: &mut SliceReader, n: u32) -> (r: Result<
        Vec<Value>,
        LqError,
    >)
        ensures
            final(reader).spec_data() == old(reader).spec_data(),
            match r {
                Ok(vs) => values_at(
                    old(reader).spec_data(),
                    old(reader).spec_offset(),
                    n as nat,
                ) == Some((models(vs@), final(reader).spec_offset())),
                Err(e) => values_at(old(reader).spec_data(), old(reader).spec_offset(), n as nat)
                    is None && e.kind == ErrorKind::Codec,
            },
        decreases old(reader).spec_data().len() - old(reader).spec_offset(), 1nat,
    {
        proof {
            use_type_invariant(&*reader);
            reader.lemma_within();
        }
        let ghost data = reader.spec_data();
        let ghost first = reader.spec_offset();
        let mut values: Vec<Value> = Vec::new();
        let mut index: u32 = 0;
        proof {
            assert(models(values@) =~= Seq::<ValueView>::empty());
        }
        while index < n
            invariant
                reader.spec_data() == data,
                data == old(reader).spec_data(),
                first == old(reader).spec_offset(),
                first <= reader.spec_offset() <= data.len(),
                index <= n,
                values_at(data, first, index as nat) == Some(
                    (models(values@), reader.spec_offset()),
                ),
            decreases n - index,
        {
            let ghost here = reader.spec_offset();
            let ghost before = values@;
            proof {
                if values_at(data, first, n as nat) is Some {
                    lemma_values_at_prefix(data, first, (index + 1) as nat, n as nat);
                }
            }
            let value = Value::de_serialize(reader)?;
            proof {
                lemma_value_at_bounds(data, here);
                lemma_models_push(before, value);
            }
            values.push(value);
            index += 1;
        }
        Ok(values)
    }

    /// Writes a value. Fails where a sequence or a variant in it has more
    /// than `u32::MAX` items; what was written until then stays.
    pub fn serialize(writer: &mut VecWriter, item: &Value) -> (r: Result<(), LqError>)
        ensures
            match r {
                Ok(_) => encodable(item@) && final(writer)@ == old(writer)@ + value_bytes(item@),
                Err(e) => !encodable(item@) && e.kind == ErrorKind::Codec,
            },
        decreases item,
    {
        let ghost before = writer@;
        match item {
            Value::Bool(value) => {
                Bool::serialize(writer, value);
                Ok(())
            },
            Value::Option(value) => match value {
                Some(present) => {
                    Presence::serialize(writer, &Presence::Present);
                    let r = Value::serialize(writer, present);
                    proof {
                        if r is Ok {
                            assert(writer@ =~= before + value_bytes(item@));
                        }
                    }
                    r
                },
                None => {
                    Presence::serialize(writer, &Presence::Absent);
                    Ok(())
                },
            },
            Value::List(value) => {
                let len = value.len();
                proof {
                    lemma_model_of_items(*value, 0);
                }
                if len > u32::MAX as usize {
                    return LqError::err_new(ErrorKind::Codec, "The sequence has too many items.");
                }
                let list_data = SeqHeader::new(len as u32);
                SeqHeader::serialize(writer, &list_data);
                let r = Value::serialize_values(writer, value);
                proof {
                    if r is Ok {
                        assert(writer@ =~= before + value_bytes(item@));
                    }
                }
                r
            },
            Value::Binary(value) => {
                let _length = value.len();
                Binary::serialize(writer, value.as_slice());
                Ok(())
            },
            Value::Unicode(value) => {
                let text = value.as_str();
                let _length = text.as_bytes().len();
                Unicode::serialize(writer, text);
                Ok(())
            },
            Value::Enum(value) => {
                let number_of_items = value.values.len();
                proof {
                    lemma_model_of_items(value.values, value.ordinal);
                }
                if number_of_items > u32::MAX as usize {
                    return LqError::err_new(ErrorKind::Codec, "The variant has too many values.");
                }
                let enum_header = EnumHeader::new(value.ordinal(), number_of_items as u32);
                EnumHeader::serialize(writer, &enum_header);
                // write values
                let r = Value::serialize_values(writer, &value.values);
                proof {
                    if r is Ok {
                        assert(writer@ =~= before + value_bytes(item@));
                    }
                }
                r
            },
            Value::UInt(value) => {
                UInt128::serialize(writer, value);
                Ok(())
            },
            Value::SInt(value) => {
                SInt128::serialize(writer, value);
                Ok(())
            },
            Value::Float(value) => {
                Float::serialize(writer, value);
                Ok(())
            },
        }
    }

    /// Writes values in a row.
    pub fn serialize_values(writer: &mut VecWriter, items: &Vec<Value>) -> (r: Result<
        (),
        LqError,
    >)
        ensures
            match r {
                Ok(_) => all_encodable(models(items@)) && final(writer)@ == old(writer)@
                    + values_bytes(models(items@)),
                Err(e) => !all_encodable(models(items@)) && e.kind == ErrorKind::Codec,
            },
        decreases items,
    {
        let ghost before = writer@;
        let mut index: usize = 0;
        proof {
            assert(items@.take(0) =~= Seq::<Value>::empty());
            assert(models(items@.take(0)) =~= Seq::<ValueView>::empty());
        }
        while index < items.len()
            invariant
                index <= items.len(),
                all_encodable(models(items@.take(index as int))),
                writer@ == before + values_bytes(models(items@.take(index as int))),
            decreases items.len() - index,
        {
            let ghost done = items@.take(index as int);
            let ghost so_far = writer@;
            proof {
                assert(decreases_to!(items => items[index as int]));
                assert(items@.take(index + 1) =~= done.push(items@[index as int]));
                lemma_models_push(done, items@[index as int]);
                lemma_values_push(models(done), items@[index as int].model());
                assert(models(items@).take(index + 1) =~= models(items@.take(index + 1)));
                if all_encodable(models(items@)) {
                    lemma_all_encodable_prefix(models(items@), index + 1);
                }
            }
            Value::serialize(writer, &items[index])?;
            proof {
                assert(writer@ =~= before + values_bytes(models(items@.take(index + 1))));
            }
            index += 1;
        }
        proof {
            assert(items@.take(index as int) =~= items@);
        }
        Ok(())
    }
}

/// Where every value of a row can be written, so can every value of each
/// row that it starts with.
pub proof fn lemma_all_encodable_prefix(s: Seq<ValueView>, k: int)
    requires
        0 <= k <= s.len(),
        all_encodable(s),
    ensures
        all_encodable(s.take(k)),
    decreases s.len(),
{
    if k < s.len() {
        lemma_all_encodable_prefix(s.drop_last(), k);
        assert(s.drop_last().take(k) =~= s.take(k));
    } else {
        assert(s.take(k) =~= s);
    }
}

/// Reading, then writing: a value that is read at a position ends behind
/// it, inside the data; it can be written, and writing it gives back exactly
/// the bytes that were read; and the bytes are one whole wire value, so that
/// skipping it ends where reading it ends.
pub proof fn lemma_value_at(data: Seq<u8>, pos: int)
    requires
        value_at(data, pos) is Some,
    ensures
        ({
            let (v, e) = value_at(data, pos).unwrap();
            &&& pos < e <= data.len()
            &&& encodable(v)
            &&& data.subrange(pos, e) == value_bytes(v)
            &&& crate::wire::value_end(data, pos) == Some(e)
        }),
    decreases data.len() - pos, 0nat,
{
    let major = major_at(data, pos).unwrap();
    let (v, e) = value_at(data, pos).unwrap();
    if major == TYPE_BOOL_FALSE || major == TYPE_BOOL_TRUE {
        crate::types::boolean::lemma_bool_at(data, pos);
    } else if major == TYPE_OPTION {
        crate::types::option::lemma_presence_at(data, pos);
        let (presence, p) = presence_at(data, pos).unwrap();
        if presence == Presence::Present {
            lemma_value_at(data, p);
            assert(crate::wire::values_end(data, e, 0) == Some(e));
            assert(crate::wire::values_end(data, p, 1) == Some(e));
            assert(data.subrange(pos, e) =~= data.subrange(pos, p) + data.subrange(p, e));
        }
    } else if major == TYPE_SEQ {
        crate::types::seq::lemma_seq_header_at(data, pos);
        let (length, p) = seq_header_at(data, pos).unwrap();
        lemma_values_at(data, p, length as nat);
        assert(data.subrange(pos, e) =~= data.subrange(pos, p) + data.subrange(p, e));
    } else if major == TYPE_BINARY {
        crate::types::binary::lemma_leaf_at(TYPE_BINARY, data, pos);
    } else if major == TYPE_UNICODE {
        crate::types::unicode::lemma_unicode_at(data, pos);
    } else if major == TYPE_ENUM_0 || major == TYPE_ENUM_1 || major == TYPE_ENUM_2 || major
        == TYPE_ENUM_3 || major == TYPE_ENUM_N {
        crate::types::enumeration::lemma_enum_header_at(data, pos);
        let (h, p) = enum_header_at(data, pos).unwrap();
        lemma_values_at(data, p, h.number_of_values as nat);
        assert(data.subrange(pos, e) =~= data.subrange(pos, p) + data.subrange(p, e));
    } else if major == TYPE_UINT {
        crate::types::uint::lemma_uint_at(data, pos);
    } else if major == TYPE_SINT {
        crate::types::sint::lemma_sint_at(data, pos);
    } else if major == TYPE_FLOAT {
        crate::types::float::lemma_float_at(data, pos);
    }
}

/// Reading, then writing, for a row of values: the row has as many values
/// as were asked for, each can be written, writing them one after the other
/// gives back exactly the bytes that were read, and skipping as many values
/// ends where reading them ends.
pub proof fn lemma_values_at(data: Seq<u8>, pos: int, n: nat)
    requires
        values_at(data, pos, n) is Some,
        0 <= pos <= data.len(),
    ensures
        ({
            let (s, e) = values_at(data, pos, n).unwrap();
            &&& pos <= e <= data.len()
            &&& s.len() == n
            &&& all_encodable(s)
            &&& data.subrange(pos, e) == values_bytes(s)
            &&& crate::wire::values_end(data, pos, n) == Some(e)
        }),
    decreases data.len() - pos, n + 1,
{
    let (s, e) = values_at(data, pos, n).unwrap();
    if n > 0 {
        let k = (n - 1) as nat;
        lemma_values_at(data, pos, k);
        let (before, p) = values_at(data, pos, k).unwrap();
        lemma_value_at(data, p);
        let (v, _) = value_at(data, p).unwrap();
        lemma_values_push(before, v);
        assert(data.subrange(pos, e) =~= data.subrange(pos, p) + data.subrange(p, e));
        crate::wire::lemma_values_end_extend(data, pos, k);
    } else {
        assert(data.subrange(pos, e) =~= Seq::<u8>::empty());
    }
}

/// The major type of a node that can be read is in its first byte.
pub proof fn lemma_major_at(data: Seq<u8>, pos: int)
    requires
        crate::wire::node_at(data, pos) is Some,
    ensures
        major_at(data, pos) == Some(crate::wire::node_at(data, pos).unwrap().0.major.0),
{
    reveal(crate::wire::descriptor_at);
}

/// Writing, then reading: where the data holds the canonical bytes of a
/// value at a position, reading there gives the value back and ends behind
/// the bytes.
pub proof fn lemma_value_at_of_bytes(data: Seq<u8>, pos: int, v: ValueView)
    requires
        encodable(v),
        0 <= pos,
        pos + value_bytes(v).len() <= data.len(),
        data.subrange(pos, pos + value_bytes(v).len()) == value_bytes(v),
    ensures
        value_at(data, pos) == Some((v, pos + value_bytes(v).len())),
    decreases v,
{
    let all = value_bytes(v);
    let end = pos + all.len();
    match v {
        ValueView::Bool(b) => {
            crate::types::boolean::lemma_bool_at_of_bytes(data, pos, b);
            lemma_major_at(data, pos);
        },
        ValueView::Unicode(s) => {
            crate::types::unicode::lemma_unicode_at_of_bytes(data, pos, s);
            lemma_major_at(data, pos);
        },
        ValueView::Binary(b) => {
            crate::types::binary::lemma_leaf_at_of_bytes(TYPE_BINARY, data, pos, b);
            lemma_major_at(data, pos);
        },
        ValueView::Option(None) => {
            crate::types::option::lemma_presence_at_of_bytes(data, pos, Presence::Absent);
            lemma_major_at(data, pos);
        },
        ValueView::Option(Some(inner)) => {
            let head = presence_bytes(Presence::Present);
            let p = pos + head.len();
            assert(data.subrange(pos, p) =~= all.subrange(0, head.len() as int));
            assert(all.subrange(0, head.len() as int) =~= head);
            crate::types::option::lemma_presence_at_of_bytes(data, pos, Presence::Present);
            crate::types::option::lemma_presence_at(data, pos);
            lemma_major_at(data, pos);
            assert(data.subrange(p, end) =~= all.subrange(head.len() as int, all.len() as int));
            assert(all.subrange(head.len() as int, all.len() as int) =~= value_bytes(*inner));
            lemma_value_at_of_bytes(data, p, *inner);
        },
        ValueView::List(s) => {
            let head = seq_header_bytes(s.len() as u32);
            let p = pos + head.len();
            assert(data.subrange(pos, p) =~= all.subrange(0, head.len() as int));
            assert(all.subrange(0, head.len() as int) =~= head);
            crate::types::seq::lemma_seq_header_at_of_bytes(data, pos, s.len() as u32);
            crate::types::seq::lemma_seq_header_at(data, pos);
            lemma_major_at(data, pos);
            assert(data.subrange(p, end) =~= all.subrange(head.len() as int, all.len() as int));
            assert(all.subrange(head.len() as int, all.len() as int) =~= values_bytes(s));
            lemma_values_at_of_bytes(data, p, s);
        },
        ValueView::Enum(ordinal, s) => {
            let h = EnumHeader { ordinal, number_of_values: s.len() as u32 };
            let head = enum_header_bytes(h);
            let p = pos + head.len();
            assert(data.subrange(pos, p) =~= all.subrange(0, head.len() as int));
            assert(all.subrange(0, head.len() as int) =~= head);
            crate::types::enumeration::lemma_enum_header_at_of_bytes(data, pos, h);
            crate::types::enumeration::lemma_enum_header_at(data, pos);
            lemma_major_at(data, pos);
            assert(data.subrange(p, end) =~= all.subrange(head.len() as int, all.len() as int));
            assert(all.subrange(head.len() as int, all.len() as int) =~= values_bytes(s));
            lemma_values_at_of_bytes(data, p, s);
        },
        ValueView::UInt(u) => {
            crate::types::uint::lemma_uint_at_of_bytes(data, pos, u as nat);
            lemma_major_at(data, pos);
        },
        ValueView::SInt(i) => {
            crate::types::sint::lemma_sint_at_of_bytes(data, pos, i as int);
            lemma_major_at(data, pos);
        },
        ValueView::Float(f) => {
            crate::types::float::lemma_float_at_of_bytes(data, pos, f);
            lemma_major_at(data, pos);
        },
    }
}

/// Writing, then reading, for a row of values.
pub proof fn lemma_values_at_of_bytes(data: Seq<u8>, pos: int, s: Seq<ValueView>)
    requires
        all_encodable(s),
        0 <= pos,
        pos + values_bytes(s).len() <= data.len(),
        data.subrange(pos, pos + values_bytes(s).len()) == values_bytes(s),
    ensures
        values_at(data, pos, s.len()) == Some((s, pos + values_bytes(s).len())),
    decreases s,
{
    if s.len() > 0 {
        let all = values_bytes(s);
        let before = s.drop_last();
        let v = s.last();
        let head = values_bytes(before);
        let p = pos + head.len();
        let end = pos + all.len();
        assert(data.subrange(pos, p) =~= all.subrange(0, head.len() as int));
        assert(all.subrange(0, head.len() as int) =~= head);
        lemma_values_at_of_bytes(data, pos, before);
        assert(data.subrange(p, end) =~= all.subrange(head.len() as int, all.len() as int));
        assert(all.subrange(head.len() as int, all.len() as int) =~= value_bytes(v));
        lemma_value_at_of_bytes(data, p, v);
        assert(before.push(v) =~= s);
    }
}

/// A value that is read ends behind its start and inside the data.
pub proof fn lemma_value_at_bounds(data: Seq<u8>, pos: int)
    requires
        value_at(data, pos) is Some,
    ensures
        pos < value_at(data, pos).unwrap().1 <= data.len(),
    decreases data.len() - pos, 0nat,
{
    let major = major_at(data, pos).unwrap();
    if major == TYPE_BOOL_FALSE || major == TYPE_BOOL_TRUE {
        crate::types::boolean::lemma_bool_at(data, pos);
    } else if major == TYPE_OPTION {
        crate::types::option::lemma_presence_at(data, pos);
        let (presence, p) = presence_at(data, pos).unwrap();
        if presence == Presence::Present {
            lemma_value_at_bounds(data, p);
        }
    } else if major == TYPE_SEQ {
        crate::types::seq::lemma_seq_header_at(data, pos);
        let (length, p) = seq_header_at(data, pos).unwrap();
        lemma_values_at_bounds(data, p, length as nat);
    } else if major == TYPE_BINARY {
        crate::types::binary::lemma_leaf_at(TYPE_BINARY, data, pos);
    } else if major == TYPE_UNICODE {
        crate::types::unicode::lemma_unicode_at(data, pos);
    } else if major == TYPE_ENUM_0 || major == TYPE_ENUM_1 || major == TYPE_ENUM_2 || major
        == TYPE_ENUM_3 || major == TYPE_ENUM_N {
        crate::types::enumeration::lemma_enum_header_at(data, pos);
        let (h, p) = enum_header_at(data, pos).unwrap();
        lemma_values_at_bounds(data, p, h.number_of_values as nat);
    } else if major == TYPE_UINT {
        crate::types::uint::lemma_uint_at(data, pos);
    } else if major == TYPE_SINT {
        crate::types::sint::lemma_sint_at(data, pos);
    } else if major == TYPE_FLOAT {
        crate::types::float::lemma_float_at(data, pos);
    }
}

/// A row of values that is read ends at or behind its start and inside the
/// data, and has as many values as were asked for.
pub proof fn lemma_values_at_bounds(data: Seq<u8>, pos: int, n: nat)
    requires
        values_at(data, pos, n) is Some,
        pos <= data.len(),
    ensures
        pos <= values_at(data, pos, n).unwrap().1 <= data.len(),
        values_at(data, pos, n).unwrap().0.len() == n,
    decreases data.len() - pos, n + 1,
{
    if n > 0 {
        lemma_values_at_bounds(data, pos, (n - 1) as nat);
        let (s, p) = values_at(data, pos, (n - 1) as nat).unwrap();
        lemma_value_at_bounds(data, p);
    }
}

/// The error of a conversion from a value of another shape.
pub fn invalid_type<T>(expected: &str) -> (r: Result<T, LqError>)
    ensures
        r matches Err(e) && e.kind == ErrorKind::Schema,
{
    let mut msg = "Cannot convert (try_into) value, wrong type. Expecting ".to_owned();
    msg.append(expected);
    LqError::err_new(ErrorKind::Schema, msg.as_str())
}

impl Value {
    /// The value of a boolean.
    pub fn from_bool(value: bool) -> (v: Value)
        ensures
            v == Value::Bool(value),
    {
        Value::Bool(value)
    }

    /// The value of a text.
    pub fn from_string(value: String) -> (v: Value)
        ensures
            v == Value::Unicode(value),
    {
        Value::Unicode(value)
    }

    /// The value of a text.
    pub fn from_str(value: &str) -> (v: Value)
        ensures
            v@ == ValueView::Unicode(value@),
    {
        Value::Unicode(value.to_owned())
    }

    /// The value of binary data.
    pub fn from_bytes(value: &[u8]) -> (v: Value)
        ensures
            v@ == ValueView::Binary(value@),
    {
        Value::Binary(vstd::slice::slice_to_vec(value))
    }

    /// The value of an option.
    pub fn from_option(value: Option<Value>) -> (v: Value)
        ensures
            v@ == (match value {
                Some(inner) => ValueView::Option(Some(Box::new(inner@))),
                None => ValueView::Option(None),
            }),
    {
        match value {
            Some(value) => Value::Option(Some(Box::new(value))),
            None => Value::Option(None),
        }
    }

    /// The value of a list.
    pub fn from_vec(value: Vec<Value>) -> (v: Value)
        ensures
            v == Value::List(value),
    {
        Value::List(value)
    }

    /// The value of an unsigned integer.
    pub fn from_u64(value: u64) -> (v: Value)
        ensures
            v == Value::UInt(value as u128),
    {
        Value::UInt(value as u128)
    }

    /// The value of a signed integer.
    pub fn from_i64(value: i64) -> (v: Value)
        ensures
            v == Value::SInt(value as i128),
    {
        Value::SInt(value as i128)
    }

    /// The value of an unsigned integer.
    pub fn from_u32(value: u32) -> (v: Value)
        ensures
            v == Value::UInt(value as u128),
    {
        Value::UInt(value as u128)
    }

    /// The value of a signed integer.
    pub fn from_i32(value: i32) -> (v: Value)
        ensures
            v == Value::SInt(value as i128),
    {
        Value::SInt(value as i128)
    }

    /// The boolean of a value; an error for a value of another shape.
    pub fn try_into_bool(&self) -> (r: Result<bool, LqError>)
        ensures
            match r {
                Ok(b) => *self == Value::Bool(b),
                Err(e) => !(self is Bool) && e.kind == ErrorKind::Schema,
            },
    {
        match self {
            Value::Bool(boolean) => Ok(*boolean),
            _ => invalid_type("bool"),
        }
    }

    /// The bytes of a binary value; an error for a value of another shape.
    pub fn try_into_binary(&self) -> (r: Result<&[u8], LqError>)
        ensures
            match r {
                Ok(b) => self matches Value::Binary(own) && own@ == b@,
                Err(e) => !(self is Binary) && e.kind == ErrorKind::Schema,
            },
    {
        match self {
            Value::Binary(bin) => Ok(bin.as_slice()),
            _ => invalid_type("binary"),
        }
    }

    /// The inner value of an option; an error for a value of another shape.
    pub fn try_into_option(&self) -> (r: Result<Option<&Value>, LqError>)
        ensures
            match r {
                Ok(Some(inner)) => self matches Value::Option(Some(own)) && **own == *inner,
                Ok(None) => *self == Value::Option(None),
                Err(e) => !(self is Option) && e.kind == ErrorKind::Schema,
            },
    {
        match self {
            Value::Option(opt) => match opt {
                Some(inner) => Ok(Some(&**inner)),
                None => Ok(None),
            },
            _ => invalid_type("optional"),
        }
    }

    /// The items of a list; an error for a value of another shape.
    pub fn try_into_list(&self) -> (r: Result<&Vec<Value>, LqError>)
        ensures
            match r {
                Ok(items) => *self == Value::List(*items),
                Err(e) => !(self is List) && e.kind == ErrorKind::Schema,
            },
    {
        match self {
            Value::List(list) => Ok(list),
            _ => invalid_type("list"),
        }
    }

    /// The variant of an enum value; an error for a value of another shape.
    pub fn try_into_enum(&self) -> (r: Result<&ValueVariant, LqError>)
        ensures
            match r {
                Ok(variant) => *self == Value::Enum(*variant),
                Err(e) => !(self is Enum) && e.kind == ErrorKind::Schema,
            },
    {
        match self {
            Value::Enum(enum_value) => Ok(enum_value),
            _ => invalid_type("enum"),
        }
    }

    /// The text of a text value; an error for a value of another shape.
    pub fn try_into_str(&self) -> (r: Result<&str, LqError>)
        ensures
            match r {
                Ok(text) => self matches Value::Unicode(own) && own@ == text@,
                Err(e) => !(self is Unicode) && e.kind == ErrorKind::Schema,
            },
    {
        match self {
            Value::Unicode(text) => Ok(text.as_str()),
            _ => invalid_type("unicode"),
        }
    }

    /// The number of an unsigned integer that fits in 64 bits; an error for
    /// a greater one and for a value of another shape.
    pub fn try_into_u64(&self) -> (r: Result<u64, LqError>)
        ensures
            match r {
                Ok(v) => *self == Value::UInt(v as u128),
                Err(e) => !(self matches Value::UInt(v) && *v <= u64::MAX) && e.kind
                    == ErrorKind::Schema,
            },
    {
        match self {
            Value::UInt(uint) => if *uint <= u64::MAX as u128 {
                Ok(*uint as u64)
            } else {
                invalid_type("unsigned int of 64 bits")
            },
            _ => invalid_type("unsigned int"),
        }
    }

    /// The number of a signed integer that fits in 64 bits; an error for
    /// one that does not and for a value of another shape.
    pub fn try_into_i64(&self) -> (r: Result<i64, LqError>)
        ensures
            match r {
                Ok(v) => *self == Value::SInt(v as i128),
                Err(e) => !(self matches Value::SInt(v) && i64::MIN <= *v <= i64::MAX) && e.kind
                    == ErrorKind::Schema,
            },
    {
        match self {
            Value::SInt(sint) => if *sint >= i64::MIN as i128 && *sint <= i64::MAX as i128 {
                Ok(*sint as i64)
            } else {
                invalid_type("signed int of 64 bits")
            },
            _ => invalid_type("signed int"),
        }
    }
}

} // verus!
