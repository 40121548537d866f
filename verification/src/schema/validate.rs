//! The validation context and the validators of all schema types.

use crate::error::{ErrorKind, LqError};
use crate::major_types::TYPE_UNICODE;
use crate::schema::any_type::AnyType;
use crate::schema::compare::{compare_at, comparison_outcome};
use crate::schema::container::{lemma_found, TypeContainer};
use crate::schema::keys::Comparison;
use crate::schema::laws::{lemma_refs_valid_are_values, lemma_valid_has_key, lemma_valid_is_value};
use crate::schema::rules::{
    ascii_valid_at, binary_valid_at, bool_valid_at, decimal_valid_at, elements_valid_at,
    entries_valid_at, enumeration_valid_at, field_targets, float32_valid_at, float64_valid_at,
    key_at, key_ref_valid_at, key_step_ok, loose, map_valid_at, option_valid_at, order_ok,
    range_valid_at, refs_valid_at, root_map_valid_at, sequence_valid_at, sint_valid_at,
    structure_valid_at, targets_of, uint_valid_at, unicode_valid_at, uuid_valid_at, validate_at,
    validate_type, Env,
};
use crate::schema::type_ref::{Config, RefTarget, TypeRef};
use crate::schema::types::ascii::TAscii;
use crate::schema::types::binary::TBinary;
use crate::schema::types::boolean::TBool;
use crate::schema::types::decimal::TDecimal;
use crate::schema::types::enumeration::TEnum;
use crate::schema::types::float::{float32_allowed, float64_allowed, TFloat32, TFloat64};
use crate::schema::types::key_ref::TKeyRef;
use crate::schema::types::map::{Sorting, TMap};
use crate::schema::types::option::TOption;
use crate::schema::types::range::{Inclusion, TRange};
use crate::schema::types::root_map::TRootMap;
use crate::schema::types::seq::{Direction, Order, TSeq};
use crate::schema::types::sint::TSInt;
use crate::schema::types::structure::{Field, TStruct};
use crate::schema::types::uint::TUInt;
use crate::schema::types::unicode::{LengthType, TUnicode};
use crate::schema::types::uuid::TUuid;
use crate::slice_reader::SliceReader;
use crate::types::binary::{read_leaf, Binary};
use crate::types::boolean::Bool;
use crate::types::enumeration::EnumHeader;
use crate::types::float::{Float32, Float64};
use crate::types::option::Presence;
use crate::types::seq::{lemma_seq_header_at, seq_header_at, SeqHeader};
use crate::types::sint::{SInt128, SInt8};
use crate::types::uint::{UInt128, UInt32};
use crate::types::unicode::Unicode;
use vstd::prelude::*;
use vstd::string::*;

verus! {

/// What one validation carries along: the schema, the mode, the cursor into
/// the data, and the stack of key reference frames. A frame holds the number
/// of keys of a map with anchors that is being validated; the innermost map
/// is last.
pub struct ValidationContext<'s, 'a> {
    pub schema: &'s TypeContainer,
    pub config: Config,
    pub reader: SliceReader<'a>,
    pub frames: Vec<u32>,
}

/// What validation reads of the schema of a context.
pub open spec fn env_of(c: ValidationContext) -> Env {
    c.schema.env(c.config.no_extension)
}

/// Whether a context is what it was but for its cursor.
pub open spec fn kept(after: ValidationContext, before: ValidationContext) -> bool {
    &&& after.schema == before.schema
    &&& after.config == before.config
    &&& after.reader.spec_data() == before.reader.spec_data()
    &&& after.frames@ == before.frames@
}

/// Whether a validation went as the rules say: the context is what it was
/// but for its cursor; on success the cursor is where the rules say the
/// value ends; on failure the error is of the kind that the rules give.
pub open spec fn outcome(
    after: ValidationContext,
    before: ValidationContext,
    r: Result<(), LqError>,
    rule: Result<int, ErrorKind>,
) -> bool {
    &&& kept(after, before)
    &&& match r {
        Ok(_) => rule == Ok::<int, ErrorKind>(after.reader.spec_offset()),
        Err(e) => rule == Err::<int, ErrorKind>(e.kind),
    }
}

/// Where validating `k` values in a row fails, validating more fails the
/// same way.
pub proof fn lemma_refs_valid_prefix(
    env: Env,
    targets: Seq<RefTarget>,
    data: Seq<u8>,
    first: int,
    k: nat,
    n: nat,
    frames: Seq<u32>,
)
    requires
        k <= n <= targets.len(),
        refs_valid_at(env, targets, data, first, k, frames) is Err,
    ensures
        refs_valid_at(env, targets, data, first, n, frames) == refs_valid_at(
            env,
            targets,
            data,
            first,
            k,
            frames,
        ),
    decreases n,
{
    if k < n {
        lemma_refs_valid_prefix(env, targets, data, first, k, (n - 1) as nat, frames);
    }
}

/// Where validating `k` elements of a sequence fails, validating more fails
/// the same way.
pub proof fn lemma_elements_valid_prefix(
    env: Env,
    element: RefTarget,
    ordering: Order,
    data: Seq<u8>,
    first: int,
    k: nat,
    n: nat,
    frames: Seq<u32>,
)
    requires
        k <= n,
        elements_valid_at(env, element, ordering, data, first, k, frames) is Err,
    ensures
        elements_valid_at(env, element, ordering, data, first, n, frames) == elements_valid_at(
            env,
            element,
            ordering,
            data,
            first,
            k,
            frames,
        ),
    decreases n,
{
    if k < n {
        lemma_elements_valid_prefix(
            env,
            element,
            ordering,
            data,
            first,
            k,
            (n - 1) as nat,
            frames,
        );
    }
}

/// Where validating `k` entries of a map fails, validating more fails the
/// same way.
pub proof fn lemma_entries_valid_prefix(
    env: Env,
    key: RefTarget,
    value: RefTarget,
    sorting: Sorting,
    data: Seq<u8>,
    first: int,
    k: nat,
    n: nat,
    frames: Seq<u32>,
)
    requires
        k <= n,
        entries_valid_at(env, key, value, sorting, data, first, k, frames) is Err,
    ensures
        entries_valid_at(env, key, value, sorting, data, first, n, frames) == entries_valid_at(
            env,
            key,
            value,
            sorting,
            data,
            first,
            k,
            frames,
        ),
    decreases n,
{
    if k < n {
        lemma_entries_valid_prefix(
            env,
            key,
            value,
            sorting,
            data,
            first,
            k,
            (n - 1) as nat,
            frames,
        );
    }
}

/// Whether two neighbours of a sorted sequence may compare as they do.
pub fn order_allowed(direction: Direction, unique: bool, c: Comparison) -> (b: bool)
    ensures
        b == order_ok(direction, unique, c),
{
    match c {
        Comparison::Equal => !unique,
        Comparison::Less => match direction {
            Direction::Ascending => true,
            Direction::Descending => false,
        },
        Comparison::Greater => match direction {
            Direction::Ascending => false,
            Direction::Descending => true,
        },
    }
}

/// Whether two neighbouring keys of a map may compare as they do.
pub fn key_step_allowed(sorting: Sorting, c: Comparison) -> (b: bool)
    ensures
        b == key_step_ok(sorting, c),
{
    match c {
        Comparison::Equal => false,
        Comparison::Less => match sorting {
            Sorting::Ascending => true,
            Sorting::Descending => false,
        },
        Comparison::Greater => match sorting {
            Sorting::Ascending => false,
            Sorting::Descending => true,
        },
    }
}

impl<'s, 'a> ValidationContext<'s, 'a> {
    /// A context at the start of a validation: no frames.
    pub fn new(schema: &'s TypeContainer, config: Config, reader: SliceReader<'a>) -> (c: Self)
        ensures
            c.schema == schema,
            c.config == config,
            c.reader == reader,
            c.frames@.len() == 0,
    {
        ValidationContext { schema, config, reader, frames: Vec::new() }
    }

    /// The mode of the validation.
    pub fn config(&self) -> (c: &Config)
        ensures
            *c == self.config,
    {
        &self.config
    }

    /// The schema.
    pub fn schema(&self) -> (s: &'s TypeContainer)
        ensures
            s == self.schema,
    {
        self.schema
    }

    /// The number of keys of the innermost map with anchors; nothing outside
    /// of such a map.
    pub fn map_len(&self) -> (r: Option<u32>)
        ensures
            match r {
                Some(n) => self.frames@.len() > 0 && n == self.frames@.last(),
                None => self.frames@.len() == 0,
            },
    {
        let depth = self.frames.len();
        if depth == 0 {
            None
        } else {
            Some(self.frames[depth - 1])
        }
    }

    /// Enters a map with anchors and `key_count` keys.
    pub fn push_key_ref_frame(&mut self, key_count: u32)
        ensures
            final(self).schema == old(self).schema,
            final(self).config == old(self).config,
            final(self).reader == old(self).reader,
            final(self).frames@ == old(self).frames@.push(key_count),
    {
        self.frames.push(key_count);
    }

    /// Leaves the innermost map with anchors.
    pub fn pop_key_ref_frame(&mut self)
        ensures
            final(self).schema == old(self).schema,
            final(self).config == old(self).config,
            final(self).reader == old(self).reader,
            final(self).frames@ == if old(self).frames@.len() > 0 {
                old(self).frames@.drop_last()
            } else {
                old(self).frames@
            },
    {
        if self.frames.len() > 0 {
            self.frames.pop();
        }
    }

    /// Validates the value at the cursor against the type that the reference
    /// points at.
    pub fn validate(&mut self, type_ref: &TypeRef) -> (r: Result<(), LqError>)
        ensures
            outcome(
                *final(self),
                *old(self),
                r,
                validate_at(
                    env_of(*old(self)),
                    type_ref.target(),
                    old(self).reader.spec_data(),
                    old(self).reader.spec_offset(),
                    old(self).frames@,
                ),
            ),
        decreases old(self).reader.spec_data().len() - old(self).reader.spec_offset(), 2nat, 0nat,
    {
        proof {
            lemma_found(env_of(*self), self.schema.names@, type_ref.target());
        }
        let schema = self.schema;
        match schema.resolve(type_ref) {
            Ok(t) => t.validate(self),
            Err(e) => Err(e),
        }
    }

    /// Compares the values at the two cursors under the type that the
    /// reference points at. Both cursors move behind their value, whatever
    /// the result.
    pub fn compare<'x, 'y>(
        &self,
        type_ref: &TypeRef,
        r1: &mut SliceReader<'x>,
        r2: &mut SliceReader<'y>,
    ) -> (r: Result<Comparison, LqError>)
        ensures
            final(r1).spec_data() == old(r1).spec_data(),
            final(r2).spec_data() == old(r2).spec_data(),
            comparison_outcome(
                r,
                final(r1).spec_offset(),
                final(r2).spec_offset(),
                key_at(
                    loose(env_of(*self)),
                    type_ref.target(),
                    old(r1).spec_data(),
                    old(r1).spec_offset(),
                ),
                key_at(
                    loose(env_of(*self)),
                    type_ref.target(),
                    old(r2).spec_data(),
                    old(r2).spec_offset(),
                ),
            ),
    {
        compare_at(self.schema, type_ref, r1, r2)
    }

    /// Validates the values at the cursor in a row, one against each of the
    /// given references.
    pub fn validate_refs(&mut self, refs: &[TypeRef]) -> (r: Result<(), LqError>)
        ensures
            outcome(
                *final(self),
                *old(self),
                r,
                refs_valid_at(
                    env_of(*old(self)),
                    targets_of(refs@),
                    old(self).reader.spec_data(),
                    old(self).reader.spec_offset(),
                    refs@.len(),
                    old(self).frames@,
                ),
            ),
        decreases old(self).reader.spec_data().len() - old(self).reader.spec_offset(), 3nat, 0nat,
    {
        proof {
            use_type_invariant(&self.reader);
            self.reader.lemma_within();
        }
        let ghost env = env_of(*self);
        let ghost data = self.reader.spec_data();
        let ghost first = self.reader.spec_offset();
        let ghost frames = self.frames@;
        let ghost targets = targets_of(refs@);
        let mut index: usize = 0;
        while index < refs.len()
            invariant
                kept(*self, *old(self)),
                env == env_of(*old(self)),
                data == old(self).reader.spec_data(),
                first == old(self).reader.spec_offset(),
                frames == old(self).frames@,
                targets == targets_of(refs@),
                first <= self.reader.spec_offset() <= data.len(),
                index <= refs@.len(),
                refs_valid_at(env, targets, data, first, index as nat, frames) == Ok::<
                    int,
                    ErrorKind,
                >(self.reader.spec_offset()),
            decreases refs.len() - index,
        {
            let ghost here = self.reader.spec_offset();
            proof {
                if refs_valid_at(env, targets, data, first, (index + 1) as nat, frames) is Err {
                    lemma_refs_valid_prefix(
                        env,
                        targets,
                        data,
                        first,
                        (index + 1) as nat,
                        refs@.len(),
                        frames,
                    );
                }
            }
            self.validate(&refs[index])?;
            proof {
                lemma_valid_is_value(env, targets[index as int], data, here, frames);
            }
            index += 1;
        }
        Ok(())
    }

    /// Validates the values at the cursor in a row, one against the type of
    /// each of the given fields.
    pub fn validate_fields(&mut self, fields: &[Field]) -> (r: Result<(), LqError>)
        ensures
            outcome(
                *final(self),
                *old(self),
                r,
                refs_valid_at(
                    env_of(*old(self)),
                    field_targets(fields@),
                    old(self).reader.spec_data(),
                    old(self).reader.spec_offset(),
                    fields@.len(),
                    old(self).frames@,
                ),
            ),
        decreases old(self).reader.spec_data().len() - old(self).reader.spec_offset(), 3nat, 0nat,
    {
        proof {
            use_type_invariant(&self.reader);
            self.reader.lemma_within();
        }
        let ghost env = env_of(*self);
        let ghost data = self.reader.spec_data();
        let ghost first = self.reader.spec_offset();
        let ghost frames = self.frames@;
        let ghost targets = field_targets(fields@);
        let mut index: usize = 0;
        while index < fields.len()
            invariant
                kept(*self, *old(self)),
                env == env_of(*old(self)),
                data == old(self).reader.spec_data(),
                first == old(self).reader.spec_offset(),
                frames == old(self).frames@,
                targets == field_targets(fields@),
                first <= self.reader.spec_offset() <= data.len(),
                index <= fields@.len(),
                refs_valid_at(env, targets, data, first, index as nat, frames) == Ok::<
                    int,
                    ErrorKind,
                >(self.reader.spec_offset()),
            decreases fields.len() - index,
        {
            let ghost here = self.reader.spec_offset();
            proof {
                if refs_valid_at(env, targets, data, first, (index + 1) as nat, frames) is Err {
                    lemma_refs_valid_prefix(
                        env,
                        targets,
                        data,
                        first,
                        (index + 1) as nat,
                        fields@.len(),
                        frames,
                    );
                }
            }
            self.validate(&fields[index].type_ref)?;
            proof {
                lemma_valid_is_value(env, targets[index as int], data, here, frames);
            }
            index += 1;
        }
        Ok(())
    }

    /// Validates `n` entries of a map at the cursor. Each entry is a
    /// sequence of a key and a value; each key has to come strictly behind
    /// the key before it in the direction of the sorting.
    pub fn validate_entries(&mut self, key: &TypeRef, value: &TypeRef, sorting: Sorting, n: u32)
        -> (r: Result<(), LqError>)
        ensures
            outcome(
                *final(self),
                *old(self),
                r,
                match entries_valid_at(
                    env_of(*old(self)),
                    key.target(),
                    value.target(),
                    sorting,
                    old(self).reader.spec_data(),
                    old(self).reader.spec_offset(),
                    n as nat,
                    old(self).frames@,
                ) {
                    Ok((e, _)) => Ok(e),
                    Err(kind) => Err(kind),
                },
            ),
        decreases old(self).reader.spec_data().len() - old(self).reader.spec_offset(), 3nat, 0nat,
    {
        proof {
            use_type_invariant(&self.reader);
            self.reader.lemma_within();
        }
        let ghost env = env_of(*self);
        let ghost data = self.reader.spec_data();
        let ghost first = self.reader.spec_offset();
        let ghost frames = self.frames@;
        let mut previous = self.reader;
        let mut index: u32 = 0;
        while index < n
            invariant
                kept(*self, *old(self)),
                env == env_of(*old(self)),
                data == old(self).reader.spec_data(),
                first == old(self).reader.spec_offset(),
                frames == old(self).frames@,
                first <= self.reader.spec_offset() <= data.len(),
                previous.spec_data() == data,
                index <= n,
                entries_valid_at(
                    env,
                    key.target(),
                    value.target(),
                    sorting,
                    data,
                    first,
                    index as nat,
                    frames,
                ) == Ok::<(int, int), ErrorKind>(
                    (self.reader.spec_offset(), previous.spec_offset()),
                ),
                index > 0 ==> validate_at(env, key.target(), data, previous.spec_offset(), frames)
                    is Ok,
            decreases n - index,
        {
            let ghost here = self.reader.spec_offset();
            proof {
                if entries_valid_at(
                    env,
                    key.target(),
                    value.target(),
                    sorting,
                    data,
                    first,
                    (index + 1) as nat,
                    frames,
                ) is Err {
                    lemma_entries_valid_prefix(
                        env,
                        key.target(),
                        value.target(),
                        sorting,
                        data,
                        first,
                        (index + 1) as nat,
                        n as nat,
                        frames,
                    );
                }
            }
            let header = SeqHeader::de_serialize(&mut self.reader)?;
            if header.length() != 2 {
                return LqError::err_new(
                    ErrorKind::Schema,
                    "An entry of a map is a sequence of a key and a value",
                );
            }
            proof {
                lemma_seq_header_at(data, here);
            }
            let key_start = self.reader;
            self.validate(key)?;
            proof {
                lemma_valid_is_value(env, key.target(), data, key_start.spec_offset(), frames);
            }
            if index > 0 {
                let mut a = previous;
                let mut b = key_start;
                proof {
                    lemma_valid_has_key(env, key.target(), data, previous.spec_offset(), frames);
                    lemma_valid_has_key(env, key.target(), data, key_start.spec_offset(), frames);
                }
                let step = self.compare(key, &mut a, &mut b)?;
                if !key_step_allowed(sorting, step) {
                    return LqError::err_new(
                        ErrorKind::Relational,
                        "The keys of the map are not unique or not sorted as the schema asks for",
                    );
                }
            }
            let ghost value_start = self.reader.spec_offset();
            self.validate(value)?;
            proof {
                lemma_valid_is_value(env, value.target(), data, value_start, frames);
            }
            previous = key_start;
            index += 1;
        }
        Ok(())
    }
}

impl TypeContainer {
    /// Validates a document: the value at the cursor has to be a valid value
    /// of the root type, and the data has to end behind it.
    pub fn validate(&self, config: Config, reader: &mut SliceReader) -> (r: Result<(), LqError>)
        ensures
            final(reader).spec_data() == old(reader).spec_data(),
            match r {
                Ok(_) => validate_at(
                    self.env(config.no_extension),
                    self.root.target(),
                    old(reader).spec_data(),
                    old(reader).spec_offset(),
                    Seq::empty(),
                ) == Ok::<int, ErrorKind>(old(reader).spec_data().len() as int)
                    && final(reader).spec_offset() == old(reader).spec_data().len(),
                Err(e) => match validate_at(
                    self.env(config.no_extension),
                    self.root.target(),
                    old(reader).spec_data(),
                    old(reader).spec_offset(),
                    Seq::empty(),
                ) {
                    Ok(end) => end != old(reader).spec_data().len() && e.kind == ErrorKind::Codec,
                    Err(kind) => e.kind == kind,
                },
            },
    {
        let mut context = ValidationContext::new(self, config, *reader);
        proof {
            assert(context.frames@ =~= Seq::<u32>::empty());
        }
        let result = context.validate(&self.root);
        *reader = context.reader;
        match result {
            Ok(_) => reader.finish(),
            Err(e) => Err(e),
        }
    }
}

impl AnyType {
    /// Validates the value at the cursor against this type.
    pub fn validate(&self, context: &mut ValidationContext) -> (r: Result<(), LqError>)
        ensures
            outcome(
                *final(context),
                *old(context),
                r,
                validate_type(
                    env_of(*old(context)),
                    *self,
                    old(context).reader.spec_data(),
                    old(context).reader.spec_offset(),
                    old(context).frames@,
                ),
            ),
        decreases old(context).reader.spec_data().len() - old(context).reader.spec_offset(),
            1nat,
            0nat,
    {
        match self {
            AnyType::Struct(value) => value.validate(context),
            AnyType::Mapping(value) => value.validate(context),
            AnyType::RootMap(value) => value.validate(context),
            AnyType::KeyRef(value) => value.validate(context),
            AnyType::UInt(value) => value.validate(context),
            AnyType::SInt(value) => value.validate(context),
            AnyType::Ascii(value) => value.validate(context),
            AnyType::Bool(value) => value.validate(context),
            AnyType::Enum(value) => value.validate(context),
            AnyType::Sequence(value) => value.validate(context),
            AnyType::Binary(value) => value.validate(context),
            AnyType::Float32(value) => value.validate(context),
            AnyType::Float64(value) => value.validate(context),
            AnyType::Option(value) => value.validate(context),
            AnyType::Unicode(value) => value.validate(context),
            AnyType::Uuid(value) => value.validate(context),
            AnyType::Range(value) => value.validate(context),
            AnyType::Decimal(value) => value.validate(context),
        }
    }
}

impl TBool {
    /// Validates a boolean.
    pub fn validate(&self, context: &mut ValidationContext) -> (r: Result<(), LqError>)
        ensures
            outcome(
                *final(context),
                *old(context),
                r,
                bool_valid_at(
                    env_of(*old(context)),
                    *self,
                    old(context).reader.spec_data(),
                    old(context).reader.spec_offset(),
                    old(context).frames@,
                ),
            ),
    {
        Bool::de_serialize(&mut context.reader)?;
        Ok(())
    }
}

impl TUInt {
    /// Validates an unsigned integer: it has to lie in the range.
    pub fn validate(&self, context: &mut ValidationContext) -> (r: Result<(), LqError>)
        ensures
            outcome(
                *final(context),
                *old(context),
                r,
                uint_valid_at(
                    env_of(*old(context)),
                    *self,
                    old(context).reader.spec_data(),
                    old(context).reader.spec_offset(),
                    old(context).frames@,
                ),
            ),
    {
        let int_value = UInt128::de_serialize(&mut context.reader)?;
        self.range.require_within(int_value)?;
        Ok(())
    }
}

impl TSInt {
    /// Validates a signed integer: it has to lie in the range.
    pub fn validate(&self, context: &mut ValidationContext) -> (r: Result<(), LqError>)
        ensures
            outcome(
                *final(context),
                *old(context),
                r,
                sint_valid_at(
                    env_of(*old(context)),
                    *self,
                    old(context).reader.spec_data(),
                    old(context).reader.spec_offset(),
                    old(context).frames@,
                ),
            ),
    {
        let int_value = SInt128::de_serialize(&mut context.reader)?;
        self.range.require_within(int_value)?;
        Ok(())
    }
}

impl TFloat32 {
    /// Validates a 32 bit float against the range and the flags.
    pub fn validate(&self, context: &mut ValidationContext) -> (r: Result<(), LqError>)
        ensures
            outcome(
                *final(context),
                *old(context),
                r,
                float32_valid_at(
                    env_of(*old(context)),
                    *self,
                    old(context).reader.spec_data(),
                    old(context).reader.spec_offset(),
                    old(context).frames@,
                ),
            ),
    {
        let bits = Float32::de_serialize(&mut context.reader)?;
        if float32_allowed(self.min, self.max, &self.flags, bits) {
            Ok(())
        } else {
            LqError::err_new(
                ErrorKind::Schema,
                "The float is out of range or of a class that the schema does not allow",
            )
        }
    }
}

impl TFloat64 {
    /// Validates a 64 bit float against the range and the flags.
    pub fn validate(&self, context: &mut ValidationContext) -> (r: Result<(), LqError>)
        ensures
            outcome(
                *final(context),
                *old(context),
                r,
                float64_valid_at(
                    env_of(*old(context)),
                    *self,
                    old(context).reader.spec_data(),
                    old(context).reader.spec_offset(),
                    old(context).frames@,
                ),
            ),
    {
        let bits = Float64::de_serialize(&mut context.reader)?;
        if float64_allowed(self.min, self.max, &self.flags, bits) {
            Ok(())
        } else {
            LqError::err_new(
                ErrorKind::Schema,
                "The float is out of range or of a class that the schema does not allow",
            )
        }
    }
}

impl TBinary {
    /// Validates binary data: its length has to lie in the range.
    pub fn validate(&self, context: &mut ValidationContext) -> (r: Result<(), LqError>)
        ensures
            outcome(
                *final(context),
                *old(context),
                r,
                binary_valid_at(
                    env_of(*old(context)),
                    *self,
                    old(context).reader.spec_data(),
                    old(context).reader.spec_offset(),
                    old(context).frames@,
                ),
            ),
    {
        let bytes = Binary::de_serialize(&mut context.reader)?;
        let length = bytes.len();
        self.length.require_within(length as u64)?;
        Ok(())
    }
}

impl TUnicode {
    /// Validates a text: its length, counted as the type says, has to lie
    /// in the range.
    pub fn validate(&self, context: &mut ValidationContext) -> (r: Result<(), LqError>)
        ensures
            outcome(
                *final(context),
                *old(context),
                r,
                unicode_valid_at(
                    env_of(*old(context)),
                    *self,
                    old(context).reader.spec_data(),
                    old(context).reader.spec_offset(),
                    old(context).frames@,
                ),
            ),
    {
        let text = Unicode::de_serialize(&mut context.reader)?;
        let length = match self.length_type {
            LengthType::Byte => text.as_bytes().len(),
            LengthType::Utf8Byte => text.as_bytes().len(),
            LengthType::ScalarValue => text.unicode_len(),
        };
        self.length.require_within(length as u64)?;
        Ok(())
    }
}

impl TAscii {
    /// Validates an ASCII text: its length has to lie in the range and each
    /// of its bytes in one of the code ranges.
    pub fn validate(&self, context: &mut ValidationContext) -> (r: Result<(), LqError>)
        ensures
            outcome(
                *final(context),
                *old(context),
                r,
                ascii_valid_at(
                    env_of(*old(context)),
                    *self,
                    old(context).reader.spec_data(),
                    old(context).reader.spec_offset(),
                    old(context).frames@,
                ),
            ),
    {
        let bytes = read_leaf(&mut context.reader, TYPE_UNICODE)?;
        let length = bytes.len();
        self.length.require_within(length as u64)?;
        if !self.codes.contains_all(bytes) {
            return LqError::err_new(
                ErrorKind::Schema,
                "The text holds a character that the schema does not allow",
            );
        }
        Ok(())
    }
}

impl TUuid {
    /// Validates a UUID: binary data of 16 bytes.
    pub fn validate(&self, context: &mut ValidationContext) -> (r: Result<(), LqError>)
        ensures
            outcome(
                *final(context),
                *old(context),
                r,
                uuid_valid_at(
                    env_of(*old(context)),
                    *self,
                    old(context).reader.spec_data(),
                    old(context).reader.spec_offset(),
                    old(context).frames@,
                ),
            ),
    {
        // it's just a normal binary
        let bytes = Binary::de_serialize(&mut context.reader)?;
        if bytes.len() != 16 {
            return LqError::err_new(
                ErrorKind::Codec,
                "Invalid length of UUID (need to be 16 bytes)",
            );
        }
        Ok(())
    }
}

impl TKeyRef {
    /// Validates a key reference: a number below the number of keys of the
    /// innermost map with anchors.
    pub fn validate(&self, context: &mut ValidationContext) -> (r: Result<(), LqError>)
        ensures
            outcome(
                *final(context),
                *old(context),
                r,
                key_ref_valid_at(
                    env_of(*old(context)),
                    *self,
                    old(context).reader.spec_data(),
                    old(context).reader.spec_offset(),
                    old(context).frames@,
                ),
            ),
    {
        let ref_int = UInt32::de_serialize(&mut context.reader)?;
        match context.map_len() {
            Some(len) => {
                if ref_int >= len {
                    LqError::err_new(
                        ErrorKind::Reference,
                        "You're referencing a key in a map but the map has less keys.",
                    )
                } else {
                    Ok(())
                }
            },
            None => LqError::err_new(
                ErrorKind::Reference,
                "You're trying to reference a key in a map but there's no map that's currently being processed. Key references can only be within a map.",
            ),
        }
    }
}

impl TDecimal {
    /// Validates a decimal: coefficient and exponent have to lie in their
    /// ranges.
    pub fn validate(&self, context: &mut ValidationContext) -> (r: Result<(), LqError>)
        ensures
            outcome(
                *final(context),
                *old(context),
                r,
                decimal_valid_at(
                    env_of(*old(context)),
                    *self,
                    old(context).reader.spec_data(),
                    old(context).reader.spec_offset(),
                    old(context).frames@,
                ),
            ),
    {
        let header = SeqHeader::de_serialize(&mut context.reader)?;
        if header.length() != 2 {
            return LqError::err_new(ErrorKind::Schema, "A decimal is a sequence of two values");
        }
        let coefficient = SInt128::de_serialize(&mut context.reader)?;
        self.coefficient.require_within(coefficient)?;
        let exponent = SInt8::de_serialize(&mut context.reader)?;
        self.exponent.require_within(exponent)?;
        Ok(())
    }
}

impl TOption {
    /// Validates an option: absent, or present with a valid value.
    pub fn validate(&self, context: &mut ValidationContext) -> (r: Result<(), LqError>)
        ensures
            outcome(
                *final(context),
                *old(context),
                r,
                option_valid_at(
                    env_of(*old(context)),
                    *self,
                    old(context).reader.spec_data(),
                    old(context).reader.spec_offset(),
                    old(context).frames@,
                ),
            ),
        decreases old(context).reader.spec_data().len() - old(context).reader.spec_offset(),
            0nat,
            0nat,
    {
        let ghost data = context.reader.spec_data();
        let ghost start = context.reader.spec_offset();
        let presence = Presence::de_serialize(&mut context.reader)?;
        proof {
            crate::types::option::lemma_presence_at(data, start);
        }
        match presence {
            Presence::Absent => Ok(()),
            Presence::Present => context.validate(&self.inner),
        }
    }
}

impl TSeq {
    /// Validates a sequence: its length, each element, and in a sorted
    /// sequence each element against the one before it.
    pub fn validate(&self, context: &mut ValidationContext) -> (r: Result<(), LqError>)
        ensures
            outcome(
                *final(context),
                *old(context),
                r,
                sequence_valid_at(
                    env_of(*old(context)),
                    *self,
                    old(context).reader.spec_data(),
                    old(context).reader.spec_offset(),
                    old(context).frames@,
                ),
            ),
        decreases old(context).reader.spec_data().len() - old(context).reader.spec_offset(),
            0nat,
            0nat,
    {
        let ghost env = env_of(*context);
        let ghost data = context.reader.spec_data();
        let ghost start = context.reader.spec_offset();
        let ghost frames = context.frames@;
        let header = SeqHeader::de_serialize(&mut context.reader)?;
        let number_of_items = header.length();
        self.length.require_within(number_of_items)?;
        match self.multiple_of {
            Some(m) => {
                let is_multiple = if m == 0 {
                    number_of_items == 0
                } else {
                    number_of_items % m == 0
                };
                if !is_multiple {
                    return LqError::err_new(
                        ErrorKind::Schema,
                        "The length of the sequence is no multiple of what the schema asks for",
                    );
                }
            },
            None => {},
        }
        proof {
            lemma_seq_header_at(data, start);
        }
        let ghost first = context.reader.spec_offset();
        let mut previous = context.reader;
        let mut index: u32 = 0;
        while index < number_of_items
            invariant
                kept(*context, *old(context)),
                env == env_of(*old(context)),
                data == old(context).reader.spec_data(),
                start == old(context).reader.spec_offset(),
                frames == old(context).frames@,
                start < first <= context.reader.spec_offset() <= data.len(),
                previous.spec_data() == data,
                index <= number_of_items,
                sequence_valid_at(env, *self, data, start, frames) == (match elements_valid_at(
                    env,
                    self.element.target(),
                    self.ordering,
                    data,
                    first,
                    number_of_items as nat,
                    frames,
                ) {
                    Ok((e, _)) => Ok::<int, ErrorKind>(e),
                    Err(kind) => Err::<int, ErrorKind>(kind),
                }),
                elements_valid_at(
                    env,
                    self.element.target(),
                    self.ordering,
                    data,
                    first,
                    index as nat,
                    frames,
                ) == Ok::<(int, int), ErrorKind>(
                    (context.reader.spec_offset(), previous.spec_offset()),
                ),
                index > 0 ==> validate_at(
                    env,
                    self.element.target(),
                    data,
                    previous.spec_offset(),
                    frames,
                ) is Ok,
            decreases number_of_items - index,
        {
            proof {
                if elements_valid_at(
                    env,
                    self.element.target(),
                    self.ordering,
                    data,
                    first,
                    (index + 1) as nat,
                    frames,
                ) is Err {
                    lemma_elements_valid_prefix(
                        env,
                        self.element.target(),
                        self.ordering,
                        data,
                        first,
                        (index + 1) as nat,
                        number_of_items as nat,
                        frames,
                    );
                }
            }
            let current = context.reader;
            context.validate(&self.element)?;
            proof {
                lemma_valid_is_value(
                    env,
                    self.element.target(),
                    data,
                    current.spec_offset(),
                    frames,
                );
            }
            if index > 0 {
                match self.ordering {
                    Order::Sorted { direction, unique } => {
                        let mut a = previous;
                        let mut b = current;
                        proof {
                            lemma_valid_has_key(
                                env,
                                self.element.target(),
                                data,
                                previous.spec_offset(),
                                frames,
                            );
                            lemma_valid_has_key(
                                env,
                                self.element.target(),
                                data,
                                current.spec_offset(),
                                frames,
                            );
                        }
                        let step = context.compare(&self.element, &mut a, &mut b)?;
                        if !order_allowed(direction, unique, step) {
                            return LqError::err_new(
                                ErrorKind::Relational,
                                "The sequence is not sorted, or not unique, as the schema asks for",
                            );
                        }
                    },
                    Order::Any => {},
                }
            }
            previous = current;
            index += 1;
        }
        Ok(())
    }
}

impl TStruct {
    /// Validates a structure: at least as many values as fields, in strict
    /// mode exactly as many; the fields in their order; further values are
    /// skipped.
    pub fn validate(&self, context: &mut ValidationContext) -> (r: Result<(), LqError>)
        ensures
            outcome(
                *final(context),
                *old(context),
                r,
                structure_valid_at(
                    env_of(*old(context)),
                    *self,
                    old(context).reader.spec_data(),
                    old(context).reader.spec_offset(),
                    old(context).frames@,
                ),
            ),
        decreases old(context).reader.spec_data().len() - old(context).reader.spec_offset(),
            0nat,
            0nat,
    {
        let ghost env = env_of(*context);
        let ghost data = context.reader.spec_data();
        let ghost start = context.reader.spec_offset();
        let ghost frames = context.frames@;
        let list = SeqHeader::de_serialize(&mut context.reader)?;
        let schema_number_of_fields = self.fields.len();
        let number_of_items = list.length() as usize;
        // length check
        if context.config.no_extension() {
            if number_of_items != schema_number_of_fields {
                return LqError::err_new(
                    ErrorKind::Schema,
                    "Invalid number of items in struct (strict mode).",
                );
            }
        } else if number_of_items < schema_number_of_fields {
            return LqError::err_new(
                ErrorKind::Schema,
                "Some fields are missing in the given struct.",
            );
        }
        proof {
            lemma_seq_header_at(data, start);
        }
        let ghost first = context.reader.spec_offset();
        // validate each item
        context.validate_fields(self.fields.as_slice())?;
        proof {
            lemma_refs_valid_are_values(
                env,
                field_targets(self.fields@),
                data,
                first,
                self.fields@.len(),
                frames,
            );
        }
        // skip the rest
        let to_skip = number_of_items - schema_number_of_fields;
        context.reader.skip_n_values(to_skip)?;
        Ok(())
    }
}

impl TEnum {
    /// Validates an enum value: the ordinal has to be that of a variant; the
    /// value has to carry at least the values that the variant declares, in
    /// strict mode no more; further values are skipped.
    pub fn validate(&self, context: &mut ValidationContext) -> (r: Result<(), LqError>)
        ensures
            outcome(
                *final(context),
                *old(context),
                r,
                enumeration_valid_at(
                    env_of(*old(context)),
                    *self,
                    old(context).reader.spec_data(),
                    old(context).reader.spec_offset(),
                    old(context).frames@,
                ),
            ),
        decreases old(context).reader.spec_data().len() - old(context).reader.spec_offset(),
            0nat,
            0nat,
    {
        let ghost env = env_of(*context);
        let ghost data = context.reader.spec_data();
        let ghost start = context.reader.spec_offset();
        let ghost frames = context.frames@;
        let enum_header = EnumHeader::de_serialize(&mut context.reader)?;
        let number_of_values = enum_header.number_of_values();
        let ordinal = enum_header.ordinal();

        let number_of_variants = self.variants.len();

        let usize_ordinal = ordinal as usize;
        if usize_ordinal >= number_of_variants {
            return LqError::err_new(
                ErrorKind::Schema,
                "There's no such variant defined for that ordinal value in the schema.",
            );
        }
        let variant = &self.variants.as_slice()[usize_ordinal];

        let usize_number_of_values = number_of_values as usize;
        let schema_number_of_values = variant.values.len();
        if context.config.no_extension() && (schema_number_of_values != usize_number_of_values) {
            return LqError::err_new(
                ErrorKind::Schema,
                "Error processing enum variant; strict mode: the data has another number of values than the schema expects.",
            );
        } else if usize_number_of_values < schema_number_of_values {
            return LqError::err_new(
                ErrorKind::Schema,
                "Error processing enum variant: the data has less values than the schema expects.",
            );
        }
        proof {
            crate::types::enumeration::lemma_enum_header_at(data, start);
        }
        let ghost first = context.reader.spec_offset();
        let to_skip = usize_number_of_values - schema_number_of_values;

        // validate each element
        context.validate_refs(variant.values.as_slice())?;
        proof {
            lemma_refs_valid_are_values(
                env,
                targets_of(variant.values@),
                data,
                first,
                variant.values@.len(),
                frames,
            );
        }
        context.reader.skip_n_values(to_skip)?;
        Ok(())
    }
}

impl TMap {
    /// Validates a map: its length and its entries. With anchors the entries
    /// see a frame with the number of the keys; the frame is gone when this
    /// returns, whatever the result.
    pub fn validate(&self, context: &mut ValidationContext) -> (r: Result<(), LqError>)
        ensures
            outcome(
                *final(context),
                *old(context),
                r,
                map_valid_at(
                    env_of(*old(context)),
                    *self,
                    old(context).reader.spec_data(),
                    old(context).reader.spec_offset(),
                    old(context).frames@,
                ),
            ),
        decreases old(context).reader.spec_data().len() - old(context).reader.spec_offset(),
            0nat,
            0nat,
    {
        let ghost data = context.reader.spec_data();
        let ghost start = context.reader.spec_offset();
        let ghost frames = context.frames@;
        let header = SeqHeader::de_serialize(&mut context.reader)?;
        let length = header.length();
        self.length.require_within(length)?;
        proof {
            lemma_seq_header_at(data, start);
        }
        if self.anchors {
            context.push_key_ref_frame(length);
        }
        let result = context.validate_entries(&self.key, &self.value, self.sorting, length);
        if self.anchors {
            context.pop_key_ref_frame();
            proof {
                assert(frames.push(length).drop_last() =~= frames);
            }
        }
        result
    }
}

impl TRootMap {
    /// Validates a root map: a sequence of the root and the entries. The
    /// number of the entries is read ahead, so that the root sees the frame
    /// of the keys too; the frame is gone when this returns, whatever the
    /// result.
    pub fn validate(&self, context: &mut ValidationContext) -> (r: Result<(), LqError>)
        ensures
            outcome(
                *final(context),
                *old(context),
                r,
                root_map_valid_at(
                    env_of(*old(context)),
                    *self,
                    old(context).reader.spec_data(),
                    old(context).reader.spec_offset(),
                    old(context).frames@,
                ),
            ),
        decreases old(context).reader.spec_data().len() - old(context).reader.spec_offset(),
            0nat,
            0nat,
    {
        let ghost env = env_of(*context);
        let ghost data = context.reader.spec_data();
        let ghost start = context.reader.spec_offset();
        let ghost frames = context.frames@;
        let outer = SeqHeader::de_serialize(&mut context.reader)?;
        if outer.length() != 2 {
            return LqError::err_new(
                ErrorKind::Schema,
                "A root map is a sequence of the root and the entries",
            );
        }
        proof {
            lemma_seq_header_at(data, start);
        }
        let ghost p = context.reader.spec_offset();
        // read ahead: pass over the root to learn the number of entries
        let mut ahead = context.reader;
        ahead.skip()?;
        let ghost behind_root = ahead.spec_offset();
        let header = SeqHeader::de_serialize(&mut ahead)?;
        let length = header.length();
        self.length.require_within(length)?;
        proof {
            crate::wire::lemma_value_end_bounds(data, p);
            lemma_seq_header_at(data, behind_root);
        }
        context.push_key_ref_frame(length);
        let result = self.validate_in_frame(context, length, Ghost(behind_root));
        context.pop_key_ref_frame();
        proof {
            assert(frames.push(length).drop_last() =~= frames);
        }
        result
    }

    /// Validates the root and the entries of a root map inside the frame of
    /// its keys.
    fn validate_in_frame(
        &self,
        context: &mut ValidationContext,
        length: u32,
        Ghost(behind_root): Ghost<int>,
    ) -> (r: Result<(), LqError>)
        requires
            crate::wire::value_end(
                old(context).reader.spec_data(),
                old(context).reader.spec_offset(),
            ) == Some(behind_root),
            seq_header_at(old(context).reader.spec_data(), behind_root) is Some,
            seq_header_at(old(context).reader.spec_data(), behind_root).unwrap().0 == length,
        ensures
            outcome(
                *final(context),
                *old(context),
                r,
                match validate_at(
                    env_of(*old(context)),
                    self.root.target(),
                    old(context).reader.spec_data(),
                    old(context).reader.spec_offset(),
                    old(context).frames@,
                ) {
                    Ok(_) => match entries_valid_at(
                        env_of(*old(context)),
                        self.key.target(),
                        self.value.target(),
                        self.sorting,
                        old(context).reader.spec_data(),
                        seq_header_at(old(context).reader.spec_data(), behind_root).unwrap().1,
                        length as nat,
                        old(context).frames@,
                    ) {
                        Ok((e, _)) => Ok(e),
                        Err(kind) => Err(kind),
                    },
                    Err(kind) => Err(kind),
                },
            ),
        decreases old(context).reader.spec_data().len() - old(context).reader.spec_offset(),
            3nat,
            1nat,
    {
        let ghost env = env_of(*context);
        let ghost data = context.reader.spec_data();
        let ghost p = context.reader.spec_offset();
        let ghost frames = context.frames@;
        proof {
            crate::wire::lemma_value_end_bounds(data, p);
            lemma_seq_header_at(data, behind_root);
        }
        context.validate(&self.root)?;
        proof {
            lemma_valid_is_value(env, self.root.target(), data, p, frames);
        }
        let header = SeqHeader::de_serialize(&mut context.reader)?;
        context.validate_entries(&self.key, &self.value, self.sorting, header.length())
    }
}

impl TRange {
    /// Validates a range: start and end are valid values of the element
    /// type; the start is at most the end; where they are equal, the range
    /// has to be allowed to be empty or both have to be included.
    pub fn validate(&self, context: &mut ValidationContext) -> (r: Result<(), LqError>)
        ensures
            outcome(
                *final(context),
                *old(context),
                r,
                range_valid_at(
                    env_of(*old(context)),
                    *self,
                    old(context).reader.spec_data(),
                    old(context).reader.spec_offset(),
                    old(context).frames@,
                ),
            ),
        decreases old(context).reader.spec_data().len() - old(context).reader.spec_offset(),
            0nat,
            0nat,
    {
        let ghost env = env_of(*context);
        let ghost data = context.reader.spec_data();
        let ghost begin = context.reader.spec_offset();
        let ghost frames = context.frames@;
        let seq = SeqHeader::de_serialize(&mut context.reader)?;
        let number_of_items = seq.length();

        let supplied = match self.inclusion {
            Inclusion::Supplied => true,
            _ => false,
        };
        let expected_number_of_items: u32 = if supplied {
            4
        } else {
            2
        };

        if number_of_items != expected_number_of_items {
            return LqError::err_new(
                ErrorKind::Schema,
                "The given range has another seq length than needed (start, end and maybe 2 more items with information about inclusion).",
            );
        }
        proof {
            lemma_seq_header_at(data, begin);
        }

        // start
        let mut start_reader = context.reader;
        context.validate(&self.element)?;
        proof {
            lemma_valid_is_value(env, self.element.target(), data, start_reader.spec_offset(), frames);
        }
        // end
        let mut end_reader = context.reader;
        context.validate(&self.element)?;

        let inclusive: (bool, bool) = match self.inclusion {
            Inclusion::Supplied => {
                let start_included = Bool::de_serialize(&mut context.reader)?;
                let end_included = Bool::de_serialize(&mut context.reader)?;
                (start_included, end_included)
            },
            Inclusion::BothInclusive => (true, true),
            Inclusion::StartInclusive => (true, false),
            Inclusion::BothExclusive => (false, false),
            Inclusion::EndInclusive => (false, true),
        };

        // Now compare start and end
        proof {
            lemma_valid_has_key(env, self.element.target(), data, start_reader.spec_offset(), frames);
            lemma_valid_has_key(env, self.element.target(), data, end_reader.spec_offset(), frames);
        }
        let order = context.compare(&self.element, &mut start_reader, &mut end_reader)?;
        match order {
            Comparison::Greater => LqError::err_new(
                ErrorKind::Relational,
                "The given start (first element) is greater then given end (second element) in range. Start can never be greater than end.",
            ),
            Comparison::Equal => {
                if self.allow_empty {
                    Ok(())
                } else {
                    let ok = inclusive.0 && inclusive.1;
                    if !ok {
                        LqError::err_new(
                            ErrorKind::Relational,
                            "Start (first element) is equal to end (second element). This is not allowed according to the schema (see 'allow_empty').",
                        )
                    } else {
                        Ok(())
                    }
                }
            },
            Comparison::Less => Ok(()),
        }
    }
}

} // verus!
