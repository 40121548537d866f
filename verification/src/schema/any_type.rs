//! The sum of all schema types.

use crate::error::{ErrorKind, LqError};
use crate::schema::metadata::Meta;
use crate::schema::type_ref::TypeRef;
use crate::schema::types::ascii::TAscii;
use crate::schema::types::binary::TBinary;
use crate::schema::types::boolean::TBool;
use crate::schema::types::decimal::TDecimal;
use crate::schema::types::enumeration::{TEnum, Variant};
use crate::schema::types::float::{TFloat32, TFloat64};
use crate::schema::types::key_ref::TKeyRef;
use crate::schema::types::map::TMap;
use crate::schema::types::option::TOption;
use crate::schema::types::range::TRange;
use crate::schema::types::root_map::TRootMap;
use crate::schema::types::seq::TSeq;
use crate::schema::types::sint::TSInt;
use crate::schema::types::structure::{Field, TStruct};
use crate::schema::types::uint::TUInt;
use crate::schema::types::unicode::TUnicode;
use crate::schema::types::uuid::TUuid;
use vstd::prelude::*;

verus! {

/// This is an enumeration of all types that are known to the system.
#[derive(Debug)]
pub enum AnyType {
    Bool(TBool),
    Option(TOption),
    Sequence(TSeq),
    Binary(TBinary),
    Unicode(TUnicode),
    UInt(TUInt),
    SInt(TSInt),
    Float32(TFloat32),
    Float64(TFloat64),
    Enum(TEnum),
    Struct(TStruct),
    Mapping(TMap),
    RootMap(TRootMap),
    KeyRef(TKeyRef),
    Ascii(TAscii),
    Uuid(TUuid),
    Range(TRange),
    Decimal(TDecimal),
}

/// The references of the variants of an enumeration from the `i`-th variant
/// on, in one row.
pub open spec fn variant_references(t: TEnum, i: int) -> Seq<TypeRef>
    decreases t.variants@.len() - i,
{
    if i < 0 || i >= t.variants@.len() {
        Seq::empty()
    } else {
        t.variants@[i].values@ + variant_references(t, i + 1)
    }
}

impl AnyType {
    /// The types that this type refers to, in the order of their index:
    /// for an option its inner type; for a sequence and a range the
    /// element; for a structure the types of its fields; for an enumeration
    /// the types of the values of all variants, variant by variant; for a
    /// map key and value; for a root map root, key and value.
    pub open spec fn references(&self) -> Seq<TypeRef> {
        match self {
            AnyType::Option(t) => seq![t.inner],
            AnyType::Sequence(t) => seq![t.element],
            AnyType::Struct(t) => Seq::new(t.fields@.len(), |i: int| t.fields@[i].type_ref),
            AnyType::Enum(t) => variant_references(*t, 0),
            AnyType::Mapping(t) => seq![t.key, t.value],
            AnyType::RootMap(t) => seq![t.root, t.key, t.value],
            AnyType::Range(t) => seq![t.element],
            _ => Seq::empty(),
        }
    }

    /// The metadata of the type.
    pub fn meta(&self) -> (m: &Meta)
        ensures
            *m == self.spec_meta(),
    {
        match self {
            AnyType::Struct(value) => &value.meta,
            AnyType::Mapping(value) => &value.meta,
            AnyType::RootMap(value) => &value.meta,
            AnyType::KeyRef(value) => &value.meta,
            AnyType::UInt(value) => &value.meta,
            AnyType::SInt(value) => &value.meta,
            AnyType::Ascii(value) => &value.meta,
            AnyType::Bool(value) => &value.meta,
            AnyType::Enum(value) => &value.meta,
            AnyType::Sequence(value) => &value.meta,
            AnyType::Binary(value) => &value.meta,
            AnyType::Float32(value) => &value.meta,
            AnyType::Float64(value) => &value.meta,
            AnyType::Option(value) => &value.meta,
            AnyType::Unicode(value) => &value.meta,
            AnyType::Uuid(value) => &value.meta,
            AnyType::Range(value) => &value.meta,
            AnyType::Decimal(value) => &value.meta,
        }
    }

    /// The metadata of the type.
    pub open spec fn spec_meta(&self) -> Meta {
        match self {
            AnyType::Struct(value) => value.meta,
            AnyType::Mapping(value) => value.meta,
            AnyType::RootMap(value) => value.meta,
            AnyType::KeyRef(value) => value.meta,
            AnyType::UInt(value) => value.meta,
            AnyType::SInt(value) => value.meta,
            AnyType::Ascii(value) => value.meta,
            AnyType::Bool(value) => value.meta,
            AnyType::Enum(value) => value.meta,
            AnyType::Sequence(value) => value.meta,
            AnyType::Binary(value) => value.meta,
            AnyType::Float32(value) => value.meta,
            AnyType::Float64(value) => value.meta,
            AnyType::Option(value) => value.meta,
            AnyType::Unicode(value) => value.meta,
            AnyType::Uuid(value) => value.meta,
            AnyType::Range(value) => value.meta,
            AnyType::Decimal(value) => value.meta,
        }
    }

    /// Replaces the metadata of the type; what the type accepts stays.
    pub fn set_meta(&mut self, meta: Meta)
        ensures
            final(self).spec_meta() == meta,
            final(self).references() == old(self).references(),
            forall|s: crate::schema::shapes::Shape|
                crate::schema::shapes::shaped(*final(self), s) == crate::schema::shapes::shaped(
                    *old(self),
                    s,
                ),
    {
        match self {
            AnyType::Struct(value) => {
                value.meta = meta;
            },
            AnyType::Mapping(value) => {
                value.meta = meta;
            },
            AnyType::RootMap(value) => {
                value.meta = meta;
            },
            AnyType::KeyRef(value) => {
                value.meta = meta;
            },
            AnyType::UInt(value) => {
                value.meta = meta;
            },
            AnyType::SInt(value) => {
                value.meta = meta;
            },
            AnyType::Ascii(value) => {
                value.meta = meta;
            },
            AnyType::Bool(value) => {
                value.meta = meta;
            },
            AnyType::Enum(value) => {
                value.meta = meta;
                proof {
                    lemma_variant_references_same(old(self)->Enum_0, *value, 0);
                }
            },
            AnyType::Sequence(value) => {
                value.meta = meta;
            },
            AnyType::Binary(value) => {
                value.meta = meta;
            },
            AnyType::Float32(value) => {
                value.meta = meta;
            },
            AnyType::Float64(value) => {
                value.meta = meta;
            },
            AnyType::Option(value) => {
                value.meta = meta;
            },
            AnyType::Unicode(value) => {
                value.meta = meta;
            },
            AnyType::Uuid(value) => {
                value.meta = meta;
            },
            AnyType::Range(value) => {
                value.meta = meta;
            },
            AnyType::Decimal(value) => {
                value.meta = meta;
            },
        }
    }

    /// The same type with the given documentation.
    pub fn with_doc(self, doc: &str) -> (t: Self)
        ensures
            t.spec_meta().doc matches Some(d) && d@ == doc@,
            t.spec_meta().name is None,
            t.references() == self.references(),
            forall|s: crate::schema::shapes::Shape|
                crate::schema::shapes::shaped(t, s) == crate::schema::shapes::shaped(self, s),
    {
        let mut changed = self;
        changed.set_meta(Meta::with_doc(doc));
        changed
    }

    /// The reference with the given index among those that this type holds;
    /// nothing where the index is too large.
    pub fn reference(&self, index: usize) -> (r: Option<&TypeRef>)
        ensures
            match r {
                Some(reference) => index < self.references().len() && *reference
                    == self.references()[index as int],
                None => index >= self.references().len(),
            },
    {
        match self {
            AnyType::Option(value) => if index == 0 {
                Some(&value.inner)
            } else {
                None
            },
            AnyType::Sequence(value) => if index == 0 {
                Some(&value.element)
            } else {
                None
            },
            AnyType::Range(value) => if index == 0 {
                Some(&value.element)
            } else {
                None
            },
            AnyType::Mapping(value) => if index == 0 {
                Some(&value.key)
            } else if index == 1 {
                Some(&value.value)
            } else {
                None
            },
            AnyType::RootMap(value) => if index == 0 {
                Some(&value.root)
            } else if index == 1 {
                Some(&value.key)
            } else if index == 2 {
                Some(&value.value)
            } else {
                None
            },
            AnyType::Struct(value) => if index < value.fields.len() {
                Some(&value.fields.as_slice()[index].type_ref)
            } else {
                None
            },
            AnyType::Enum(value) => {
                let mut remaining = index;
                let mut ordinal: usize = 0;
                while ordinal < value.variants.len()
                    invariant
                        ordinal <= value.variants@.len(),
                        remaining <= index,
                        match self.references().len() > index {
                            true => variant_references(*value, ordinal as int).len() > remaining
                                && variant_references(*value, ordinal as int)[remaining as int]
                                == self.references()[index as int],
                            false => variant_references(*value, ordinal as int).len()
                                <= remaining,
                        },
                        self == AnyType::Enum(*value),
                    decreases value.variants@.len() - ordinal,
                {
                    let variant = &value.variants.as_slice()[ordinal];
                    if remaining < variant.values.len() {
                        return Some(&variant.values.as_slice()[remaining]);
                    }
                    remaining = remaining - variant.values.len();
                    ordinal += 1;
                }
                None
            },
            _ => None,
        }
    }

    /// Replaces the reference with the given index; an error, and no change,
    /// where the type holds no reference with that index.
    pub fn set_reference(&mut self, index: usize, type_ref: TypeRef) -> (r: Result<(), LqError>)
        ensures
            match r {
                Ok(_) => index < old(self).references().len() && final(self).references() == old(
                    self,
                ).references().update(index as int, type_ref),
                Err(e) => index >= old(self).references().len() && *final(self) == *old(self)
                    && e.kind == ErrorKind::Reference,
            },
    {
        match self {
            AnyType::Option(value) => if index == 0 {
                value.inner = type_ref;
                proof {
                    assert(self.references() =~= old(self).references().update(0, type_ref));
                }
                Ok(())
            } else {
                LqError::err_new(ErrorKind::Reference, "Option has no type at this index")
            },
            AnyType::Sequence(value) => if index == 0 {
                value.element = type_ref;
                proof {
                    assert(self.references() =~= old(self).references().update(0, type_ref));
                }
                Ok(())
            } else {
                LqError::err_new(ErrorKind::Reference, "Seq has no type at this index")
            },
            AnyType::Range(value) => if index == 0 {
                value.element = type_ref;
                proof {
                    assert(self.references() =~= old(self).references().update(0, type_ref));
                }
                Ok(())
            } else {
                LqError::err_new(ErrorKind::Reference, "Range has no type at this index")
            },
            AnyType::Mapping(value) => if index == 0 {
                value.key = type_ref;
                proof {
                    assert(self.references() =~= old(self).references().update(0, type_ref));
                }
                Ok(())
            } else if index == 1 {
                value.value = type_ref;
                proof {
                    assert(self.references() =~= old(self).references().update(1, type_ref));
                }
                Ok(())
            } else {
                LqError::err_new(ErrorKind::Reference, "Map has no type at this index")
            },
            AnyType::RootMap(value) => if index == 0 {
                value.root = type_ref;
                proof {
                    assert(self.references() =~= old(self).references().update(0, type_ref));
                }
                Ok(())
            } else if index == 1 {
                value.key = type_ref;
                proof {
                    assert(self.references() =~= old(self).references().update(1, type_ref));
                }
                Ok(())
            } else if index == 2 {
                value.value = type_ref;
                proof {
                    assert(self.references() =~= old(self).references().update(2, type_ref));
                }
                Ok(())
            } else {
                LqError::err_new(ErrorKind::Reference, "Root map has no type at this index")
            },
            AnyType::Struct(value) => if index < value.fields.len() {
                let ghost before = value.fields@;
                let old_field = value.fields.remove(index);
                value.fields.insert(
                    index,
                    Field { identifier: old_field.identifier, type_ref },
                );
                proof {
                    assert(self.references() =~= old(self).references().update(
                        index as int,
                        type_ref,
                    ));
                }
                Ok(())
            } else {
                LqError::err_new(ErrorKind::Reference, "Struct has no type at this index")
            },
            AnyType::Enum(value) => {
                let ghost unchanged = *value;
                match locate_variant_reference(value, index) {
                    Some((ordinal, inner)) => {
                        let old_variant = value.variants.remove(ordinal);
                        let mut values = old_variant.values;
                        values.set(inner, type_ref);
                        value.variants.insert(ordinal, Variant { name: old_variant.name, values });
                        proof {
                            let at = ordinal as int;
                            assert forall|k: int|
                                0 <= k < unchanged.variants@.len() && k != at implies (
                            #[trigger] value.variants@[k]).values@
                                == unchanged.variants@[k].values@ by {
                                assert(value.variants@[k] == unchanged.variants@[k]);
                            }
                            lemma_variant_references_update(
                                unchanged,
                                *value,
                                0,
                                at,
                                inner as int,
                                type_ref,
                            );
                        }
                        Ok(())
                    },
                    None => LqError::err_new(
                        ErrorKind::Reference,
                        "Enum has no type at this index",
                    ),
                }
            },
            _ => LqError::err_new(ErrorKind::Reference, "This type has no references"),
        }
    }
}

/// Finds the reference with the given index among those of all variants:
/// the ordinal of its variant and its index among the values of that
/// variant.
pub fn locate_variant_reference(t: &TEnum, index: usize) -> (r: Option<(usize, usize)>)
    ensures
        match r {
            Some((ordinal, inner)) => ordinal < t.variants@.len() && inner
                < t.variants@[ordinal as int].values@.len() && variant_references(*t, 0).len()
                >= variant_references(*t, ordinal as int).len() && index == variant_references(
                *t,
                0,
            ).len() - variant_references(*t, ordinal as int).len() + inner,
            None => index >= variant_references(*t, 0).len(),
        },
{
    let mut remaining = index;
    let mut ordinal: usize = 0;
    while ordinal < t.variants.len()
        invariant
            ordinal <= t.variants@.len(),
            remaining <= index,
            index - remaining + variant_references(*t, ordinal as int).len()
                == variant_references(*t, 0).len(),
        decreases t.variants@.len() - ordinal,
    {
        if remaining < t.variants.as_slice()[ordinal].values.len() {
            return Some((ordinal, remaining));
        }
        remaining = remaining - t.variants.as_slice()[ordinal].values.len();
        ordinal += 1;
    }
    None
}

/// What holds of every value of every variant from the `i`-th on holds of
/// every reference of those variants, and the other way round.
pub proof fn lemma_variant_references_all(t: TEnum, i: int, p: spec_fn(TypeRef) -> bool)
    requires
        0 <= i,
    ensures
        (forall|j: int|
            0 <= j < variant_references(t, i).len() ==> p(#[trigger] variant_references(t, i)[j]))
            <==> (forall|v: int, k: int|
            i <= v < t.variants@.len() && 0 <= k < t.variants@[v].values@.len() ==> p(
                #[trigger] t.variants@[v].values@[k],
            )),
    decreases t.variants@.len() - i,
{
    let all = variant_references(t, i);
    if i < t.variants@.len() {
        let own = t.variants@[i].values@;
        let rest = variant_references(t, i + 1);
        lemma_variant_references_all(t, i + 1, p);
        assert(all == own + rest);
        if forall|j: int| 0 <= j < all.len() ==> p(#[trigger] all[j]) {
            assert forall|v: int, k: int|
                i <= v < t.variants@.len() && 0 <= k < t.variants@[v].values@.len() implies p(
                #[trigger] t.variants@[v].values@[k],
            ) by {
                if v == i {
                    assert(all[k] == own[k]);
                } else {
                    assert forall|j: int| 0 <= j < rest.len() implies p(#[trigger] rest[j]) by {
                        assert(all[own.len() + j] == rest[j]);
                    }
                }
            }
        }
        if forall|v: int, k: int|
            i <= v < t.variants@.len() && 0 <= k < t.variants@[v].values@.len() ==> p(
                #[trigger] t.variants@[v].values@[k],
            ) {
            assert forall|j: int| 0 <= j < all.len() implies p(#[trigger] all[j]) by {
                if j < own.len() {
                    assert(all[j] == t.variants@[i].values@[j]);
                } else {
                    assert(all[j] == rest[j - own.len()]);
                }
            }
        }
    }
}

/// Where one value of the variant `at` is replaced, the references from the
/// `i`-th variant on change at one place, which is counted from the start of
/// the variant `at`.
pub proof fn lemma_variant_references_update(
    a: TEnum,
    b: TEnum,
    i: int,
    at: int,
    inner: int,
    type_ref: TypeRef,
)
    requires
        0 <= i <= at < a.variants@.len(),
        a.variants@.len() == b.variants@.len(),
        0 <= inner < a.variants@[at].values@.len(),
        b.variants@[at].values@ == a.variants@[at].values@.update(inner, type_ref),
        forall|k: int|
            0 <= k < a.variants@.len() && k != at ==> (#[trigger] b.variants@[k]).values@
                == a.variants@[k].values@,
    ensures
        variant_references(a, i).len() == variant_references(b, i).len(),
        variant_references(a, i).len() >= variant_references(a, at).len(),
        variant_references(b, i) == variant_references(a, i).update(
            variant_references(a, i).len() - variant_references(a, at).len() + inner,
            type_ref,
        ),
    decreases a.variants@.len() - i,
{
    if i < at {
        lemma_variant_references_update(a, b, i + 1, at, inner, type_ref);
        let own = a.variants@[i].values@;
        assert(b.variants@[i].values@ == own);
        assert(variant_references(b, i) =~= variant_references(a, i).update(
            variant_references(a, i).len() - variant_references(a, at).len() + inner,
            type_ref,
        ));
    } else {
        lemma_variant_references_tail_same(a, b, at + 1);
        assert(variant_references(b, i) =~= variant_references(a, i).update(inner, type_ref));
    }
}

/// Where the variants from the `i`-th on hold the same values, their
/// references are the same.
pub proof fn lemma_variant_references_tail_same(a: TEnum, b: TEnum, i: int)
    requires
        0 <= i,
        a.variants@.len() == b.variants@.len(),
        forall|k: int|
            i <= k < a.variants@.len() ==> (#[trigger] b.variants@[k]).values@
                == a.variants@[k].values@,
    ensures
        variant_references(a, i) == variant_references(b, i),
    decreases a.variants@.len() - i,
{
    if i < a.variants@.len() {
        lemma_variant_references_tail_same(a, b, i + 1);
        assert(b.variants@[i].values@ == a.variants@[i].values@);
    }
}

/// The references of an enumeration do not depend on its metadata.
pub proof fn lemma_variant_references_same(a: TEnum, b: TEnum, i: int)
    requires
        a.variants == b.variants,
    ensures
        variant_references(a, i) == variant_references(b, i),
    decreases a.variants@.len() - i,
{
    if !(i < 0 || i >= a.variants@.len()) {
        lemma_variant_references_same(a, b, i + 1);
    }
}

} // verus!
