//! The structure type.

use crate::identifier::Identifier;
use crate::schema::metadata::Meta;
use crate::schema::rows::Fields;
use crate::schema::type_ref::TypeRef;
use vstd::prelude::*;

verus! {

/// A field of a structure: its identifier and its type.
#[derive(Debug)]
pub struct Field {
    pub identifier: Identifier,
    pub type_ref: TypeRef,
}

/// A structure (aka struct) contains 0-n fields. The fields do not need to
/// be of the same type.
#[derive(Debug)]
pub struct TStruct {
    pub meta: Meta,
    pub fields: Fields,
}

impl Field {
    /// A field.
    pub fn new(identifier: Identifier, type_ref: TypeRef) -> (f: Self)
        ensures
            f.identifier == identifier,
            f.type_ref == type_ref,
    {
        Field { identifier, type_ref }
    }

    /// The identifier of the field.
    pub fn identifier(&self) -> (i: &Identifier)
        ensures
            *i == self.identifier,
    {
        &self.identifier
    }

    /// The type of the field.
    pub fn type_ref(&self) -> (r: &TypeRef)
        ensures
            *r == self.type_ref,
    {
        &self.type_ref
    }
}

impl Default for TStruct {
    fn default() -> (t: Self)
        ensures
            t.meta.name is None && t.meta.doc is None,
            t.fields@.len() == 0,
    {
        TStruct { meta: Meta::empty(), fields: Fields::new() }
    }
}

impl TStruct {
    /// The same structure with one more field at its end.
    pub fn add(self, field: Field) -> (t: Self)
        ensures
            t.fields@ == self.fields@.push(field),
            t.meta == self.meta,
    {
        let mut fields = self.fields;
        fields.push(field);
        TStruct { meta: self.meta, fields }
    }

    /// The fields, in their order on the wire.
    pub fn fields(&self) -> (f: &[Field])
        ensures
            f@ == self.fields@,
    {
        self.fields.as_slice()
    }
}

} // verus!
