//! References from one schema type to another, and the modes of validation.

use crate::identifier::StrIdentifier;
use vstd::prelude::*;

verus! {

/// A reference to a type of a schema: by its index in the schema's table of
/// types, or by its identifier.
#[derive(Debug)]
pub enum TypeRef {
    Numerical(u32),
    Identifier(StrIdentifier),
}

/// How strict validation is.
#[derive(Debug, Copy, Clone, PartialEq, Eq, Structural)]
pub struct Config {
    /// In strict mode structures and variants must not hold more values than
    /// the schema declares.
    pub no_extension: bool,
}

impl Config {
    /// Strict validation: extensions are rejected.
    pub fn strict() -> (c: Config)
        ensures
            c.no_extension,
    {
        Config { no_extension: true }
    }

    /// Validation that accepts and skips extensions.
    pub fn weak() -> (c: Config)
        ensures
            !c.no_extension,
    {
        Config { no_extension: false }
    }

    /// Whether extensions are rejected.
    pub fn no_extension(&self) -> (b: bool)
        ensures
            b == self.no_extension,
    {
        self.no_extension
    }
}

impl TypeRef {
    /// A reference by index.
    pub fn new_numerical(index: u32) -> (r: TypeRef)
        ensures
            r == TypeRef::Numerical(index),
    {
        TypeRef::Numerical(index)
    }

    /// A reference by identifier.
    pub fn new_identifier(id: StrIdentifier) -> (r: TypeRef)
        ensures
            r == TypeRef::Identifier(id),
    {
        TypeRef::Identifier(id)
    }

    /// What the reference points at, as plain values: the index, or the text
    /// of the identifier.
    pub open spec fn target(&self) -> RefTarget {
        match self {
            TypeRef::Numerical(index) => RefTarget::Index(*index),
            TypeRef::Identifier(id) => RefTarget::Name(id@),
        }
    }

    /// A copy of this reference.
    pub fn duplicate(&self) -> (r: TypeRef)
        ensures
            r.target() == self.target(),
    {
        match self {
            TypeRef::Numerical(index) => TypeRef::Numerical(*index),
            TypeRef::Identifier(id) => {
                match StrIdentifier::try_from(id.as_string().to_owned()) {
                    Ok(copy) => TypeRef::Identifier(copy),
                    Err(_) => vstd::pervasive::unreached(),
                }
            },
        }
    }
}

/// What a type reference points at.
pub enum RefTarget {
    Index(u32),
    Name(Seq<char>),
}

} // verus!
