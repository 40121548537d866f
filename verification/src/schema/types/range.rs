//! The range type.

use crate::schema::metadata::Meta;
use crate::schema::type_ref::TypeRef;
use vstd::prelude::*;

verus! {

/// A range.
#[derive(Debug)]
pub struct TRange {
    pub meta: Meta,
    pub element: TypeRef,
    pub inclusion: Inclusion,
    pub allow_empty: bool,
}

/// Defines whether start/end is included/excluded in the range.
#[derive(Clone, Copy, Debug, PartialEq, Eq, Structural)]
pub enum Inclusion {
    BothInclusive,
    StartInclusive,
    BothExclusive,
    EndInclusive,
    /// Exclusion / inclusion is provided in the data.
    Supplied,
}

impl TRange {
    /// The ranges over the given element type.
    pub fn new(element: TypeRef, inclusion: Inclusion, allow_empty: bool) -> (t: Self)
        ensures
            t.meta.name is None && t.meta.doc is None,
            t.element == element,
            t.inclusion == inclusion,
            t.allow_empty == allow_empty,
    {
        TRange { meta: Meta::empty(), element, inclusion, allow_empty }
    }

    /// Information about whether start and end are inclusive.
    pub fn inclusion(&self) -> (i: Inclusion)
        ensures
            i == self.inclusion,
    {
        self.inclusion
    }

    /// The type of the range element.
    pub fn element(&self) -> (r: &TypeRef)
        ensures
            *r == self.element,
    {
        &self.element
    }

    /// True if empty ranges are allowed.
    pub fn allow_empty(&self) -> (b: bool)
        ensures
            b == self.allow_empty,
    {
        self.allow_empty
    }
}

} // verus!
