//! The option type.

use crate::schema::metadata::Meta;
use crate::schema::type_ref::TypeRef;
use vstd::prelude::*;

verus! {

/// A value that is there or is not.
#[derive(Debug)]
pub struct TOption {
    pub meta: Meta,
    pub inner: TypeRef,
}

impl TOption {
    /// The option of the given type.
    pub fn new(inner: TypeRef) -> (t: Self)
        ensures
            t.meta.name is None && t.meta.doc is None,
            t.inner == inner,
    {
        TOption { meta: Meta::empty(), inner }
    }

    /// The type of the value, where it is there.
    pub fn inner_type(&self) -> (r: &TypeRef)
        ensures
            *r == self.inner,
    {
        &self.inner
    }
}

} // verus!
