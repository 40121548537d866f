//! The root map type.

use crate::ine_range::U32IneRange;
use crate::schema::metadata::Meta;
use crate::schema::type_ref::TypeRef;
use crate::schema::types::map::Sorting;
use vstd::prelude::*;

verus! {

/// A map with a root. Keys have to be unique. The keys can be referenced.
/// The root cannot be referenced. The root can reference keys.
#[derive(Debug)]
pub struct TRootMap {
    pub meta: Meta,
    pub root: TypeRef,
    pub key: TypeRef,
    pub value: TypeRef,
    pub sorting: Sorting,
    pub length: U32IneRange,
}

impl TRootMap {
    /// The root maps with a root, keys and values of the given types: of any
    /// length, keys ascending.
    pub fn new(root: TypeRef, key: TypeRef, value: TypeRef) -> (t: Self)
        ensures
            t.meta.name is None && t.meta.doc is None,
            t.root == root,
            t.key == key,
            t.value == value,
            t.sorting == Sorting::Ascending,
            t.length.spec_start() == 0,
            t.length.spec_end() == u32::MAX,
    {
        TRootMap {
            meta: Meta::empty(),
            root,
            key,
            value,
            sorting: Sorting::Ascending,
            length: U32IneRange::full(),
        }
    }

    /// The same type with the given sorting of the keys.
    pub fn with_sorting(self, sorting: Sorting) -> (t: Self)
        ensures
            t.meta == self.meta,
            t.root == self.root,
            t.key == self.key,
            t.value == self.value,
            t.sorting == sorting,
            t.length == self.length,
    {
        TRootMap {
            meta: self.meta,
            root: self.root,
            key: self.key,
            value: self.value,
            sorting,
            length: self.length,
        }
    }

    /// The same type with the given range of the number of entries.
    pub fn with_length(self, length: U32IneRange) -> (t: Self)
        ensures
            t.meta == self.meta,
            t.root == self.root,
            t.key == self.key,
            t.value == self.value,
            t.sorting == self.sorting,
            t.length == length,
    {
        TRootMap {
            meta: self.meta,
            root: self.root,
            key: self.key,
            value: self.value,
            sorting: self.sorting,
            length,
        }
    }

    /// The type of the root.
    pub fn root(&self) -> (r: &TypeRef)
        ensures
            *r == self.root,
    {
        &self.root
    }

    /// The type of the keys.
    pub fn key(&self) -> (r: &TypeRef)
        ensures
            *r == self.key,
    {
        &self.key
    }

    /// The type of the values.
    pub fn value(&self) -> (r: &TypeRef)
        ensures
            *r == self.value,
    {
        &self.value
    }

    /// The direction in which the keys are sorted.
    pub fn sorting(&self) -> (s: Sorting)
        ensures
            s == self.sorting,
    {
        self.sorting
    }

    /// The range of the number of entries.
    pub fn length(&self) -> (r: &U32IneRange)
        ensures
            *r == self.length,
    {
        &self.length
    }
}

} // verus!
