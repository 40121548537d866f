//! The map type.

use crate::ine_range::U32IneRange;
use crate::schema::metadata::Meta;
use crate::schema::type_ref::TypeRef;
use vstd::prelude::*;

verus! {

/// The direction in which the keys of a map are sorted.
#[derive(Debug, Copy, Clone, PartialEq, Eq, Structural)]
pub enum Sorting {
    Ascending,
    Descending,
}

/// A sequence of key-value entries. Duplicate keys are not allowed. The keys
/// can optionally be referenced to create recursive data structures.
#[derive(Debug)]
pub struct TMap {
    pub meta: Meta,
    pub key: TypeRef,
    pub value: TypeRef,
    pub sorting: Sorting,
    pub length: U32IneRange,
    pub anchors: bool,
}

impl TMap {
    /// The maps from keys to values of the given types: of any length, keys
    /// ascending, without anchors.
    pub fn new(key: TypeRef, value: TypeRef) -> (t: Self)
        ensures
            t.meta.name is None && t.meta.doc is None,
            t.key == key,
            t.value == value,
            t.sorting == Sorting::Ascending,
            t.length.spec_start() == 0,
            t.length.spec_end() == u32::MAX,
            !t.anchors,
    {
        TMap {
            meta: Meta::empty(),
            key,
            value,
            sorting: Sorting::Ascending,
            length: U32IneRange::full(),
            anchors: false,
        }
    }

    /// The same type with the given sorting of the keys.
    pub fn with_sorting(self, sorting: Sorting) -> (t: Self)
        ensures
            t.meta == self.meta,
            t.key == self.key,
            t.value == self.value,
            t.sorting == sorting,
            t.length == self.length,
            t.anchors == self.anchors,
    {
        TMap {
            meta: self.meta,
            key: self.key,
            value: self.value,
            sorting,
            length: self.length,
            anchors: self.anchors,
        }
    }

    /// The same type with the given range of the number of entries.
    pub fn with_length(self, length: U32IneRange) -> (t: Self)
        ensures
            t.meta == self.meta,
            t.key == self.key,
            t.value == self.value,
            t.sorting == self.sorting,
            t.length == length,
            t.anchors == self.anchors,
    {
        TMap {
            meta: self.meta,
            key: self.key,
            value: self.value,
            sorting: self.sorting,
            length,
            anchors: self.anchors,
        }
    }

    /// The same type; with anchors the keys can be referenced from within
    /// the values.
    pub fn with_anchors(self, anchors: bool) -> (t: Self)
        ensures
            t.meta == self.meta,
            t.key == self.key,
            t.value == self.value,
            t.sorting == self.sorting,
            t.length == self.length,
            t.anchors == anchors,
    {
        TMap {
            meta: self.meta,
            key: self.key,
            value: self.value,
            sorting: self.sorting,
            length: self.length,
            anchors,
        }
    }

    /// The type of the keys.
    pub fn key(&self) -> (r: &TypeRef)
        ensures
            *r == self.key,
    {
        &self.key
    }

    /// The type of the values.
    pub fn value(&self) -> (r: &TypeRef)
        ensures
            *r == self.value,
    {
        &self.value
    }

    /// The direction in which the keys are sorted.
    pub fn sorting(&self) -> (s: Sorting)
        ensures
            s == self.sorting,
    {
        self.sorting
    }

    /// The range of the number of entries.
    pub fn length(&self) -> (r: &U32IneRange)
        ensures
            *r == self.length,
    {
        &self.length
    }

    /// Whether the keys can be referenced.
    pub fn anchors(&self) -> (a: bool)
        ensures
            a == self.anchors,
    {
        self.anchors
    }
}

} // verus!
