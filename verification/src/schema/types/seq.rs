//! The sequence type.

use crate::error::{ErrorKind, LqError};
use crate::ine_range::U32IneRange;
use crate::schema::metadata::Meta;
use crate::schema::type_ref::TypeRef;
use vstd::prelude::*;

verus! {

/// The direction of a sorting.
#[derive(Debug, Copy, Clone, PartialEq, Eq, Structural)]
pub enum Direction {
    Ascending,
    Descending,
}

/// How the elements of a sequence have to be ordered.
#[derive(Debug, Copy, Clone, PartialEq, Eq, Structural)]
pub enum Order {
    /// Any order.
    Any,
    /// Sorted in the given direction; with `unique`, no two elements are
    /// equal.
    Sorted { direction: Direction, unique: bool },
}

/// A sequence of 0-n elements of the same type.
#[derive(Debug)]
pub struct TSeq {
    pub meta: Meta,
    pub element: TypeRef,
    pub length: U32IneRange,
    pub ordering: Order,
    pub multiple_of: Option<u32>,
}

impl TSeq {
    /// The sequences of the given element type whose length lies in the
    /// given range; in any order.
    pub fn new(element: TypeRef, length: U32IneRange) -> (t: Self)
        ensures
            t.meta.name is None && t.meta.doc is None,
            t.element == element,
            t.length == length,
            t.ordering == Order::Any,
            t.multiple_of is None,
    {
        TSeq { meta: Meta::empty(), element, length, ordering: Order::Any, multiple_of: None }
    }

    /// The sequences of the given element type with `min_len` to `max_len`
    /// elements; an error where `min_len` is greater than `max_len`.
    pub fn try_new(element: TypeRef, min_len: u32, max_len: u32) -> (r: Result<Self, LqError>)
        ensures
            r matches Ok(made) ==> made.meta.name is None && made.meta.doc is None,
            match r {
                Ok(t) => min_len <= max_len && t.element == element && t.length.spec_start()
                    == min_len && t.length.spec_end() == max_len && t.ordering == Order::Any
                    && t.multiple_of is None,
                Err(e) => min_len > max_len && e.kind == ErrorKind::Schema,
            },
    {
        match U32IneRange::try_new(min_len, max_len) {
            Ok(length) => Ok(TSeq::new(element, length)),
            Err(e) => Err(e),
        }
    }

    /// The same type with the given ordering.
    pub fn with_ordering(self, ordering: Order) -> (t: Self)
        ensures
            t.meta == self.meta,
            t.element == self.element,
            t.length == self.length,
            t.ordering == ordering,
            t.multiple_of == self.multiple_of,
    {
        TSeq {
            meta: self.meta,
            element: self.element,
            length: self.length,
            ordering,
            multiple_of: self.multiple_of,
        }
    }

    /// The same type whose length has to be a multiple of the given number.
    pub fn with_multiple_of(self, multiple_of: u32) -> (t: Self)
        ensures
            t.meta == self.meta,
            t.element == self.element,
            t.length == self.length,
            t.ordering == self.ordering,
            t.multiple_of == Some(multiple_of),
    {
        TSeq {
            meta: self.meta,
            element: self.element,
            length: self.length,
            ordering: self.ordering,
            multiple_of: Some(multiple_of),
        }
    }

    /// The type of the elements.
    pub fn element(&self) -> (r: &TypeRef)
        ensures
            *r == self.element,
    {
        &self.element
    }

    /// The range of the number of elements.
    pub fn length(&self) -> (r: &U32IneRange)
        ensures
            *r == self.length,
    {
        &self.length
    }

    /// How the elements have to be ordered.
    pub fn ordering(&self) -> (o: Order)
        ensures
            o == self.ordering,
    {
        self.ordering
    }

    /// The number that the length has to be a multiple of.
    pub fn multiple_of(&self) -> (m: Option<u32>)
        ensures
            m == self.multiple_of,
    {
        self.multiple_of
    }
}

} // verus!
