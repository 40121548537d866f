//! The rows that schema types keep their parts in: the fields of a
//! structure, the variants of an enumeration, and the types of the values
//! of a variant. A row is a `SmallVec`, which holds a few items in place.
//! What a row holds is known by its view: the sequence of its items.

use crate::schema::type_ref::TypeRef;
use crate::schema::types::enumeration::Variant;
use crate::schema::types::structure::Field;
use smallvec::SmallVec;
use vstd::prelude::*;

verus! {

/// The fields of a structure, in their order: a `SmallVec` with room for 5 of
/// them in place. Nothing is known of it but through `field_items`.
#[verifier::external_body]
#[derive(Debug)]
pub struct Fields {
    items: SmallVec<[Field; 5]>,
}

/// The items that a row of fields holds, in their order.
pub uninterp spec fn field_items(row: Fields) -> Seq<Field>;

impl View for Fields {
    type V = Seq<Field>;

    open spec fn view(&self) -> Seq<Field> {
        field_items(*self)
    }
}

impl Fields {
    /// `SmallVec::new`: a row that holds nothing.
    #[verifier::external_body]
    pub(crate) fn new() -> (row: Fields)
        ensures
            field_items(row) == Seq::<Field>::empty(),
    {
        Fields { items: SmallVec::new() }
    }

    /// `SmallVec::push`: the row holds one more item, at its end. As vstd
    /// does for `Vec::push`, the row is taken to find the memory it grows
    /// into.
    #[verifier::external_body]
    pub(crate) fn push(&mut self, item: Field)
        ensures
            field_items(*final(self)) == field_items(*old(self)).push(item),
    {
        self.items.push(item)
    }

    /// `SmallVec::as_slice`: the items of the row, in their order.
    #[verifier::external_body]
    pub(crate) fn as_slice(&self) -> (items: &[Field])
        ensures
            items@ == field_items(*self),
    {
        self.items.as_slice()
    }

    /// `SmallVec::remove`: takes the item at `index` out of the row; the
    /// items behind it move up by one.
    #[verifier::external_body]
    pub(crate) fn remove(&mut self, index: usize) -> (item: Field)
        requires
            index < field_items(*old(self)).len(),
        ensures
            item == field_items(*old(self))[index as int],
            field_items(*final(self)) == field_items(*old(self)).remove(index as int),
    {
        self.items.remove(index)
    }

    /// `SmallVec::insert`: puts an item into the row at `index`; the items
    /// from there on move back by one. As for `push`, the row is taken to
    /// find the memory it grows into.
    #[verifier::external_body]
    pub(crate) fn insert(&mut self, index: usize, item: Field)
        requires
            index <= field_items(*old(self)).len(),
        ensures
            field_items(*final(self)) == field_items(*old(self)).insert(index as int, item),
    {
        self.items.insert(index, item)
    }

    /// The number of items.
    pub fn len(&self) -> (n: usize)
        ensures
            n == self@.len(),
    {
        self.as_slice().len()
    }
}

/// The variants of an enumeration, in their order: a `SmallVec` with room for 5 of
/// them in place. Nothing is known of it but through `variant_items`.
#[verifier::external_body]
#[derive(Debug)]
pub struct Variants {
    items: SmallVec<[Variant; 5]>,
}

/// The items that a row of variants holds, in their order.
pub uninterp spec fn variant_items(row: Variants) -> Seq<Variant>;

impl View for Variants {
    type V = Seq<Variant>;

    open spec fn view(&self) -> Seq<Variant> {
        variant_items(*self)
    }
}

impl Variants {
    /// `SmallVec::new`: a row that holds nothing.
    #[verifier::external_body]
    pub(crate) fn new() -> (row: Variants)
        ensures
            variant_items(row) == Seq::<Variant>::empty(),
    {
        Variants { items: SmallVec::new() }
    }

    /// `SmallVec::push`: the row holds one more item, at its end. As vstd
    /// does for `Vec::push`, the row is taken to find the memory it grows
    /// into.
    #[verifier::external_body]
    pub(crate) fn push(&mut self, item: Variant)
        ensures
            variant_items(*final(self)) == variant_items(*old(self)).push(item),
    {
        self.items.push(item)
    }

    /// `SmallVec::as_slice`: the items of the row, in their order.
    #[verifier::external_body]
    pub(crate) fn as_slice(&self) -> (items: &[Variant])
        ensures
            items@ == variant_items(*self),
    {
        self.items.as_slice()
    }

    /// `SmallVec::remove`: takes the item at `index` out of the row; the
    /// items behind it move up by one.
    #[verifier::external_body]
    pub(crate) fn remove(&mut self, index: usize) -> (item: Variant)
        requires
            index < variant_items(*old(self)).len(),
        ensures
            item == variant_items(*old(self))[index as int],
            variant_items(*final(self)) == variant_items(*old(self)).remove(index as int),
    {
        self.items.remove(index)
    }

    /// `SmallVec::insert`: puts an item into the row at `index`; the items
    /// from there on move back by one. As for `push`, the row is taken to
    /// find the memory it grows into.
    #[verifier::external_body]
    pub(crate) fn insert(&mut self, index: usize, item: Variant)
        requires
            index <= variant_items(*old(self)).len(),
        ensures
            variant_items(*final(self)) == variant_items(*old(self)).insert(index as int, item),
    {
        self.items.insert(index, item)
    }

    /// The number of items.
    pub fn len(&self) -> (n: usize)
        ensures
            n == self@.len(),
    {
        self.as_slice().len()
    }
}

/// The types of the values of a variant, in their order: a `SmallVec` with room for 3 of
/// them in place. Nothing is known of it but through `value_items`.
#[verifier::external_body]
#[derive(Debug)]
pub struct Values {
    items: SmallVec<[TypeRef; 3]>,
}

/// The items that a row of types holds, in their order.
pub uninterp spec fn value_items(row: Values) -> Seq<TypeRef>;

impl View for Values {
    type V = Seq<TypeRef>;

    open spec fn view(&self) -> Seq<TypeRef> {
        value_items(*self)
    }
}

impl Values {
    /// `SmallVec::new`: a row that holds nothing.
    #[verifier::external_body]
    pub(crate) fn new() -> (row: Values)
        ensures
            value_items(row) == Seq::<TypeRef>::empty(),
    {
        Values { items: SmallVec::new() }
    }

    /// `SmallVec::push`: the row holds one more item, at its end. As vstd
    /// does for `Vec::push`, the row is taken to find the memory it grows
    /// into.
    #[verifier::external_body]
    pub(crate) fn push(&mut self, item: TypeRef)
        ensures
            value_items(*final(self)) == value_items(*old(self)).push(item),
    {
        self.items.push(item)
    }

    /// `SmallVec::as_slice`: the items of the row, in their order.
    #[verifier::external_body]
    pub(crate) fn as_slice(&self) -> (items: &[TypeRef])
        ensures
            items@ == value_items(*self),
    {
        self.items.as_slice()
    }

    /// `SmallVec::as_mut_slice`, with an item written to the place at
    /// `index`: the row holds the item there and is the same elsewhere.
    #[verifier::external_body]
    pub(crate) fn set(&mut self, index: usize, item: TypeRef)
        requires
            index < value_items(*old(self)).len(),
        ensures
            value_items(*final(self)) == value_items(*old(self)).update(index as int, item),
    {
        self.items.as_mut_slice()[index] = item;
    }

    /// The number of items.
    pub fn len(&self) -> (n: usize)
        ensures
            n == self@.len(),
    {
        self.as_slice().len()
    }
}

} // verus!
