//! The enumeration type.

use crate::identifier::Identifier;
use crate::schema::metadata::Meta;
use crate::schema::rows::{Values, Variants};
use crate::schema::type_ref::TypeRef;
use vstd::prelude::*;

verus! {

/// A variant of an enumeration.
#[derive(Debug)]
pub struct Variant {
    /// Textual identifier of the variant.
    pub name: Identifier,
    /// The types of the values that this variant carries; empty for a
    /// variant without value.
    pub values: Values,
}

/// An enumeration: one of its variants, which is told by its ordinal, the
/// index in the list of variants.
#[derive(Debug)]
pub struct TEnum {
    pub meta: Meta,
    pub variants: Variants,
}

impl Variant {
    /// A variant without values.
    pub fn new(name: Identifier) -> (v: Self)
        ensures
            v.name == name,
            v.values@.len() == 0,
    {
        Variant { name, values: Values::new() }
    }

    /// The identifier of the variant.
    pub fn name(&self) -> (n: &Identifier)
        ensures
            *n == self.name,
    {
        &self.name
    }

    /// The types of the values of the variant.
    pub fn values(&self) -> (v: &[TypeRef])
        ensures
            v@ == self.values@,
    {
        self.values.as_slice()
    }

    /// The same variant with one more value at its end.
    pub fn add_value(self, value: TypeRef) -> (v: Self)
        ensures
            v.name == self.name,
            v.values@ == self.values@.push(value),
    {
        let mut values = self.values;
        values.push(value);
        Variant { name: self.name, values }
    }
}

impl Default for TEnum {
    fn default() -> (t: Self)
        ensures
            t.meta.name is None && t.meta.doc is None,
            t.variants@.len() == 0,
    {
        TEnum { meta: Meta::empty(), variants: Variants::new() }
    }
}

impl TEnum {
    /// The variants; the ordinal of a variant is its index.
    pub fn variants(&self) -> (v: &[Variant])
        ensures
            v@ == self.variants@,
    {
        self.variants.as_slice()
    }

    /// The same enumeration with one more variant at its end.
    pub fn add(self, variant: Variant) -> (t: Self)
        ensures
            t.variants@ == self.variants@.push(variant),
            t.meta == self.meta,
    {
        let mut variants = self.variants;
        variants.push(variant);
        TEnum { meta: self.meta, variants }
    }

    /// The same enumeration with one more variant at its end.
    pub fn add_variant(self, variant: Variant) -> (t: Self)
        ensures
            t.variants@ == self.variants@.push(variant),
            t.meta == self.meta,
    {
        self.add(variant)
    }

    /// The first variant with the given identifier, and its ordinal.
    pub fn variant_by_id(&self, id: &Identifier) -> (r: Option<(u32, &Variant)>)
        ensures
            match r {
                Some((ordinal, variant)) => ordinal < self.variants@.len() && *variant
                    == self.variants@[ordinal as int] && variant.name@ == id@ && forall|i: int|
                    0 <= i < ordinal ==> (#[trigger] self.variants@[i]).name@ != id@,
                None => forall|i: int|
                    0 <= i < self.variants@.len() && i <= u32::MAX ==> (
                    #[trigger] self.variants@[i]).name@ != id@,
            },
    {
        let mut ordinal: u32 = 0;
        while (ordinal as usize) < self.variants.len()
            invariant
                ordinal <= self.variants@.len(),
                forall|i: int| 0 <= i < ordinal ==> (#[trigger] self.variants@[i]).name@ != id@,
            decreases self.variants@.len() - ordinal,
        {
            let variant = &self.variants.as_slice()[ordinal as usize];
            if same_identifier(&variant.name, id) {
                return Some((ordinal, variant));
            }
            if ordinal == u32::MAX {
                return None;
            }
            ordinal = ordinal + 1;
        }
        None
    }
}

/// Whether two identifiers have the same segments.
pub fn same_identifier(a: &Identifier, b: &Identifier) -> (r: bool)
    ensures
        r == (a@ == b@),
{
    let left = a.segments();
    let right = b.segments();
    if left.len() != right.len() {
        return false;
    }
    let mut index: usize = 0;
    while index < left.len()
        invariant
            left@.len() == right@.len(),
            left@.len() == a@.len(),
            right@.len() == b@.len(),
            index <= left@.len(),
            forall|i: int| 0 <= i < left@.len() ==> (#[trigger] left@[i])@ == a@[i],
            forall|i: int| 0 <= i < right@.len() ==> (#[trigger] right@[i])@ == b@[i],
            forall|i: int| 0 <= i < index ==> a@[i] == b@[i],
        decreases left.len() - index,
    {
        let x = left[index].as_str();
        let y = right[index].as_str();
        if !same_text(x, y) {
            proof {
                assert(a@[index as int] != b@[index as int]);
            }
            return false;
        }
        index += 1;
    }
    proof {
        assert(a@ =~= b@);
    }
    true
}

/// Whether two texts of ASCII characters are the same.
pub fn same_text(a: &str, b: &str) -> (r: bool)
    ensures
        r == (a@ == b@),
{
    let x = a.to_owned();
    let y = b.to_owned();
    x == y
}

} // verus!
