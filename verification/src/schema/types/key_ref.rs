//! The key reference type.

use crate::schema::metadata::Meta;
use vstd::prelude::*;

verus! {

/// References a key in the next outer map.
///
/// Technical detail: It's just a number. That number is the index in the outer map. So it's
/// always >=0 and < number of items in the map. It can only be used when there's an outer
/// map in the schema. When there's no outer map, schema is valid but data validation will
/// always fail.
#[derive(Debug)]
pub struct TKeyRef {
    pub meta: Meta,
}

impl Default for TKeyRef {
    fn default() -> (t: Self)
        ensures
            t.meta.name is None && t.meta.doc is None,
            t.meta.doc is None,
    {
        TKeyRef { meta: Meta::empty() }
    }
}

} // verus!
