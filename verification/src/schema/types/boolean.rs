//! The boolean type.

use crate::schema::metadata::Meta;
use vstd::prelude::*;

verus! {

/// A boolean: `true` or `false`.
#[derive(Debug)]
pub struct TBool {
    pub meta: Meta,
}

impl Default for TBool {
    fn default() -> (t: Self)
        ensures
            t.meta.name is None && t.meta.doc is None,
            t.meta.doc is None,
    {
        TBool { meta: Meta::empty() }
    }
}

} // verus!
