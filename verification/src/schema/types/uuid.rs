//! The UUID type.

use crate::schema::metadata::Meta;
use vstd::prelude::*;

verus! {

/// 16 byte UUID; RFC 4122. Any 16 bytes are accepted.
#[derive(Debug)]
pub struct TUuid {
    pub meta: Meta,
}

impl Default for TUuid {
    fn default() -> (t: Self)
        ensures
            t.meta.name is None && t.meta.doc is None,
            t.meta.doc is None,
    {
        TUuid { meta: Meta::empty() }
    }
}

} // verus!
