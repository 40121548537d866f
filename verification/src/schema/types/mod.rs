//! The catalogue of schema types, one module each.

pub mod ascii;
pub mod binary;
pub mod boolean;
pub mod decimal;
pub mod enumeration;
pub mod float;
pub mod key_ref;
pub mod map;
pub mod option;
pub mod range;
pub mod root_map;
pub mod seq;
pub mod sint;
pub mod structure;
pub mod uint;
pub mod unicode;
pub mod uuid;
