//! The primitive wire types: how each is read from and written to bytes.

pub mod binary;
pub mod boolean;
pub mod option;
pub mod seq;
pub mod uint;
pub mod unicode;
pub mod sint;
pub mod enumeration;
pub mod float;
pub mod structure;
pub mod uuid;
