//! A schema-driven binary serialization format: a canonical, self-describing
//! wire encoding, the schema types that validate and order encoded values,
//! and the text front-end that turns text values into encoded bytes.

pub mod error;
pub mod wire;
pub mod endian;
pub mod varint;
pub mod slice_reader;
pub mod vec_writer;
pub mod major_types;
pub mod types;
pub mod value;
pub mod identifier;
pub mod ine_range;
pub mod schema;
pub mod text;
