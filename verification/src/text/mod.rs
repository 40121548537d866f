//! The text front-end: a tree of text values, however it was written down,
//! is turned into the bytes that a schema type asks for.

pub mod converter;
pub mod decimal;
pub mod error;
pub mod parser;
pub mod rules;
pub mod value;
