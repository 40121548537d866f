//! Schemas: the types that wire values are validated against and ordered by.

pub mod any_type;
pub mod compare;
pub mod conform;
pub mod container;
pub mod document;
pub mod keys;
pub mod laws;
pub mod metadata;
pub mod round_trip;
pub mod rows;
pub mod rules;
pub mod schema_names;
pub mod schema_schema;
pub mod self_description;
pub mod shapes;
pub mod type_ref;
pub mod validate;
pub mod types;
