//! A type-directed conversion engine: a dynamically typed document tree is
//! turned into typed records, field by field, following a record schema.

pub mod value;
pub mod typed;
pub mod schema;
pub mod convert;
pub mod laws;
