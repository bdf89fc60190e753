//! Typed values of an Avro-like data format, with validation of a value
//! against a schema and schema resolution from a writer's shape to a reader's.
pub mod value;
pub mod schema;
pub mod validate;
pub mod text;
pub mod ieee;
pub mod resolve;
pub mod laws;
pub mod record;
pub mod json;
