//! Schema-driven builder synthesis: from a description of a record's fields,
//! derive a builder (setters, accumulating setters, validation and assembly),
//! and run that builder over values.

pub mod definition;
pub mod directive;
pub mod laws;
pub mod methods;
pub mod schema;
pub mod shape;
pub mod state;
