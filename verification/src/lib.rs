//! A layered configuration resolver: value trees, dot-path access, deep merge,
//! template expansion, schema-directed coercion and precedence lookup.

pub mod cast;
pub mod coerce;
pub mod config;
pub mod document;
pub mod equality;
pub mod error;
pub mod laws;
pub mod loaders;
pub mod number;
pub mod render;
pub mod schema;
pub mod tags;
pub mod template;
pub mod text;
pub mod traversal;
pub mod tree;
pub mod value;

pub use crate::config::{unison, Config};
pub use crate::error::Error;
pub use crate::schema::Schema;
pub use crate::value::Value;
