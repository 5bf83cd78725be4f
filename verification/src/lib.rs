//! A minimal single-user tabular data store: typed column-oriented tables
//! driven by a line-oriented command language.
//!
//! The library holds the verified core: tokenization, command parsing,
//! per-cell type coercion, and the table model with its operations.
//! Persistence and console presentation live outside the library.

pub mod error;
pub mod float_syntax;
pub mod num;
pub mod parser;
pub mod schema;
pub mod strutil;
pub mod table;
pub mod tokenizer;
pub mod value;
