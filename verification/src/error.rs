//! The error taxonomy of the data store. Every variant is non-fatal: the
//! interpreter reports it and goes on with the next command.

use vstd::prelude::*;

verus! {

/// One error class per way a command can fail.
#[derive(Debug, PartialEq)]
pub enum DbError {
    /// A token sequence matches no grammar shape, or a CREATE column
    /// specification is malformed; carries the offending token when known.
    Syntax(String),
    /// The input line matches none of the command shapes.
    InvalidCommand,
    /// A WHERE clause value is not a 32-bit integer literal.
    NonIntegerFilter,
    /// An INSERT supplied a number of values different from the number of
    /// columns in the schema.
    ColumnCountMismatch,
    /// A raw token cannot be parsed as its column's declared numeric type.
    TypeCoercion,
    /// A SELECT ... WHERE names a column the table does not have.
    ColumnNotFound,
    /// A command addressed a table that is not in the store.
    TableNotFound,
    /// The backing store failed to read or write a table document.
    StorageFailure,
}

} // verus!
