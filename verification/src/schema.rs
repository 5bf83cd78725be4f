//! A table's shape: the ordered column names and, position by position,
//! their declared type tags.

use vstd::prelude::*;

verus! {

/// Ordered column names with the declared type tag of each. The order is
/// meaningful: it fixes the row layout and the display order. The two
/// vectors run in parallel, so the name at a position owns the tag at the
/// same position.
///
/// Column names are meant to be distinct; nothing here enforces that, and
/// the model is purely positional, so a duplicated name is harmless: every
/// lookup by name resolves to its first occurrence (see
/// [`crate::table::Table::find_col`]), and each position keeps its own tag
/// and its own cell sequence.
#[derive(Debug, PartialEq)]
pub struct Schema {
    pub columns: Vec<String>,
    pub types: Vec<String>,
}

impl Schema {
    /// Every column name has a type tag and the other way round.
    pub open spec fn wf(self) -> bool {
        self.columns@.len() == self.types@.len()
    }
}

} // verus!
