//! A named table: a schema plus column-oriented storage, one ordered
//! sequence of cells per column, all columns kept row-aligned. The
//! operations here are the computing core of CREATE, INSERT and SELECT;
//! loading and storing the table document is the caller's business.

use vstd::prelude::*;
use crate::error::DbError;
use crate::schema::Schema;
use crate::strutil::str_eq;
use crate::value::Value;
use crate::value::ValueModel;
use crate::value::coerce;
use crate::value::coerce_spec;

verus! {

/// A named aggregate of schema and column data. Column `j` of the schema
/// owns the cell sequence `data[j]`; rows are positional across columns.
#[derive(Debug, PartialEq)]
pub struct Table {
    pub name: String,
    pub schema: Schema,
    pub data: Vec<Vec<Value>>,
}

/// The stored parts of a table describe a well-formed one: a type tag per
/// column, a cell sequence per column, and all cell sequences of one
/// length.
pub open spec fn parts_consistent(
    columns: Seq<String>,
    types: Seq<String>,
    data: Seq<Vec<Value>>,
) -> bool {
    &&& columns.len() == types.len()
    &&& data.len() == columns.len()
    &&& forall|j: int| 0 <= j < data.len() ==> (#[trigger] data[j])@.len() == data[0]@.len()
}

/// Round trip through storage: taking a well-formed table apart and
/// reassembling it with [`Table::from_parts`] always succeeds and, by that
/// function's contract, reproduces a table with the same name, schema and
/// cell sequences.
pub proof fn lemma_parts_round_trip(t: Table)
    requires
        t.wf(),
    ensures
        parts_consistent(t.schema.columns@, t.schema.types@, t.data@),
{
}

impl Table {
    /// The storage invariant: one cell sequence per schema column, and all
    /// sequences of equal length, so that no partial row is observable.
    pub open spec fn wf(self) -> bool {
        &&& self.schema.wf()
        &&& self.data@.len() == self.schema.columns@.len()
        &&& forall|j: int|
            0 <= j < self.data@.len() ==> (#[trigger] self.data@[j])@.len() == self.row_count()
    }

    /// Number of rows: the length of the first column's sequence; a table
    /// with no columns has no rows.
    pub open spec fn row_count(self) -> nat {
        if self.data@.len() == 0 {
            0
        } else {
            self.data@[0]@.len()
        }
    }

    /// Builds a table with the given column specifications, in the given
    /// order, every column empty.
    pub fn new(name: String, cols: &Vec<(String, String)>) -> (t: Table)
        ensures
            t.wf(),
            t.name@ == name@,
            t.schema.columns@.len() == cols@.len(),
            t.schema.types@.len() == cols@.len(),
            forall|i: int| 0 <= i < cols@.len() ==> (#[trigger] t.schema.columns@[i]) == cols@[i].0,
            forall|i: int| 0 <= i < cols@.len() ==> (#[trigger] t.schema.types@[i]) == cols@[i].1,
            t.data@.len() == cols@.len(),
            forall|i: int| 0 <= i < cols@.len() ==> (#[trigger] t.data@[i])@.len() == 0,
            t.row_count() == 0,
    {
        let n = cols.len();
        let mut columns: Vec<String> = Vec::new();
        let mut types: Vec<String> = Vec::new();
        let mut data: Vec<Vec<Value>> = Vec::new();
        let mut i: usize = 0;
        while i < n
            invariant
                i <= n,
                n == cols@.len(),
                columns@.len() == i,
                types@.len() == i,
                data@.len() == i,
                forall|k: int| 0 <= k < i ==> (#[trigger] columns@[k]) == cols@[k].0,
                forall|k: int| 0 <= k < i ==> (#[trigger] types@[k]) == cols@[k].1,
                forall|k: int| 0 <= k < i ==> (#[trigger] data@[k])@.len() == 0,
            decreases n - i,
        {
            let pair = &cols[i];
            columns.push(pair.0.clone());
            types.push(pair.1.clone());
            data.push(Vec::new());
            i = i + 1;
        }
        Table { name, schema: Schema { columns, types }, data }
    }

    /// Reassembles a table from its stored parts, restoring the storage
    /// invariant, or refuses parts no well-formed table has. Succeeds
    /// exactly on consistent parts, and changes nothing in them.
    pub fn from_parts(
        name: String,
        columns: Vec<String>,
        types: Vec<String>,
        data: Vec<Vec<Value>>,
    ) -> (r: Option<Table>)
        ensures
            match r {
                Some(t) => {
                    &&& t.wf()
                    &&& t.name == name
                    &&& t.schema.columns == columns
                    &&& t.schema.types == types
                    &&& t.data == data
                },
                None => !parts_consistent(columns@, types@, data@),
            },
            (r is Some) <==> parts_consistent(columns@, types@, data@),
    {
        if columns.len() != types.len() || data.len() != columns.len() {
            return None;
        }
        if data.len() > 0 {
            let n0 = data[0].len();
            let mut j: usize = 1;
            while j < data.len()
                invariant
                    1 <= j <= data@.len(),
                    n0 == data@[0]@.len(),
                    forall|k: int| 0 <= k < j ==> (#[trigger] data@[k])@.len() == n0,
                decreases data@.len() - j,
            {
                if data[j].len() != n0 {
                    return None;
                }
                j = j + 1;
            }
        }
        Some(Table { name, schema: Schema { columns, types }, data })
    }

    /// Appends one fully populated row: each raw value is coerced under its
    /// column's declared type, in schema order, and either every column
    /// receives its new cell or none does. Succeeds exactly when the value
    /// count matches the column count and every coercion succeeds.
    pub fn insert_row(&mut self, values: &Vec<String>) -> (r: Result<(), DbError>)
        requires
            old(self).wf(),
        ensures
            final(self).wf(),
            final(self).name == old(self).name,
            final(self).schema == old(self).schema,
            final(self).data@.len() == old(self).data@.len(),
            (r is Ok) <==> (values@.len() == old(self).schema.columns@.len() && (forall|j: int|
                0 <= j < old(self).data@.len() ==> coerce_spec(
                    old(self).schema.types@[j]@,
                    values@[j]@,
                ) is Some)),
            match r {
                Ok(()) => {
                    &&& (forall|j: int|
                        0 <= j < old(self).data@.len() ==> (#[trigger] final(self).data@[j])@.len()
                            == old(self).data@[j]@.len() + 1)
                    &&& (forall|j: int, i: int|
                        0 <= j < old(self).data@.len() && 0 <= i < old(self).data@[j]@.len()
                            ==> final(self).data@[j]@[i] == old(self).data@[j]@[i])
                    &&& (forall|j: int|
                        0 <= j < old(self).data@.len() ==> Some(
                            (#[trigger] final(self).data@[j])@.last()@,
                        ) == coerce_spec(old(self).schema.types@[j]@, values@[j]@))
                    &&& (old(self).data@.len() > 0 ==> final(self).row_count() == old(
                        self,
                    ).row_count() + 1)
                },
                Err(e) => {
                    &&& *final(self) == *old(self)
                    &&& (e == DbError::ColumnCountMismatch || e == DbError::TypeCoercion)
                    &&& ((e == DbError::ColumnCountMismatch) <==> values@.len() != old(
                        self,
                    ).schema.columns@.len())
                },
            },
    {
        let ncols = self.schema.columns.len();
        if values.len() != ncols {
            return Err(DbError::ColumnCountMismatch);
        }
        let mut cells: Vec<Value> = Vec::new();
        let mut j: usize = 0;
        while j < ncols
            invariant
                j <= ncols,
                *self == *old(self),
                old(self).wf(),
                ncols == self.schema.columns@.len(),
                values@.len() == ncols,
                cells@.len() == j,
                forall|k: int|
                    0 <= k < j ==> Some((#[trigger] cells@[k])@) == coerce_spec(
                        old(self).schema.types@[k]@,
                        values@[k]@,
                    ),
            decreases ncols - j,
        {
            let tag = &self.schema.types[j];
            match coerce(tag.as_str(), values[j].as_str()) {
                Ok(v) => {
                    cells.push(v);
                },
                Err(_) => {
                    return Err(DbError::TypeCoercion);
                },
            }
            j = j + 1;
        }
        let ghost cells0 = cells@;
        let mut j2: usize = 0;
        while j2 < ncols
            invariant
                j2 <= ncols,
                old(self).wf(),
                ncols == old(self).schema.columns@.len(),
                ncols == old(self).data@.len(),
                values@.len() == ncols,
                self.name == old(self).name,
                self.schema == old(self).schema,
                self.data@.len() == old(self).data@.len(),
                cells0.len() == ncols,
                cells@ == cells0.skip(j2 as int),
                forall|k: int|
                    0 <= k < ncols ==> Some((#[trigger] cells0[k])@) == coerce_spec(
                        old(self).schema.types@[k]@,
                        values@[k]@,
                    ),
                forall|k: int|
                    0 <= k < j2 ==> (#[trigger] self.data@[k])@ == old(self).data@[k]@.push(
                        cells0[k],
                    ),
                forall|k: int| j2 <= k < ncols ==> (#[trigger] self.data@[k])@ == old(self).data@[k]@,
            decreases ncols - j2,
        {
            let v = cells.remove(0);
            proof {
                assert(cells@ =~= cells0.skip(j2 + 1 as int));
                assert(v == cells0[j2 as int]);
            }
            self.data[j2].push(v);
            j2 = j2 + 1;
        }
        proof {
            assert(cells0.skip(0) =~= cells0);
            assert forall|k: int| 0 <= k < ncols implies coerce_spec(
                old(self).schema.types@[k]@,
                values@[k]@,
            ) is Some by {
                assert(Some(cells0[k]@) == coerce_spec(old(self).schema.types@[k]@, values@[k]@));
            }
        }
        Ok(())
    }

    /// All rows, in row order, each row's cells in schema column order.
    pub fn select_all(&self) -> (rows: Vec<Vec<Value>>)
        requires
            self.wf(),
        ensures
            rows@.len() == self.row_count(),
            forall|i: int| 0 <= i < rows@.len() ==> (#[trigger] rows@[i])@.len() == self.data@.len(),
            forall|i: int, j: int|
                0 <= i < rows@.len() && 0 <= j < self.data@.len() ==> rows@[i]@[j] == self.data@[j]@[i],
    {
        let ncols = self.data.len();
        let nrows = if ncols == 0 {
            0
        } else {
            self.data[0].len()
        };
        let mut rows: Vec<Vec<Value>> = Vec::new();
        let mut i: usize = 0;
        while i < nrows
            invariant
                i <= nrows,
                self.wf(),
                nrows == self.row_count(),
                ncols == self.data@.len(),
                rows@.len() == i,
                forall|k: int| 0 <= k < i ==> (#[trigger] rows@[k])@.len() == ncols,
                forall|k: int, j: int|
                    0 <= k < i && 0 <= j < ncols ==> rows@[k]@[j] == self.data@[j]@[k],
            decreases nrows - i,
        {
            let mut row: Vec<Value> = Vec::new();
            let mut j: usize = 0;
            while j < ncols
                invariant
                    j <= ncols,
                    i < nrows,
                    self.wf(),
                    nrows == self.row_count(),
                    ncols == self.data@.len(),
                    row@.len() == j,
                    forall|k: int| 0 <= k < j ==> row@[k] == self.data@[k]@[i as int],
                decreases ncols - j,
            {
                row.push(self.data[j][i].duplicate());
                j = j + 1;
            }
            rows.push(row);
            i = i + 1;
        }
        rows
    }

    /// The position of the first schema column called `col`, if any.
    pub fn find_col(&self, col: &str) -> (r: Option<usize>)
        ensures
            match r {
                Some(j) => {
                    &&& 0 <= j < self.schema.columns@.len()
                    &&& self.schema.columns@[j as int]@ == col@
                    &&& forall|k: int| 0 <= k < j ==> self.schema.columns@[k]@ != col@
                },
                None => forall|k: int|
                    0 <= k < self.schema.columns@.len() ==> self.schema.columns@[k]@ != col@,
            },
    {
        let n = self.schema.columns.len();
        let mut j: usize = 0;
        while j < n
            invariant
                j <= n,
                n == self.schema.columns@.len(),
                forall|k: int| 0 <= k < j ==> self.schema.columns@[k]@ != col@,
            decreases n - j,
        {
            if str_eq(self.schema.columns[j].as_str(), col) {
                return Some(j);
            }
            j = j + 1;
        }
        None
    }

    /// Linear scan of column `col` for the first cell that is a 32-bit
    /// integer equal to `target`; on a match the full row at that index is
    /// returned, in schema column order. Cells of other kinds never match,
    /// even if their text would. Fails exactly when no column is called
    /// `col`.
    pub fn select_where(&self, col: &str, target: i32) -> (r: Result<Option<Vec<Value>>, DbError>)
        requires
            self.wf(),
        ensures
            match r {
                Err(e) => {
                    &&& e == DbError::ColumnNotFound
                    &&& forall|k: int|
                        0 <= k < self.schema.columns@.len() ==> self.schema.columns@[k]@ != col@
                },
                Ok(opt) => (exists|j: int|
                    {
                        &&& 0 <= j < self.data@.len()
                        &&& self.schema.columns@[j]@ == col@
                        &&& (forall|k: int| 0 <= k < j ==> self.schema.columns@[k]@ != col@)
                        &&& match opt {
                            Some(row) => (exists|i: int|
                                {
                                    &&& 0 <= i < self.row_count()
                                    &&& self.data@[j]@[i]@ == ValueModel::Int32(target)
                                    &&& (forall|k: int|
                                        0 <= k < i ==> self.data@[j]@[k]@ != ValueModel::Int32(
                                            target,
                                        ))
                                    &&& row@.len() == self.data@.len()
                                    &&& (forall|c: int|
                                        0 <= c < self.data@.len() ==> row@[c] == self.data@[c]@[i])
                                }),
                            None => forall|i: int|
                                0 <= i < self.row_count() ==> self.data@[j]@[i]@
                                    != ValueModel::Int32(target),
                        }
                    }),
            },
    {
        let jopt = self.find_col(col);
        let j = match jopt {
            Some(j) => j,
            None => {
                return Err(DbError::ColumnNotFound);
            },
        };
        let nrows = self.data[j].len();
        let mut i: usize = 0;
        while i < nrows
            invariant
                i <= nrows,
                self.wf(),
                j < self.data@.len(),
                self.schema.columns@[j as int]@ == col@,
                forall|k: int| 0 <= k < j ==> self.schema.columns@[k]@ != col@,
                nrows == self.data@[j as int]@.len(),
                nrows == self.row_count(),
                forall|k: int|
                    0 <= k < i ==> self.data@[j as int]@[k]@ != ValueModel::Int32(target),
            decreases nrows - i,
        {
            let cell = &self.data[j][i];
            let hit = match cell {
                Value::Int32(v) => *v == target,
                _ => false,
            };
            if hit {
                let ncols = self.data.len();
                let mut row: Vec<Value> = Vec::new();
                let mut c: usize = 0;
                while c < ncols
                    invariant
                        c <= ncols,
                        i < nrows,
                        self.wf(),
                        nrows == self.row_count(),
                        ncols == self.data@.len(),
                        row@.len() == c,
                        forall|k: int| 0 <= k < c ==> row@[k] == self.data@[k]@[i as int],
                    decreases ncols - c,
                {
                    row.push(self.data[c][i].duplicate());
                    c = c + 1;
                }
                return Ok(Some(row));
            }
            i = i + 1;
        }
        Ok(None)
    }
}

} // verus!
