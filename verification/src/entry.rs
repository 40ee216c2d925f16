//! The row type shared by every stage, and the error type.

use vstd::prelude::*;

verus! {

/// One row of a table: a country and its measurements, in column order.
#[derive(Debug, Clone, PartialEq, Eq)]
pub struct Entry {
    pub country: String,
    pub values: Vec<i32>,
}

/// The mathematical content of an [`Entry`].
pub ghost struct Row {
    pub country: Seq<char>,
    pub values: Seq<i32>,
}

impl View for Entry {
    type V = Row;

    open spec fn view(&self) -> Row {
        Row { country: self.country@, values: self.values@ }
    }
}

/// The contents of a run of entries.
pub open spec fn rows_of(entries: Seq<Entry>) -> Seq<Row> {
    Seq::new(entries.len(), |i: int| entries[i]@)
}

/// Why a stage gave up. Every failure ends the whole run.
#[derive(Debug, Clone, PartialEq, Eq)]
pub enum TableError {
    /// The text is not a usable row pattern.
    BadPattern,
    /// The line with this index matched the row pattern, but its numeric
    /// payload holds a piece that is not a 32-bit integer.
    Parse { line: usize },
    /// Row `row` of the secondary table names a country that the primary
    /// table lacks.
    MissingKey { row: usize, country: String },
    /// Row `row` has `count` values, which no known table has.
    SchemaMismatch { row: usize, count: usize },
    /// Row `row` has `actual` values, where the first row has `expected`.
    RowLength { row: usize, expected: usize, actual: usize },
    /// There is nothing to serialize.
    EmptyInput,
}

} // verus!
