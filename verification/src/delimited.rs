//! The delimited form: a header line and one line for each row, with tabs
//! between the cells.

use vstd::prelude::*;
use vstd::string::*;
use crate::entry::{rows_of, Entry, Row, TableError};
use crate::number::{decimal, push_decimal};
use crate::schema::{columns, upper_name, upper_names, Schema};

verus! {

/// The cells, each with a tab before it.
pub open spec fn tabbed(cells: Seq<Seq<char>>) -> Seq<char>
    decreases cells.len(),
{
    if cells.len() == 0 {
        Seq::empty()
    } else {
        tabbed(cells.drop_last()) + "\t"@ + cells.last()
    }
}

/// The decimal notation of each value.
pub open spec fn value_cells(values: Seq<i32>) -> Seq<Seq<char>> {
    Seq::new(values.len(), |k: int| decimal(values[k] as int))
}

/// The header line of a table of shape `schema`.
pub open spec fn header_line(schema: Schema) -> Seq<char> {
    "COUNTRY"@ + tabbed(columns(upper_names(), schema)) + "\n"@
}

/// The line of one row.
pub open spec fn row_line(row: Row) -> Seq<char> {
    row.country + tabbed(value_cells(row.values)) + "\n"@
}

/// The lines of the rows, in order.
pub open spec fn row_lines(rows: Seq<Row>) -> Seq<char>
    decreases rows.len(),
{
    if rows.len() == 0 {
        Seq::empty()
    } else {
        row_lines(rows.drop_last()) + row_line(rows.last())
    }
}

/// The whole delimited text of a table of shape `schema`.
pub open spec fn delimited(rows: Seq<Row>, schema: Schema) -> Seq<char> {
    header_line(schema) + row_lines(rows)
}

/// Appends the header line of `schema` to `w`.
pub fn push_header(w: &mut String, schema: Schema)
    ensures
        final(w)@ == old(w)@ + header_line(schema),
{
    let ghost base = w@;
    let ghost names = columns(upper_names(), schema);
    let first: usize = schema.offset();
    let n: usize = schema.width();
    w.append("COUNTRY");
    let mut k: usize = 0;
    assert(w@ =~= base + "COUNTRY"@ + tabbed(names.take(0)));
    while k < n
        invariant
            k <= n,
            n == schema.spec_width(),
            first == schema.spec_offset(),
            first + n <= 11,
            names == columns(upper_names(), schema),
            w@ == base + "COUNTRY"@ + tabbed(names.take(k as int)),
        decreases n - k,
    {
        w.append("\t");
        w.append(upper_name(first + k));
        proof {
            let next = names.take(k + 1);
            assert(next.drop_last() =~= names.take(k as int));
            assert(next.last() == upper_names()[first + k]);
            assert(w@ =~= base + "COUNTRY"@ + tabbed(next));
        }
        k += 1;
    }
    assert(names.take(n as int) =~= names);
    w.append("\n");
    assert(w@ =~= base + header_line(schema));
}

/// Appends the line of `entry` to `w`.
pub fn push_row(w: &mut String, entry: &Entry)
    ensures
        final(w)@ == old(w)@ + row_line(entry@),
{
    let ghost base = w@;
    let ghost cells = value_cells(entry.values@);
    w.append(entry.country.as_str());
    let n: usize = entry.values.len();
    let mut k: usize = 0;
    assert(w@ =~= base + entry.country@ + tabbed(cells.take(0)));
    while k < n
        invariant
            k <= n,
            n == entry.values@.len(),
            cells == value_cells(entry.values@),
            w@ == base + entry.country@ + tabbed(cells.take(k as int)),
        decreases n - k,
    {
        w.append("\t");
        push_decimal(w, entry.values[k]);
        proof {
            let next = cells.take(k + 1);
            assert(next.drop_last() =~= cells.take(k as int));
            assert(next.last() == decimal(entry.values@[k as int] as int));
            assert(w@ =~= base + entry.country@ + tabbed(next));
        }
        k += 1;
    }
    assert(cells.take(n as int) =~= cells);
    w.append("\n");
    assert(w@ =~= base + row_line(entry@));
}

/// Appends the delimited form of `data` to `w`: the header line of the
/// first row's shape, then one line for each row, in order.
///
/// Nothing is appended unless all of `data` can be written: there must be a
/// first row, it must have three, eight or eleven values, and every later
/// row must have as many values as the first. The error names the first
/// row that is at fault.
pub fn tsv_to_writer(w: &mut String, data: &[Entry]) -> (r: Result<(), TableError>)
    ensures
        match r {
            Ok(_) => {
                &&& data@.len() > 0
                &&& Schema::spec_of_width(data@[0].values@.len()) matches Some(schema)
                &&& final(w)@ == old(w)@ + delimited(rows_of(data@), schema)
                &&& forall|i: int|
                    0 <= i < data@.len() ==> (#[trigger] data@[i]).values@.len()
                        == data@[0].values@.len()
            },
            Err(TableError::EmptyInput) => data@.len() == 0 && final(w)@ == old(w)@,
            Err(TableError::SchemaMismatch { row, count }) => {
                &&& data@.len() > 0
                &&& row == 0
                &&& count == data@[0].values@.len()
                &&& Schema::spec_of_width(count as nat) is None
                &&& final(w)@ == old(w)@
            },
            Err(TableError::RowLength { row, expected, actual }) => {
                &&& 0 < row < data@.len()
                &&& Schema::spec_of_width(expected as nat) is Some
                &&& expected == data@[0].values@.len()
                &&& actual == data@[row as int].values@.len()
                &&& actual != expected
                &&& final(w)@ == old(w)@
                &&& forall|i: int|
                    0 <= i < row ==> (#[trigger] data@[i]).values@.len() == expected
            },
            Err(_) => false,
        },
{
    if data.len() == 0 {
        return Err(TableError::EmptyInput);
    }
    let n: usize = data[0].values.len();
    let schema: Schema = match Schema::of_width(n) {
        Some(schema) => schema,
        None => {
            return Err(TableError::SchemaMismatch { row: 0, count: n });
        },
    };
    let mut i: usize = 1;
    while i < data.len()
        invariant
            1 <= i <= data@.len(),
            n == data@[0].values@.len(),
            Schema::spec_of_width(n as nat) == Some(schema),
            forall|j: int| 0 <= j < i ==> (#[trigger] data@[j]).values@.len() == n,
        decreases data@.len() - i,
    {
        let actual: usize = data[i].values.len();
        if actual != n {
            return Err(TableError::RowLength { row: i, expected: n, actual });
        }
        i += 1;
    }
    let ghost base = w@;
    let ghost rows = rows_of(data@);
    push_header(w, schema);
    let mut k: usize = 0;
    assert(w@ =~= base + header_line(schema) + row_lines(rows.take(0)));
    while k < data.len()
        invariant
            k <= data@.len(),
            rows == rows_of(data@),
            w@ == base + header_line(schema) + row_lines(rows.take(k as int)),
        decreases data@.len() - k,
    {
        push_row(w, &data[k]);
        proof {
            let next = rows.take(k + 1);
            assert(next.drop_last() =~= rows.take(k as int));
            assert(next.last() == data@[k as int]@);
            assert(w@ =~= base + header_line(schema) + row_lines(next));
        }
        k += 1;
    }
    assert(rows.take(k as int) =~= rows);
    assert(w@ =~= base + delimited(rows, schema));
    Ok(())
}

/// The delimited form of `data` as a text of its own. It fails as
/// [`tsv_to_writer`] does.
pub fn to_delimited(data: &[Entry]) -> (r: Result<String, TableError>)
    ensures
        match r {
            Ok(text) => {
                &&& data@.len() > 0
                &&& Schema::spec_of_width(data@[0].values@.len()) matches Some(schema)
                &&& text@ == delimited(rows_of(data@), schema)
                &&& forall|i: int|
                    0 <= i < data@.len() ==> (#[trigger] data@[i]).values@.len()
                        == data@[0].values@.len()
            },
            Err(TableError::EmptyInput) => data@.len() == 0,
            Err(TableError::SchemaMismatch { row, count }) => {
                &&& data@.len() > 0
                &&& row == 0
                &&& count == data@[0].values@.len()
                &&& Schema::spec_of_width(count as nat) is None
            },
            Err(TableError::RowLength { row, expected, actual }) => {
                &&& 0 < row < data@.len()
                &&& Schema::spec_of_width(expected as nat) is Some
                &&& expected == data@[0].values@.len()
                &&& actual == data@[row as int].values@.len()
                &&& actual != expected
                &&& forall|i: int|
                    0 <= i < row ==> (#[trigger] data@[i]).values@.len() == expected
            },
            Err(_) => false,
        },
{
    let mut text: String = String::new();
    match tsv_to_writer(&mut text, data) {
        Ok(_) => {
            assert(text@ =~= delimited(
                rows_of(data@),
                Schema::spec_of_width(data@[0].values@.len()).unwrap(),
            ));
            Ok(text)
        },
        Err(e) => Err(e),
    }
}

} // verus!
