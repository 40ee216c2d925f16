//! The record form: each row as a country and its values under their
//! column names, in column order.

use vstd::prelude::*;
use vstd::string::*;
use crate::entry::{Entry, Row, TableError};
use crate::schema::{columns, lower_name, lower_names, Schema};

verus! {

/// One named value of a record.
#[derive(Debug, Clone, PartialEq, Eq)]
pub struct Field {
    pub name: String,
    pub value: i32,
}

/// A row in record form: the country, then the named values in column order.
#[derive(Debug, Clone, PartialEq, Eq)]
pub struct Record {
    pub country: String,
    pub fields: Vec<Field>,
}

/// The mathematical content of a [`Record`].
pub ghost struct RecordView {
    pub country: Seq<char>,
    pub fields: Seq<(Seq<char>, i32)>,
}

impl View for Record {
    type V = RecordView;

    open spec fn view(&self) -> RecordView {
        RecordView {
            country: self.country@,
            fields: Seq::new(
                self.fields@.len(),
                |k: int| (self.fields@[k].name@, self.fields@[k].value),
            ),
        }
    }
}

/// The record of `row`: value `k` stands under the name of column `k` of the
/// row's shape. A row of no known shape has no record.
pub open spec fn record_of(row: Row) -> Option<RecordView> {
    match Schema::spec_of_width(row.values.len()) {
        Some(schema) => Some(
            RecordView {
                country: row.country,
                fields: Seq::new(
                    row.values.len(),
                    |k: int| (columns(lower_names(), schema)[k], row.values[k]),
                ),
            },
        ),
        None => None,
    }
}

/// A record has one field for each value of its row.
pub proof fn lemma_record_width(row: Row)
    requires
        record_of(row) is Some,
    ensures
        record_of(row).unwrap().fields.len() == row.values.len(),
        row.values.len() == 3 || row.values.len() == 8 || row.values.len() == 11,
{
}

/// The record of a row of eight values holds the row's country and, in
/// order, each value under the name of its column among the first eight.
pub proof fn lemma_record_of_eight(row: Row)
    requires
        row.values.len() == 8,
    ensures
        record_of(row) matches Some(content) && content.country == row.country
            && content.fields.len() == 8 && forall|k: int|
            0 <= k < 8 ==> content.fields[k] == (lower_names()[k], row.values[k]),
{
}

/// The record of a row of three values names them after the last three
/// columns, and that of a row of eleven values after all eleven.
pub proof fn lemma_record_of_three_or_eleven(row: Row)
    requires
        row.values.len() == 3 || row.values.len() == 11,
    ensures
        record_of(row) matches Some(content) && content.country == row.country
            && content.fields.len() == row.values.len() && forall|k: int|
            0 <= k < row.values.len() ==> content.fields[k] == (
                lower_names()[11 - row.values.len() + k],
                row.values[k],
            ),
{
}

/// Puts `entry` in record form, if it has three, eight or eleven values.
pub fn record(entry: &Entry) -> (r: Option<Record>)
    ensures
        match record_of(entry@) {
            Some(content) => r matches Some(rec) && rec@ == content,
            None => r is None,
        },
{
    let n: usize = entry.values.len();
    match Schema::of_width(n) {
        None => None,
        Some(schema) => {
            let first: usize = schema.offset();
            let ghost names = columns(lower_names(), schema);
            let mut fields: Vec<Field> = Vec::new();
            let mut k: usize = 0;
            while k < n
                invariant
                    k <= n,
                    n == entry.values@.len(),
                    n == schema.spec_width(),
                    first == schema.spec_offset(),
                    first + n <= 11,
                    names == columns(lower_names(), schema),
                    fields@.len() == k,
                    forall|i: int|
                        0 <= i < k ==> (#[trigger] fields@[i]).name@ == names[i] && fields@[i].value
                            == entry.values@[i],
                decreases n - k,
            {
                let name: String = String::from_str(lower_name(first + k));
                assert(names[k as int] == lower_names()[first + k]);
                fields.push(Field { name, value: entry.values[k] });
                k += 1;
            }
            let rec = Record { country: entry.country.clone(), fields };
            assert(rec@.fields =~= record_of(entry@).unwrap().fields);
            Some(rec)
        },
    }
}

/// Puts every entry in record form, in order. The first entry of no known
/// shape fails the whole, with its index and its number of values.
pub fn to_records(entries: &[Entry]) -> (r: Result<Vec<Record>, TableError>)
    ensures
        match r {
            Ok(recs) => {
                &&& recs@.len() == entries@.len()
                &&& forall|i: int|
                    0 <= i < entries@.len() ==> record_of(#[trigger] entries@[i]@) == Some(
                        recs@[i]@,
                    )
            },
            Err(TableError::SchemaMismatch { row, count }) => {
                &&& row < entries@.len()
                &&& count == entries@[row as int].values@.len()
                &&& record_of(entries@[row as int]@) is None
                &&& forall|i: int| 0 <= i < row ==> record_of(#[trigger] entries@[i]@) is Some
            },
            Err(_) => false,
        },
{
    let mut recs: Vec<Record> = Vec::new();
    let mut i: usize = 0;
    while i < entries.len()
        invariant
            i <= entries@.len(),
            recs@.len() == i,
            forall|j: int| 0 <= j < i ==> record_of(#[trigger] entries@[j]@) == Some(recs@[j]@),
        decreases entries@.len() - i,
    {
        match record(&entries[i]) {
            None => {
                return Err(TableError::SchemaMismatch { row: i, count: entries[i].values.len() });
            },
            Some(rec) => {
                let ghost before = recs@;
                recs.push(rec);
                assert forall|j: int| 0 <= j < i + 1 implies record_of(#[trigger] entries@[j]@)
                    == Some(recs@[j]@) by {
                    if j < i {
                        assert(recs@[j] == before[j]);
                    }
                }
            },
        }
        i += 1;
    }
    Ok(recs)
}

} // verus!
