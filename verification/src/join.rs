//! The join of the two tables on the country name.

use vstd::prelude::*;
use crate::entry::{rows_of, Entry, Row, TableError};

verus! {

/// The index of the last row of `primary` whose country is `key`.
pub open spec fn last_index_of(primary: Seq<Row>, key: Seq<char>) -> Option<int>
    decreases primary.len(),
{
    if primary.len() == 0 {
        None
    } else if primary.last().country == key {
        Some(primary.len() - 1)
    } else {
        last_index_of(primary.drop_last(), key)
    }
}

/// The joined row for `row` of the secondary table: its country, with the
/// values of the matching primary row before its own. Where several primary
/// rows have that country, the last of them is the matching one.
pub open spec fn joined_row(primary: Seq<Row>, row: Row) -> Option<Row> {
    match last_index_of(primary, row.country) {
        Some(k) => Some(Row { country: row.country, values: primary[k].values + row.values }),
        None => None,
    }
}

/// What `last_index_of` finds is a row with that country, and no later row has it.
pub proof fn lemma_last_index_of(primary: Seq<Row>, key: Seq<char>)
    ensures
        match last_index_of(primary, key) {
            Some(k) => 0 <= k < primary.len() && primary[k].country == key && forall|i: int|
                k < i < primary.len() ==> primary[i].country != key,
            None => forall|i: int| 0 <= i < primary.len() ==> primary[i].country != key,
        },
    decreases primary.len(),
{
    if primary.len() > 0 && primary.last().country != key {
        let front = primary.drop_last();
        lemma_last_index_of(front, key);
        assert forall|i: int| 0 <= i < front.len() implies front[i] == primary[i] by {}
    }
}

/// A joined row holds as many values as the two rows it was made of together.
pub proof fn lemma_joined_width(primary: Seq<Row>, row: Row)
    requires
        joined_row(primary, row) is Some,
    ensures
        joined_row(primary, row).unwrap().values.len() == primary[last_index_of(
            primary,
            row.country,
        ).unwrap()].values.len() + row.values.len(),
{
}

/// Finds the last entry of `a` whose country is `key`.
pub fn find_last(a: &[Entry], key: &String) -> (r: Option<usize>)
    ensures
        match last_index_of(rows_of(a@), key@) {
            Some(k) => 0 <= k < a@.len() && r == Some(k as usize),
            None => r is None,
        },
{
    let ghost rows = rows_of(a@);
    let mut i: usize = a.len();
    assert(rows.take(i as int) =~= rows);
    while i > 0
        invariant
            i <= a@.len(),
            rows == rows_of(a@),
            last_index_of(rows, key@) == last_index_of(rows.take(i as int), key@),
        decreases i,
    {
        assert(rows.take(i as int).last() == a@[i - 1]@);
        assert(rows.take(i as int).drop_last() =~= rows.take(i - 1));
        if a[i - 1].country == *key {
            return Some(i - 1);
        }
        i -= 1;
    }
    None
}

/// The values of `x` followed by the values of `y`.
pub fn chained(x: &Vec<i32>, y: &Vec<i32>) -> (r: Vec<i32>)
    ensures
        r@ == x@ + y@,
{
    let mut out: Vec<i32> = Vec::new();
    let mut i: usize = 0;
    while i < x.len()
        invariant
            i <= x@.len(),
            out@ == x@.take(i as int),
        decreases x@.len() - i,
    {
        out.push(x[i]);
        i += 1;
        assert(out@ =~= x@.take(i as int));
    }
    let mut j: usize = 0;
    while j < y.len()
        invariant
            j <= y@.len(),
            out@ == x@ + y@.take(j as int),
        decreases y@.len() - j,
    {
        out.push(y[j]);
        j += 1;
        assert(out@ =~= x@ + y@.take(j as int));
    }
    assert(out@ =~= x@ + y@);
    out
}

/// Joins the secondary table `b` to the primary table `a`.
///
/// The result has one row for each row of `b`, in the order of `b`: the
/// country of that row, with the values of the matching row of `a` before
/// those of the row of `b`. The first row of `b` whose country `a` lacks
/// fails the join, and nothing is returned but that row's index and country.
pub fn join(a: &[Entry], b: &[Entry]) -> (r: Result<Vec<Entry>, TableError>)
    ensures
        match r {
            Ok(out) => {
                &&& out@.len() == b@.len()
                &&& forall|j: int|
                    0 <= j < b@.len() ==> joined_row(rows_of(a@), #[trigger] b@[j]@) == Some(
                        out@[j]@,
                    )
            },
            Err(TableError::MissingKey { row, country }) => {
                &&& row < b@.len()
                &&& country@ == b@[row as int].country@
                &&& joined_row(rows_of(a@), b@[row as int]@) is None
                &&& forall|j: int|
                    0 <= j < row ==> joined_row(rows_of(a@), #[trigger] b@[j]@) is Some
            },
            Err(_) => false,
        },
{
    let mut joined: Vec<Entry> = Vec::new();
    let mut j: usize = 0;
    while j < b.len()
        invariant
            j <= b@.len(),
            joined@.len() == j,
            forall|i: int|
                0 <= i < j ==> joined_row(rows_of(a@), #[trigger] b@[i]@) == Some(joined@[i]@),
        decreases b@.len() - j,
    {
        let right: &Entry = &b[j];
        match find_last(a, &right.country) {
            None => {
                return Err(TableError::MissingKey { row: j, country: right.country.clone() });
            },
            Some(k) => {
                let left: &Entry = &a[k];
                let values: Vec<i32> = chained(&left.values, &right.values);
                let ghost before = joined@;
                let entry = Entry { country: right.country.clone(), values };
                assert(rows_of(a@)[k as int] == left@);
                assert(joined_row(rows_of(a@), right@) == Some(entry@));
                joined.push(entry);
                assert forall|i: int| 0 <= i < j + 1 implies joined_row(
                    rows_of(a@),
                    #[trigger] b@[i]@,
                ) == Some(joined@[i]@) by {
                    if i < j {
                        assert(joined@[i] == before[i]);
                    }
                }
            },
        }
        j += 1;
    }
    Ok(joined)
}

} // verus!
