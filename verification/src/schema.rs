//! The three table shapes and their column names.

use vstd::prelude::*;
use vstd::string::*;

verus! {

/// The shape of a table, known by the number of values in a row.
#[derive(Clone, Copy, Debug, PartialEq, Eq, Structural)]
pub enum Schema {
    /// The first table: eight values.
    Primary,
    /// The second table: three values.
    Secondary,
    /// Both tables side by side: eleven values.
    Joined,
}

impl Schema {
    /// The number of values in a row of this shape.
    pub open spec fn spec_width(self) -> nat {
        match self {
            Schema::Primary => 8,
            Schema::Secondary => 3,
            Schema::Joined => 11,
        }
    }

    /// Where this shape's columns begin among the eleven named columns.
    pub open spec fn spec_offset(self) -> nat {
        match self {
            Schema::Primary => 0,
            Schema::Secondary => 8,
            Schema::Joined => 0,
        }
    }

    /// The shape whose rows hold `count` values, if there is one.
    pub open spec fn spec_of_width(count: nat) -> Option<Schema> {
        if count == 8 {
            Some(Schema::Primary)
        } else if count == 3 {
            Some(Schema::Secondary)
        } else if count == 11 {
            Some(Schema::Joined)
        } else {
            None
        }
    }

    pub fn width(self) -> (r: usize)
        ensures
            r == self.spec_width(),
    {
        match self {
            Schema::Primary => 8,
            Schema::Secondary => 3,
            Schema::Joined => 11,
        }
    }

    pub fn offset(self) -> (r: usize)
        ensures
            r == self.spec_offset(),
            r + self.spec_width() <= 11,
    {
        match self {
            Schema::Primary => 0,
            Schema::Secondary => 8,
            Schema::Joined => 0,
        }
    }

    pub fn of_width(count: usize) -> (r: Option<Schema>)
        ensures
            r == Schema::spec_of_width(count as nat),
    {
        if count == 8 {
            Some(Schema::Primary)
        } else if count == 3 {
            Some(Schema::Secondary)
        } else if count == 11 {
            Some(Schema::Joined)
        } else {
            None
        }
    }
}

/// The eleven column names of the record form, in column order.
pub open spec fn lower_names() -> Seq<Seq<char>> {
    seq![
        "cantril"@,
        "enjoy"@,
        "smile"@,
        "well_rested"@,
        "pain"@,
        "sadness"@,
        "worry"@,
        "anger"@,
        "positive"@,
        "negative"@,
        "final"@,
    ]
}

/// The eleven column names of the delimited form, in column order.
pub open spec fn upper_names() -> Seq<Seq<char>> {
    seq![
        "CANTRIL"@,
        "ENJOY"@,
        "SMILE"@,
        "WELL-RESTED"@,
        "PAIN"@,
        "SADNESS"@,
        "WORRY"@,
        "ANGER"@,
        "POSITIVE"@,
        "NEGATIVE"@,
        "FINAL"@,
    ]
}

/// The names among `names` that belong to the columns of `schema`.
pub open spec fn columns(names: Seq<Seq<char>>, schema: Schema) -> Seq<Seq<char>> {
    names.subrange(schema.spec_offset() as int, (schema.spec_offset() + schema.spec_width()) as int)
}

/// The name of column `i` in the record form.
pub fn lower_name(i: usize) -> (r: &'static str)
    requires
        i < 11,
    ensures
        r@ == lower_names()[i as int],
{
    match i {
        0 => "cantril",
        1 => "enjoy",
        2 => "smile",
        3 => "well_rested",
        4 => "pain",
        5 => "sadness",
        6 => "worry",
        7 => "anger",
        8 => "positive",
        9 => "negative",
        _ => "final",
    }
}

/// The name of column `i` in the delimited form.
pub fn upper_name(i: usize) -> (r: &'static str)
    requires
        i < 11,
    ensures
        r@ == upper_names()[i as int],
{
    match i {
        0 => "CANTRIL",
        1 => "ENJOY",
        2 => "SMILE",
        3 => "WELL-RESTED",
        4 => "PAIN",
        5 => "SADNESS",
        6 => "WORRY",
        7 => "ANGER",
        8 => "POSITIVE",
        9 => "NEGATIVE",
        _ => "FINAL",
    }
}

} // verus!
