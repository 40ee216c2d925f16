use table_extract::delimited::{push_header, push_row};
use table_extract::schema::{lower_name, upper_name};
use table_extract::{
    record, to_delimited, to_records, tsv_to_writer, Entry, Schema, TableError,
};

fn entry(country: &str, values: &[i32]) -> Entry {
    Entry { country: country.to_string(), values: values.to_vec() }
}

fn fields_of(e: &Entry) -> Vec<(String, i32)> {
    record(e).unwrap().fields.iter().map(|f| (f.name.clone(), f.value)).collect()
}

fn pairs(items: &[(&str, i32)]) -> Vec<(String, i32)> {
    items.iter().map(|(n, v)| (n.to_string(), *v)).collect()
}

#[test]
fn record_of_eight_values() {
    let e = entry("Testland", &[1, 2, 3, 4, 5, 6, 7, 8]);
    let rec = record(&e).unwrap();
    assert_eq!(rec.country, "Testland");
    assert_eq!(
        fields_of(&e),
        pairs(&[
            ("cantril", 1),
            ("enjoy", 2),
            ("smile", 3),
            ("well_rested", 4),
            ("pain", 5),
            ("sadness", 6),
            ("worry", 7),
            ("anger", 8)
        ])
    );
}

#[test]
fn record_of_three_values() {
    let e = entry("Testland", &[9, 10, 11]);
    assert_eq!(fields_of(&e), pairs(&[("positive", 9), ("negative", 10), ("final", 11)]));
}

#[test]
fn record_of_eleven_values() {
    let e = entry("Testland", &[1, 2, 3, 4, 5, 6, 7, 8, 9, 10, -11]);
    assert_eq!(
        fields_of(&e),
        pairs(&[
            ("cantril", 1),
            ("enjoy", 2),
            ("smile", 3),
            ("well_rested", 4),
            ("pain", 5),
            ("sadness", 6),
            ("worry", 7),
            ("anger", 8),
            ("positive", 9),
            ("negative", 10),
            ("final", -11)
        ])
    );
}

#[test]
fn no_record_for_another_number_of_values() {
    assert_eq!(record(&entry("Testland", &[])), None);
    assert_eq!(record(&entry("Testland", &[1, 2])), None);
    assert_eq!(record(&entry("Testland", &[1, 2, 3, 4, 5, 6, 7, 8, 9, 10, 11, 12])), None);
}

#[test]
fn records_keep_the_order_of_the_entries() {
    let recs = to_records(&[entry("B", &[1, 2, 3]), entry("A", &[4, 5, 6])]).unwrap();
    assert_eq!(recs.len(), 2);
    assert_eq!(recs[0].country, "B");
    assert_eq!(recs[1].country, "A");
    assert_eq!(recs[1].fields[2].name, "final");
    assert_eq!(recs[1].fields[2].value, 6);
    assert_eq!(to_records(&[]), Ok(vec![]));
}

#[test]
fn records_fail_at_the_first_unknown_shape() {
    let got = to_records(&[entry("A", &[1, 2, 3]), entry("B", &[1, 2]), entry("C", &[1])]);
    assert_eq!(got, Err(TableError::SchemaMismatch { row: 1, count: 2 }));
}

#[test]
fn shapes_by_width() {
    assert_eq!(Schema::of_width(8), Some(Schema::Primary));
    assert_eq!(Schema::of_width(3), Some(Schema::Secondary));
    assert_eq!(Schema::of_width(11), Some(Schema::Joined));
    assert_eq!(Schema::of_width(0), None);
    assert_eq!(Schema::of_width(10), None);
    assert_eq!(Schema::Primary.width(), 8);
    assert_eq!(Schema::Secondary.width(), 3);
    assert_eq!(Schema::Joined.width(), 11);
    assert_eq!(Schema::Primary.offset(), 0);
    assert_eq!(Schema::Secondary.offset(), 8);
    assert_eq!(Schema::Joined.offset(), 0);
}

#[test]
fn column_names() {
    let lower: Vec<&str> = (0..11).map(lower_name).collect();
    assert_eq!(
        lower,
        ["cantril", "enjoy", "smile", "well_rested", "pain", "sadness", "worry", "anger",
            "positive", "negative", "final"]
    );
    let upper: Vec<&str> = (0..11).map(upper_name).collect();
    assert_eq!(
        upper,
        ["CANTRIL", "ENJOY", "SMILE", "WELL-RESTED", "PAIN", "SADNESS", "WORRY", "ANGER",
            "POSITIVE", "NEGATIVE", "FINAL"]
    );
}

#[test]
fn delimited_text_of_eleven_values() {
    let mut out = String::new();
    let data = [entry("Testland", &[1, 2, 3, 4, 5, 6, 7, 8, 9, 10, 11])];
    assert_eq!(tsv_to_writer(&mut out, &data), Ok(()));
    assert_eq!(
        out,
        "COUNTRY\tCANTRIL\tENJOY\tSMILE\tWELL-RESTED\tPAIN\tSADNESS\tWORRY\tANGER\tPOSITIVE\tNEGATIVE\tFINAL\nTestland\t1\t2\t3\t4\t5\t6\t7\t8\t9\t10\t11\n"
    );
}

#[test]
fn delimited_text_of_three_values() {
    let mut out = String::new();
    let data = [entry("B", &[1, -2, 300]), entry(" Trinidad and Tobago", &[0, 0, 0])];
    assert_eq!(tsv_to_writer(&mut out, &data), Ok(()));
    assert_eq!(out, "COUNTRY\tPOSITIVE\tNEGATIVE\tFINAL\nB\t1\t-2\t300\n Trinidad and Tobago\t0\t0\t0\n");
}

#[test]
fn delimited_text_of_eight_values() {
    let mut out = String::new();
    let data = [entry("A", &[1, 2, 3, 4, 5, 6, 7, 8])];
    assert_eq!(tsv_to_writer(&mut out, &data), Ok(()));
    assert_eq!(
        out,
        "COUNTRY\tCANTRIL\tENJOY\tSMILE\tWELL-RESTED\tPAIN\tSADNESS\tWORRY\tANGER\nA\t1\t2\t3\t4\t5\t6\t7\t8\n"
    );
}

#[test]
fn delimited_text_goes_after_what_is_there() {
    let mut out = String::from("# data\n");
    assert_eq!(tsv_to_writer(&mut out, &[entry("A", &[1, 2, 3])]), Ok(()));
    assert_eq!(out, "# data\nCOUNTRY\tPOSITIVE\tNEGATIVE\tFINAL\nA\t1\t2\t3\n");
}

#[test]
fn nothing_to_write() {
    let mut out = String::from("kept");
    assert_eq!(tsv_to_writer(&mut out, &[]), Err(TableError::EmptyInput));
    assert_eq!(out, "kept");
}

#[test]
fn a_first_row_of_unknown_shape() {
    let mut out = String::new();
    let data = [entry("A", &[1, 2]), entry("B", &[1, 2, 3])];
    assert_eq!(
        tsv_to_writer(&mut out, &data),
        Err(TableError::SchemaMismatch { row: 0, count: 2 })
    );
    assert_eq!(out, "");
}

#[test]
fn a_second_row_of_another_length() {
    let mut out = String::from("kept");
    let data = [entry("A", &[1, 2, 3]), entry("B", &[1, 2, 3, 4, 5, 6, 7, 8])];
    assert_eq!(
        tsv_to_writer(&mut out, &data),
        Err(TableError::RowLength { row: 1, expected: 3, actual: 8 })
    );
    assert_eq!(out, "kept");
}

#[test]
fn the_first_row_of_another_length_is_named() {
    let mut out = String::new();
    let data =
        [entry("A", &[1, 2, 3]), entry("B", &[4, 5, 6]), entry("C", &[1]), entry("D", &[])];
    assert_eq!(
        tsv_to_writer(&mut out, &data),
        Err(TableError::RowLength { row: 2, expected: 3, actual: 1 })
    );
}

#[test]
fn header_and_row_lines() {
    let mut out = String::new();
    push_header(&mut out, Schema::Secondary);
    assert_eq!(out, "COUNTRY\tPOSITIVE\tNEGATIVE\tFINAL\n");
    push_row(&mut out, &entry("A", &[-2147483648]));
    assert_eq!(out, "COUNTRY\tPOSITIVE\tNEGATIVE\tFINAL\nA\t-2147483648\n");
    let mut bare = String::new();
    push_row(&mut bare, &entry("A", &[]));
    assert_eq!(bare, "A\n");
}

#[test]
fn delimited_text_on_its_own() {
    let data = [entry("A", &[1, 2, 3]), entry("B", &[-4, 5, 60])];
    assert_eq!(
        to_delimited(&data),
        Ok("COUNTRY\tPOSITIVE\tNEGATIVE\tFINAL\nA\t1\t2\t3\nB\t-4\t5\t60\n".to_string())
    );
    assert_eq!(to_delimited(&[]), Err(TableError::EmptyInput));
    assert_eq!(
        to_delimited(&[entry("A", &[1])]),
        Err(TableError::SchemaMismatch { row: 0, count: 1 })
    );
    assert_eq!(
        to_delimited(&[entry("A", &[1, 2, 3]), entry("B", &[])]),
        Err(TableError::RowLength { row: 1, expected: 3, actual: 0 })
    );
}
