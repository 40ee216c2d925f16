//! The table scanner: finds the rows of a table among lines of text.
//!
//! A row is a line on which the row pattern matches. The text from the
//! start of the first match to the end of the line is the numeric payload;
//! the text before it, trimmed, is the country label. Lines without a match
//! are skipped. Pattern matching is done by the `regex` crate; the items
//! that call it are the only ones in this crate that are not proved.

use vstd::prelude::*;
use vstd::string::*;
use vstd::utf8::{
    decode_utf8, decode_utf8_split, encode_utf8, encode_utf8_decode_utf8, encode_utf8_valid_utf8,
    is_char_boundary,
};
use regex::Regex;
use crate::country::{normalize_country, normalized};
use crate::entry::{rows_of, Entry, Row, TableError};
use crate::number::{parse_i32, parsed_i32};
use crate::text::{lemma_first_space, to_chars, tokens, trim_bounds, trimmed};

verus! {

/// `regex::Regex`, a compiled pattern. Nothing of its inside is visible here.
#[verifier::external_type_specification]
#[verifier::external_body]
pub struct ExRegex(regex::Regex);

/// `regex::Error`, the reason why a pattern did not compile.
#[verifier::external_type_specification]
#[verifier::external_body]
pub struct ExRegexError(regex::Error);

/// Where the first match of `pat` in `line` begins, as a byte offset into
/// the UTF-8 encoding of the line; `None` if `pat` matches nowhere in `line`.
/// This names the outcome of `Regex::find`, which depends on the compiled
/// pattern and the searched text alone.
pub uninterp spec fn first_match_start(pat: Regex, line: Seq<char>) -> Option<usize>;

/// The text that `pat` was compiled from. This names what `Regex::as_str`
/// returns, which a compiled pattern keeps from the moment it is built.
pub uninterp spec fn pattern_text(pat: Regex) -> Seq<char>;

/// Calls `Regex::new`. Claimed: a pattern that comes back was compiled from
/// the text handed in, and keeps that text. Nothing is claimed of which
/// texts compile.
#[verifier::external_body]
fn new_regex(pattern: &str) -> (r: Result<Regex, regex::Error>)
    ensures
        r matches Ok(compiled) ==> pattern_text(compiled) == pattern@,
{
    Regex::new(pattern)
}

/// Calls `Regex::find` and, on a match, `Match::start`. Claimed: the outcome
/// is the one named by [`first_match_start`], and the offset at which a match
/// begins is a character boundary of the searched text.
#[verifier::external_body]
fn find_start(pat: &Regex, line: &str) -> (r: Option<usize>)
    ensures
        r == first_match_start(*pat, line@),
        r matches Some(k) ==> is_char_boundary(encode_utf8(line@), k as int),
{
    match pat.find(line) {
        Some(m) => Some(m.start()),
        None => None,
    }
}

/// The characters of `line` that lie before byte `offset` of its encoding.
pub open spec fn chars_before(line: Seq<char>, offset: int) -> Seq<char> {
    decode_utf8(encode_utf8(line).subrange(0, offset))
}

/// The characters of `line` that lie at and after byte `offset` of its encoding.
pub open spec fn chars_from(line: Seq<char>, offset: int) -> Seq<char> {
    decode_utf8(encode_utf8(line).subrange(offset, encode_utf8(line).len() as int))
}

/// A line is what lies before a character boundary and what lies after it.
pub proof fn lemma_line_parts(line: Seq<char>, offset: int)
    requires
        is_char_boundary(encode_utf8(line), offset),
    ensures
        line == chars_before(line, offset) + chars_from(line, offset),
{
    encode_utf8_valid_utf8(line);
    encode_utf8_decode_utf8(line);
    decode_utf8_split(encode_utf8(line), offset);
}

/// `n` runs of digits with single spaces between them, as a pattern.
pub open spec fn integer_run(n: nat) -> Seq<char>
    decreases n,
{
    if n == 0 {
        Seq::empty()
    } else if n == 1 {
        "\\d+"@
    } else {
        integer_run((n - 1) as nat) + " \\d+"@
    }
}

/// The text of the pattern for a line that ends in `n` integers.
pub open spec fn row_pattern(n: nat) -> Seq<char> {
    integer_run(n) + "$"@
}

/// The values of a numeric payload: its pieces between single spaces, each
/// read as a 32-bit integer. One piece that is no integer spoils the payload.
pub open spec fn payload_values(payload: Seq<char>) -> Option<Seq<i32>> {
    let pieces = tokens(payload);
    if forall|k: int| 0 <= k < pieces.len() ==> (#[trigger] parsed_i32(pieces[k])) is Some {
        Some(Seq::new(pieces.len(), |k: int| parsed_i32(pieces[k]).unwrap()))
    } else {
        None
    }
}

/// The row on a line whose match begins at byte `start`: the payload from
/// there on, and the normalized, trimmed label before it. `None` if the
/// payload is spoilt.
pub open spec fn row_from(line: Seq<char>, start: int) -> Option<Row> {
    match payload_values(chars_from(line, start)) {
        Some(values) => Some(
            Row { country: normalized(trimmed(chars_before(line, start))), values },
        ),
        None => None,
    }
}

/// What one line contributes: `None` if the pattern does not match,
/// otherwise the row, or `Some(None)` for a spoilt payload.
pub open spec fn scanned(pat: Regex, line: Seq<char>) -> Option<Option<Row>> {
    match first_match_start(pat, line) {
        Some(start) => Some(row_from(line, start as int)),
        None => None,
    }
}

/// The rows of a table, in line order, or the index of the first line whose
/// payload is spoilt.
pub open spec fn table_rows(pat: Regex, lines: Seq<Seq<char>>) -> Result<Seq<Row>, int>
    decreases lines.len(),
{
    if lines.len() == 0 {
        Ok(Seq::empty())
    } else {
        match table_rows(pat, lines.drop_last()) {
            Err(k) => Err(k),
            Ok(rows) => match scanned(pat, lines.last()) {
                None => Ok(rows),
                Some(None) => Err(lines.len() - 1),
                Some(Some(row)) => Ok(rows.push(row)),
            },
        }
    }
}

/// The texts of a run of lines.
pub open spec fn texts(lines: Seq<String>) -> Seq<Seq<char>> {
    Seq::new(lines.len(), |i: int| lines[i]@)
}

/// A failure among the first lines is the failure of the whole.
pub proof fn lemma_failure_stays(pat: Regex, lines: Seq<Seq<char>>, n: int, k: int)
    requires
        0 <= n <= lines.len(),
        table_rows(pat, lines.take(n)) == Err::<Seq<Row>, int>(k),
    ensures
        table_rows(pat, lines) == Err::<Seq<Row>, int>(k),
    decreases lines.len() - n,
{
    if n == lines.len() {
        assert(lines.take(n) =~= lines);
    } else {
        assert(lines.take(n + 1).drop_last() =~= lines.take(n));
        lemma_failure_stays(pat, lines, n + 1, k);
    }
}

/// A table fails at the first line whose payload is spoilt, and a table
/// without such a line does not fail and has at most one row for each line.
pub proof fn lemma_table_fails_at_first_spoilt_line(pat: Regex, lines: Seq<Seq<char>>)
    ensures
        match table_rows(pat, lines) {
            Err(k) => {
                &&& 0 <= k < lines.len()
                &&& scanned(pat, lines[k]) == Some(None::<Row>)
                &&& forall|i: int| 0 <= i < k ==> scanned(pat, #[trigger] lines[i]) != Some(None::<Row>)
            },
            Ok(rows) => {
                &&& rows.len() <= lines.len()
                &&& forall|i: int|
                    0 <= i < lines.len() ==> scanned(pat, #[trigger] lines[i]) != Some(None::<Row>)
            },
        },
    decreases lines.len(),
{
    if lines.len() > 0 {
        let front = lines.drop_last();
        lemma_table_fails_at_first_spoilt_line(pat, front);
        assert forall|i: int| 0 <= i < front.len() implies front[i] == lines[i] by {}
    }
}

/// The text of the pattern for a line that ends in `columns` integers
/// separated by single spaces.
pub fn row_pattern_text(columns: usize) -> (r: String)
    ensures
        r@ == row_pattern(columns as nat),
{
    let mut out: String = String::new();
    let mut i: usize = 0;
    while i < columns
        invariant
            i <= columns,
            out@ == integer_run(i as nat),
        decreases columns - i,
    {
        if i == 0 {
            out.append("\\d+");
            assert(out@ =~= integer_run(1));
        } else {
            out.append(" \\d+");
        }
        i += 1;
    }
    out.append("$");
    out
}

/// What becomes of an attempt to compile a pattern: the compiled pattern
/// is handed on as it is, and every failure becomes `TableError::BadPattern`.
pub fn pattern_from(outcome: Result<Regex, regex::Error>) -> (r: Result<Regex, TableError>)
    ensures
        match outcome {
            Ok(compiled) => r == Ok::<Regex, TableError>(compiled),
            Err(_) => r == Err::<Regex, TableError>(TableError::BadPattern),
        },
{
    match outcome {
        Ok(compiled) => Ok(compiled),
        Err(_) => Err(TableError::BadPattern),
    }
}

/// Compiles the row pattern written in `pattern`. Which texts compile is
/// for the `regex` crate to say: a text that does gives the pattern compiled
/// from exactly that text, and a text that does not gives
/// `TableError::BadPattern`.
pub fn compile(pattern: &str) -> (r: Result<Regex, TableError>)
    ensures
        match r {
            Ok(compiled) => pattern_text(compiled) == pattern@,
            Err(e) => e is BadPattern,
        },
{
    pattern_from(new_regex(pattern))
}

/// Reads the payload `chars[from..]`.
pub fn parse_payload(chars: &Vec<char>, from: usize) -> (r: Option<Vec<i32>>)
    requires
        from <= chars@.len(),
    ensures
        match payload_values(chars@.skip(from as int)) {
            Some(values) => r matches Some(v) && v@ == values,
            None => r is None,
        },
{
    let ghost payload = chars@.skip(from as int);
    let len: usize = chars.len();
    let mut values: Vec<i32> = Vec::new();
    let ghost mut done: Seq<Seq<char>> = Seq::empty();
    let mut pos: usize = from;
    assert(done + tokens(chars@.skip(pos as int)) =~= tokens(payload));
    loop
        invariant
            from <= pos <= len,
            len == chars@.len(),
            payload == chars@.skip(from as int),
            tokens(payload) == done + tokens(chars@.skip(pos as int)),
            done.len() == values@.len(),
            forall|k: int| 0 <= k < done.len() ==> parsed_i32(done[k]) == Some(values@[k]),
        decreases len - pos,
    {
        let ghost rest = chars@.skip(pos as int);
        let mut end: usize = pos;
        while end < len && chars[end] != ' '
            invariant
                pos <= end <= len,
                len == chars@.len(),
                forall|i: int| pos <= i < end ==> chars@[i] != ' ',
            decreases len - end,
        {
            end += 1;
        }
        let ghost piece = chars@.subrange(pos as int, end as int);
        proof {
            lemma_first_space(rest, end - pos);
            assert(rest.take(end - pos) =~= piece);
            assert(tokens(payload)[done.len() as int] == tokens(rest)[0]);
            if end < len {
                assert(tokens(rest) == seq![piece] + tokens(rest.skip(end - pos + 1)));
                assert(rest.skip(end - pos + 1) =~= chars@.skip(end + 1));
            } else {
                assert(rest.take(end - pos) =~= rest);
                assert(tokens(rest) == seq![piece]);
            }
            assert(tokens(rest)[0] == piece);
        }
        match parse_i32(chars, pos, end) {
            None => {
                assert(parsed_i32(tokens(payload)[done.len() as int]) is None);
                return None;
            },
            Some(v) => {
                values.push(v);
            },
        }
        proof {
            done = done.push(piece);
        }
        if end == len {
            proof {
                assert(tokens(payload) =~= done);
                assert(values@ =~= payload_values(payload).unwrap());
            }
            return Some(values);
        }
        proof {
            assert(tokens(payload) =~= done + tokens(chars@.skip(end + 1)));
        }
        pos = end + 1;
    }
}

/// Builds the row of `line`, given the byte offset at which the first match
/// of the row pattern begins: the payload from there on is read as integers,
/// and the trimmed text before it is normalized to a country name.
pub fn row_at(line: &str, start: usize) -> (r: Option<Entry>)
    requires
        is_char_boundary(encode_utf8(line@), start as int),
    ensures
        match row_from(line@, start as int) {
            Some(row) => r matches Some(e) && e@ == row,
            None => r is None,
        },
{
    let (head, tail) = line.split_at(start);
    proof {
        encode_utf8_decode_utf8(head@);
        encode_utf8_decode_utf8(tail@);
        assert(encode_utf8(head@) == encode_utf8(line@).subrange(0, start as int));
        assert(encode_utf8(tail@) == encode_utf8(line@).subrange(
            start as int,
            encode_utf8(line@).len() as int,
        ));
    }
    let payload: Vec<char> = to_chars(tail);
    assert(payload@.skip(0) =~= tail@);
    match parse_payload(&payload, 0) {
        None => None,
        Some(values) => {
            let before: Vec<char> = to_chars(head);
            assert(before@.take(before@.len() as int) =~= head@);
            let (a, b) = trim_bounds(&before, before.len());
            let label: &str = head.substring_char(a, b);
            Some(Entry { country: normalize_country(label), values })
        },
    }
}

/// Extracts the rows of a table from `lines`, in line order. A line on which
/// `pat` does not match is skipped. A line on which it matches but whose
/// payload is spoilt fails the whole table, with that line's index.
pub fn table(lines: &Vec<String>, pat: &Regex) -> (r: Result<Vec<Entry>, TableError>)
    ensures
        match table_rows(*pat, texts(lines@)) {
            Ok(rows) => r matches Ok(entries) && rows_of(entries@) == rows,
            Err(k) => r matches Err(TableError::Parse { line }) && line == k,
        },
{
    let ghost all = texts(lines@);
    let mut entries: Vec<Entry> = Vec::new();
    let mut i: usize = 0;
    assert(rows_of(entries@) =~= Seq::<Row>::empty());
    while i < lines.len()
        invariant
            i <= lines@.len(),
            all == texts(lines@),
            table_rows(*pat, all.take(i as int)) == Ok::<Seq<Row>, int>(rows_of(entries@)),
        decreases lines@.len() - i,
    {
        let line: &str = lines[i].as_str();
        proof {
            assert(all.take(i + 1).drop_last() =~= all.take(i as int));
            assert(all.take(i + 1).last() == line@);
        }
        let ghost before = rows_of(entries@);
        match find_start(pat, line) {
            None => {},
            Some(start) => match row_at(line, start) {
                Some(entry) => {
                    entries.push(entry);
                    assert(rows_of(entries@) =~= before.push(entry@));
                },
                None => {
                    proof {
                        lemma_failure_stays(*pat, all, i + 1, i as int);
                    }
                    return Err(TableError::Parse { line: i });
                },
            },
        }
        i += 1;
    }
    assert(all.take(i as int) =~= all);
    Ok(entries)
}

} // verus!
