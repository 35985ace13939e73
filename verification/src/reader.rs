//! Reading the rows of an input.
//!
//! The input is comma-separated text without a header row. Lines that start
//! with `#` are comments; fields are trimmed of surrounding whitespace; rows
//! need not have the same number of fields.

use crate::record::{
    number_rows, raw_row_views, rows_numbered, task_views, tasks_of_rows, CopyTask, RawRow,
};
use vstd::prelude::*;

verus! {

/// The rows that the `csv` reader finds in an input, configured as
/// [`read_rows`] configures it: for each row its fields as text, or the
/// reader's diagnostic where the row is no valid text. Comment lines and
/// empty lines are no rows.
pub uninterp spec fn csv_rows(input: Seq<u8>) -> Seq<Result<Seq<Seq<char>>, Seq<char>>>;

/// Reads all rows of the input with a `csv::Reader` that trims all fields,
/// expects no header row, takes lines starting with `#` as comments and
/// accepts rows of any number of fields (`csv::ReaderBuilder`, then
/// `csv::Reader::records`). Trusted: what is read depends on the input alone
/// and is named [`csv_rows`]. Each record is handed over field by field, each
/// error as the text that its `Display` writes.
#[verifier::external_body]
fn read_rows(input: &[u8]) -> (rows: Vec<RawRow>)
    ensures
        raw_row_views(rows@) == csv_rows(input@),
{
    let mut reader = csv::ReaderBuilder::new()
        .trim(csv::Trim::All)
        .has_headers(false)
        .comment(Some(b'#'))
        .flexible(true)
        .from_reader(input);
    reader.records().map(|row| match row {
        Ok(record) => Ok(record.iter().map(String::from).collect()),
        Err(error) => Err(error.to_string()),
    }).collect()
}

/// Decodes an input into its tasks: one task for each row that the reader
/// finds, numbered from one in input order. A row that does not decode
/// becomes a task that carries the error.
pub fn decode_rows(input: &[u8]) -> (tasks: Vec<CopyTask>)
    ensures
        task_views(tasks@) == tasks_of_rows(csv_rows(input@)),
        rows_numbered(task_views(tasks@)),
        tasks@.len() == csv_rows(input@).len(),
{
    let rows = read_rows(input);
    number_rows(&rows)
}

} // verus!
