//! The framing of a catalog file: one line that is dropped, then
//! comma-separated rows.

use vstd::prelude::*;
use crate::ascii::NEWLINE;
use crate::bytes::find_byte;
use crate::seqs::first_index_of;

verus! {

/// The error of the CSV reader.
#[verifier::external_type_specification]
#[verifier::external_body]
pub struct ExCsvError(csv::Error);

/// The rows that the CSV reader finds in `data`, each a sequence of fields,
/// or `None` where it stops on an error: a row whose number of fields is not
/// that of the first row, or a field that is not UTF-8.
pub uninterp spec fn csv_rows(data: Seq<u8>) -> Option<Seq<Seq<Seq<u8>>>>;

/// Reads `data` with `csv::Reader::records`, on a reader that
/// `csv::ReaderBuilder` makes with its default settings but for
/// `has_headers(false)`, so that the first row comes out like the others. The
/// result is that of reading to the end, or the first error. Claimed: it
/// depends on `data` alone; nothing else is proved or assumed of it.
#[verifier::external_body]
pub(crate) fn read_rows(data: &[u8]) -> (r: Result<Vec<Vec<Vec<u8>>>, csv::Error>)
    ensures
        match r {
            Ok(rows) => csv_rows(data@) == Some(rows.deep_view()),
            Err(_) => csv_rows(data@).is_none(),
        },
{
    let mut reader = csv::ReaderBuilder::new().has_headers(false).from_reader(data);
    let mut rows = Vec::new();
    for record in reader.records() {
        rows.push(record?.iter().map(|field| field.as_bytes().to_vec()).collect());
    }
    Ok(rows)
}

/// What follows the first line of `data`: the bytes after the first newline,
/// none where `data` holds no newline.
pub open spec fn after_first_line(data: Seq<u8>) -> Seq<u8> {
    let end = first_index_of(data, NEWLINE);
    if end < data.len() {
        data.skip(end + 1)
    } else {
        Seq::empty()
    }
}

/// Drops the first line of `data`, whatever it holds.
pub fn skip_first_line(data: &[u8]) -> (rest: &[u8])
    ensures
        rest@ == after_first_line(data@),
{
    let end: usize = find_byte(data, 0, data.len(), NEWLINE);
    assert(data@.subrange(0, data@.len() as int) =~= data@);
    let from: usize = if end < data.len() {
        end + 1
    } else {
        end
    };
    let rest = vstd::slice::slice_subrange(data, from, data.len());
    rest
}

} // verus!
