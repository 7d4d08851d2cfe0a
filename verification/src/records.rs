//! Delimited files as records of text fields, read by `csv`.

use vstd::prelude::*;
use crate::titles::texts;

verus! {

/// What a record stands for: its fields, or nothing where the record could
/// not be read.
pub open spec fn record_view(record: Option<Vec<String>>) -> Option<Seq<Seq<char>>> {
    match record {
        Some(fields) => Some(texts(fields@)),
        None => None,
    }
}

/// What a sequence of records stands for.
pub open spec fn records_view(records: Seq<Option<Vec<String>>>) -> Seq<Option<Seq<Seq<char>>>> {
    records.map_values(|record: Option<Vec<String>>| record_view(record))
}

/// The records that `csv` reads from `data`, a file with a header row, with
/// the given field delimiter and with or without quote processing: one
/// entry for each record behind the header, in the order of the file; the
/// fields of the record, or nothing where `csv` reports an error for it.
pub uninterp spec fn csv_records(data: Seq<u8>, delimiter: u8, quoting: bool) -> Seq<
    Option<Seq<Seq<char>>>,
>;

/// Reads the records of a delimited file that starts with a header row.
///
/// Builds a `csv::ReaderBuilder` with headers, the given delimiter and quote
/// processing switched as asked, and walks `csv::Reader::into_records` over
/// `data`: the header row is left out, a record that `csv` reads comes as
/// its fields, and one for which `csv` reports an error (a number of fields
/// other than the header's, text that is not UTF-8) comes as `None`.
#[verifier::external_body]
pub(crate) fn read_records(data: &[u8], delimiter: u8, quoting: bool) -> (records: Vec<
    Option<Vec<String>>,
>)
    ensures
        records_view(records@) == csv_records(data@, delimiter, quoting),
{
    csv::ReaderBuilder::new()
        .has_headers(true)
        .delimiter(delimiter)
        .quoting(quoting)
        .from_reader(data)
        .into_records()
        .map(|record| record.ok().map(|fields| fields.iter().map(String::from).collect()))
        .collect()
}

} // verus!
