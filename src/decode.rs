//! Decoding of the delimited text that the remote script writes.
use vstd::prelude::*;
use crate::error::QueryError;
use crate::table::{QueryResult, decode_table, decodes_to, records_view, strings_view};

verus! {

/// The header record and the data records that a CSV reader finds in `bytes`,
/// or `None` where the bytes are not valid CSV.
pub uninterp spec fn csv_records(bytes: Seq<u8>) -> Option<(Seq<Seq<char>>, Seq<Seq<Seq<char>>>)>;

/// Relies on `csv::Reader`: reads the header record, then every data record, of
/// `bytes`, and fails on malformed input.
#[verifier::external_body]
fn read_csv(bytes: &[u8]) -> (r: Option<(Vec<String>, Vec<Vec<String>>)>)
    ensures
        match r {
            Some(t) => csv_records(bytes@) == Some((strings_view(t.0@), records_view(t.1@))),
            None => csv_records(bytes@) is None,
        },
{
    let mut rdr = csv::Reader::from_reader(bytes);
    let headers: Vec<String> = rdr.headers().ok()?.iter().map(|h| h.to_string()).collect();
    let mut records: Vec<Vec<String>> = Vec::new();
    for rec in rdr.records() {
        records.push(rec.ok()?.iter().map(|f| f.to_string()).collect());
    }
    Some((headers, records))
}

/// The typed result held in the decompressed result file: columns in header
/// order, one row per record, each field typed by `infer`. Bytes that are not
/// valid delimited text are an integrity error, never an empty result.
pub fn decode_csv(bytes: &Vec<u8>) -> (r: Result<QueryResult, QueryError>)
    ensures
        match csv_records(bytes@) {
            Some((h, recs)) => r matches Ok(t) && decodes_to(t, h, recs),
            None => r matches Err(e) && e.is_integrity(),
        },
{
    match read_csv(bytes.as_slice()) {
        Some((headers, records)) => Ok(decode_table(&headers, &records)),
        None => Err(QueryError::Integrity("result file is not valid delimited text".to_string())),
    }
}

} // verus!
