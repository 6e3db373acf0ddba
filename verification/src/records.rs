//! The records of the cointegrated pairs file, read with the `csv` crate.

use vstd::prelude::*;

verus! {

/// What the `csv` crate's default reader (`csv::Reader::from_reader`:
/// comma-separated fields, the first row a header that is not returned,
/// every row as long as the header) yields from the bytes `text`: the fields
/// of each data row in order, or `None` when some row cannot be read.
pub uninterp spec fn csv_records(text: Seq<u8>) -> Option<Seq<Seq<Seq<char>>>>;

/// Reads `text` with `csv::Reader::from_reader` and collects
/// `Reader::records`, each `StringRecord` as its fields; the first record
/// that fails to read gives `None`. The records are `csv_records` of the
/// bytes.
#[verifier::external_body]
fn csv_parse(text: &[u8]) -> (r: Option<Vec<Vec<String>>>)
    ensures
        r is Some <==> csv_records(text@) is Some,
        r matches Some(v) ==> v.deep_view() == csv_records(text@)->Some_0,
{
    let mut reader = csv::Reader::from_reader(text);
    let mut out: Vec<Vec<String>> = Vec::new();
    for record in reader.records() {
        match record {
            Ok(fields) => out.push(fields.iter().map(|f| f.to_string()).collect()),
            Err(_) => return None,
        }
    }
    Some(out)
}

/// The data rows of the pairs file whose bytes are `text`, each as its
/// fields; `None` when the file is not well-formed CSV.
pub fn parse_pair_records(text: &[u8]) -> (r: Option<Vec<Vec<String>>>)
    ensures
        r is Some <==> csv_records(text@) is Some,
        r matches Some(v) ==> v.deep_view() == csv_records(text@)->Some_0,
{
    csv_parse(text)
}

} // verus!
