//! The two calls into the csv crate: parsing a buffer of CSV text into its
//! records, and serialising records back into CSV text. Both results are
//! functions of the bytes and the delimiter alone, so each is given a name
//! that the rest of the library's contracts speak of.

use vstd::prelude::*;

verus! {

/// The records that the csv crate reads from `data` with the given field
/// delimiter — every record, in order, each a sequence of byte cells — or
/// `None` when the text is malformed (for instance, a cell that is not
/// valid UTF-8).
pub uninterp spec fn csv_parse(data: Seq<u8>, delim: u8) -> Option<Seq<Seq<Seq<u8>>>>;

/// The CSV text that the csv crate writes for `rows` with the given field
/// delimiter: one line per record, cells quoted exactly where the quoting
/// rules require it.
pub uninterp spec fn csv_encode(rows: Seq<Seq<Seq<u8>>>, delim: u8) -> Seq<u8>;

/// Relies on csv::Reader::records (reading from an in-memory slice, with
/// headers off and flexible record lengths): the records read are a
/// function of the buffer and the delimiter alone, and a malformed buffer
/// is reported as an error rather than a panic.
#[verifier::external_body]
pub(crate) fn parse_csv(data: &Vec<u8>, delim: u8) -> (r: Option<Vec<Vec<Vec<u8>>>>)
    ensures
        match r {
            Some(rows) => csv_parse(data@, delim) == Some(rows.deep_view()),
            None => csv_parse(data@, delim) is None,
        },
{
    let mut rdr = csv::ReaderBuilder::new()
        .has_headers(false)
        .flexible(true)
        .delimiter(delim)
        .from_reader(data.as_slice());
    let mut rows: Vec<Vec<Vec<u8>>> = Vec::new();
    for rec in rdr.records() {
        match rec {
            Ok(sr) => rows.push(sr.iter().map(|f| f.as_bytes().to_vec()).collect()),
            Err(_) => return None,
        }
    }
    Some(rows)
}

/// Relies on csv::Writer::write_byte_record into an in-memory buffer: the
/// bytes written are a function of the records and the delimiter alone.
/// With flexible record lengths and a `Vec<u8>` sink (whose writes are
/// infallible), no call in the body can fail.
#[verifier::external_body]
pub(crate) fn encode_csv(rows: &Vec<Vec<Vec<u8>>>, delim: u8) -> (r: Vec<u8>)
    ensures
        r@ == csv_encode(rows.deep_view(), delim),
{
    let mut wtr = csv::WriterBuilder::new()
        .flexible(true)
        .delimiter(delim)
        .from_writer(Vec::new());
    for row in rows {
        let rec: csv::ByteRecord = row.iter().collect();
        let _ = wtr.write_byte_record(&rec);
    }
    wtr.into_inner().unwrap_or_default()
}

} // verus!
