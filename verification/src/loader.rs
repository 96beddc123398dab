use vstd::prelude::*;
use crate::errors::SignalError;
use crate::fixed::RAW_LIMIT;
use crate::parse::field_valid;
use crate::parse::micro_value;
use crate::parse::parse_field;

verus! {

/// What the csv reader extracts from the raw bytes of a sample file: the
/// first field of every record after the header row, or nothing when the
/// bytes are not a well-formed csv text.
pub uninterp spec fn csv_first_fields(data: Seq<u8>) -> Option<Seq<Seq<u8>>>;

/// The byte contents of a batch of extracted fields.
pub open spec fn field_views(fields: Seq<Vec<u8>>) -> Seq<Seq<u8>> {
    fields.map_values(|f: Vec<u8>| f@)
}

/// Every field is a decimal number the parser accepts.
pub open spec fn fields_valid(fs: Seq<Seq<u8>>) -> bool {
    forall|i: int| 0 <= i < fs.len() ==> field_valid(#[trigger] fs[i])
}

/// The raw fixed-point samples a batch of valid fields denotes, in order.
pub open spec fn raw_seq(fs: Seq<Seq<u8>>) -> Seq<i64> {
    Seq::new(fs.len(), |i: int| micro_value(fs[i]) as i64)
}

/// Relies on csv::Reader::from_reader and csv::StringRecord::get: with the
/// default configuration the reader takes the first row as a header, hands
/// out each following record in order, and get(0) is its first field; a
/// read error (malformed quoting or invalid utf-8) ends the extraction.
#[verifier::external_body]
pub(crate) fn extract_first_fields(data: &[u8]) -> (r: Option<Vec<Vec<u8>>>)
    ensures
        r is Some <==> csv_first_fields(data@) is Some,
        r matches Some(v) ==> Some(field_views(v@)) == csv_first_fields(data@),
{
    let mut rdr = csv::Reader::from_reader(data);
    let mut out: Vec<Vec<u8>> = Vec::new();
    for rec in rdr.records() {
        match rec {
            Ok(r) => out.push(r.get(0).unwrap_or("").as_bytes().to_vec()),
            Err(_) => return None,
        }
    }
    Some(out)
}

/// Parse every extracted field as a fixed-point sample. Succeeds exactly
/// when every field is a decimal number the parser accepts, and then yields
/// one raw sample per field, in order.
pub fn parse_fields(fields: &Vec<Vec<u8>>) -> (r: Result<Vec<i64>, SignalError>)
    ensures
        r is Ok <==> (forall|i: int| 0 <= i < fields@.len() ==> field_valid(#[trigger] fields@[i]@)),
        r matches Ok(v) ==> {
            &&& v@.len() == fields@.len()
            &&& forall|i: int|
                0 <= i < fields@.len() ==> #[trigger] v@[i] as int == micro_value(fields@[i]@)
            &&& forall|i: int| 0 <= i < v@.len() ==> -RAW_LIMIT <= #[trigger] v@[i] <= RAW_LIMIT
        },
        r is Err ==> r == Err::<Vec<i64>, SignalError>(SignalError::ParseError),
{
    let mut out: Vec<i64> = Vec::new();
    let mut i: usize = 0;
    while i < fields.len()
        invariant
            0 <= i <= fields@.len(),
            out@.len() == i,
            forall|j: int| 0 <= j < i ==> field_valid(#[trigger] fields@[j]@),
            forall|j: int| 0 <= j < i ==> #[trigger] out@[j] as int == micro_value(fields@[j]@),
            forall|j: int| 0 <= j < i ==> -RAW_LIMIT <= #[trigger] out@[j] <= RAW_LIMIT,
        decreases fields@.len() - i,
    {
        match parse_field(&fields[i]) {
            Ok(v) => {
                out.push(v);
            },
            Err(e) => {
                return Err(e);
            },
        }
        i = i + 1;
    }
    Ok(out)
}

} // verus!
