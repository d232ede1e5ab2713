use vstd::prelude::*;

verus! {

#[verifier::external_type_specification]
#[verifier::external_body]
pub struct ExCsvError(::csv::Error);

/// What reading `text` with a default `csv::Reader` gives through `records()`,
/// up to its first error: the records read before it (the header line is not
/// one of them), each as its fields, and whether an error ended the reading.
pub uninterp spec fn csv_read(text: Seq<char>) -> (Seq<Seq<Seq<char>>>, bool);

/// Reads `text` with `csv::Reader::from_reader` and walks `records()` up to the
/// first error, returning the records read before it and that error. The
/// contract claims only that the outcome is the one named by `csv_read(text@)`.
#[verifier::external_body]
pub(crate) fn read_csv_records(text: &str) -> (res: (Vec<Vec<String>>, Option<::csv::Error>))
    ensures
        res.0.deep_view() == csv_read(text@).0,
        res.1 is Some == csv_read(text@).1,
{
    let mut records: Vec<Vec<String>> = Vec::new();
    for result in ::csv::Reader::from_reader(text.as_bytes()).records() {
        match result {
            Ok(record) => records.push(record.iter().map(|field| field.to_string()).collect()),
            Err(error) => return (records, Some(error)),
        }
    }
    (records, None)
}

} // verus!
