use vstd::prelude::*;

use crate::csv_codec::decode_records;
use crate::csv_codec::lemma_decode_agrees_with_parse;
use crate::csv_codec::spec_decode;
use crate::csv_codec::spec_parse_csv;
use crate::csv_codec::spec_retained;
use crate::csv_codec::CsvError;
use crate::json::records_to_json;
use crate::json::spec_records_json;

verus! {

/// The JSON document owed for a CSV document: the rendering of its decoded
/// records when decoding succeeds, and decoding's fault otherwise.
pub open spec fn spec_convert(s: Seq<char>) -> Result<Seq<char>, CsvError> {
    match spec_decode(s) {
        Ok(rows) => Ok(spec_records_json(rows)),
        Err(e) => Err(e),
    }
}

/// Converts a whole CSV document into its pretty-printed JSON document.
///
/// The first row is the column-header row and is discarded; every later row
/// must hold exactly seventeen fields and becomes one JSON object. The
/// first malformed row fails the whole conversion, with no partial output.
pub fn convert_csv_to_json(csv_text: &str) -> (r: Result<String, CsvError>)
    ensures
        (r is Ok) == (spec_convert(csv_text@) is Ok),
        r matches Ok(out) ==> spec_convert(csv_text@) == Ok::<Seq<char>, CsvError>(out@),
        r matches Err(e) ==> spec_convert(csv_text@) == Err::<Seq<char>, CsvError>(e),
{
    match decode_records(csv_text) {
        Err(e) => Err(e),
        Ok(recs) => Ok(records_to_json(&recs)),
    }
}

/// Law: one output element per retained input row. When a document decodes,
/// the decoded records are exactly the rows after the header, in input
/// order — none is added, dropped or reordered — so the rendered array
/// holds as many objects as the input had data rows.
pub proof fn lemma_element_count(s: Seq<char>)
    ensures
        spec_decode(s) matches Ok(rows) ==> (spec_parse_csv(s) matches Some(all) && rows
            == spec_retained(all) && rows.len() == (if all.len() == 0 {
            0int
        } else {
            all.len() - 1
        })),
{
    lemma_decode_agrees_with_parse(s, true);
}

/// Law: an empty input document converts to the empty JSON array.
pub proof fn lemma_empty_input()
    ensures
        spec_convert(Seq::<char>::empty()) == Ok::<Seq<char>, CsvError>("[]"@),
{
    let rows = Seq::<Seq<Seq<char>>>::empty();
    assert(spec_decode(Seq::<char>::empty()) == Ok::<Seq<Seq<Seq<char>>>, CsvError>(rows));
    assert(spec_records_json(rows) == "[]"@);
}

/// Law: a document holding only a header row converts to the empty JSON
/// array — the one row is discarded and no record remains.
pub proof fn lemma_header_only(s: Seq<char>)
    requires
        spec_parse_csv(s) matches Some(rows) && rows.len() == 1,
    ensures
        spec_convert(s) == Ok::<Seq<char>, CsvError>("[]"@),
{
    lemma_decode_agrees_with_parse(s, true);
    if let Some(all) = spec_parse_csv(s) {
        let data = spec_retained(all);
        assert(data.len() == 0);
        assert(spec_decode(s) == Ok::<Seq<Seq<Seq<char>>>, CsvError>(data));
        assert(spec_records_json(data) == "[]"@);
    }
}

/// Law: a malformed document — a quoting fault anywhere, or a retained row
/// with the wrong field count — fails the whole conversion with the same
/// fault, so no JSON document is produced at all, in particular none with
/// partial data.
pub proof fn lemma_malformed_no_output(s: Seq<char>)
    ensures
        (spec_decode(s) is Err) == (spec_convert(s) is Err),
        spec_decode(s) matches Err(e) ==> spec_convert(s) == Err::<Seq<char>, CsvError>(e),
{
}

} // verus!
