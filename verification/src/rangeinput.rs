//! The values of a range write as text: JSON read with `serde_json`, or
//! comma- or tab-separated records.
use vstd::prelude::*;
use crate::error::{CliError, CliResult, ErrorKind};
use crate::matrix::{
    csv_run, csv_start, json_matrix_spec, matrix_view, opt_string_view, parse_xlsx_delimited_matrix,
    parse_xlsx_range_set_json_value_owned, text_cell, JsonValue, XlsxRangeSetMatrix,
};
use crate::text::{concat2, str_eq, to_string};
use crate::cellbatch::{batch_entries_from_value, batch_entries_spec, entries_view, XlsxCellsSetBatchEntry};

verus! {

/// The value `serde_json::from_str::<serde_json::Value>` reads from a text,
/// as a [`JsonValue`], or `None` where it refuses the text.
pub uninterp spec fn serde_json_value(data: Seq<char>) -> Option<JsonValue>;

/// `serde_json::Value`, carried through as is.
#[verifier::external_type_specification]
#[verifier::external_body]
pub struct ExSerdeJsonValue(serde_json::Value);

/// Converts a `serde_json::Value` variant for variant: a number becomes the
/// text its `Display` writes, an object its members in the map's order.
#[verifier::external_body]
fn json_value_from_serde(v: serde_json::Value) -> JsonValue {
    match v {
        serde_json::Value::Null => JsonValue::Null,
        serde_json::Value::Bool(b) => JsonValue::Bool(b),
        serde_json::Value::Number(n) => JsonValue::Number(n.to_string()),
        serde_json::Value::String(s) => JsonValue::Str(s),
        serde_json::Value::Array(a) => JsonValue::Array(a.into_iter().map(json_value_from_serde).collect()),
        serde_json::Value::Object(o) => JsonValue::Object(o.into_iter().map(|(k, x)| (k, json_value_from_serde(x))).collect()),
    }
}

/// `serde_json::from_str` of the text into a `serde_json::Value`, converted
/// to a [`JsonValue`]; the error is `serde_json::Error`'s text. Claimed: the
/// value is what `serde_json_value` names for the text, and the call fails
/// exactly where that name is `None`. What the error text says is not
/// claimed.
#[verifier::external_body]
fn parse_json_text(data: &str) -> (r: Result<JsonValue, String>)
    ensures
        r is Ok <==> serde_json_value(data@) is Some,
        r is Ok ==> r->Ok_0 == serde_json_value(data@)->Some_0,
{
    match serde_json::from_str::<serde_json::Value>(data) {
        Ok(v) => Ok(json_value_from_serde(v)),
        Err(e) => Err(e.to_string()),
    }
}

/// The matrix a range write's values give in a data format.
pub open spec fn range_set_matrix_ok(
    data: Seq<char>,
    data_format: Seq<char>,
    m: XlsxRangeSetMatrix,
) -> bool {
    if data_format == "json"@ {
        match serde_json_value(data) {
            Some(raw) => match json_matrix_spec(raw) {
                Some(v) => opt_string_view(m.range) == v.0 && opt_string_view(m.null_policy) == v.1 && m.major_dimension@ == v.2
                    && matrix_view(m.rows@) == v.3,
                None => false,
            },
            None => false,
        }
    } else {
        let delimiter = if data_format == "csv"@ { ',' } else { '\t' };
        match csv_run(data, delimiter, 0, csv_start()) {
            Some(recs) => m.range is None && m.null_policy is None && m.major_dimension@ == "rows"@ && matrix_view(m.rows@)
                == Seq::new(recs.len(), |i: int| Seq::new(recs[i].len(), |j: int| text_cell(recs[i][j]))),
            None => false,
        }
    }
}

/// Whether the values parse in the data format.
pub open spec fn range_set_matrix_parses(data: Seq<char>, data_format: Seq<char>) -> bool {
    if data_format == "json"@ {
        match serde_json_value(data) {
            Some(raw) => json_matrix_spec(raw) is Some,
            None => false,
        }
    } else if data_format == "csv"@ {
        csv_run(data, ',', 0, csv_start()) is Some
    } else if data_format == "tsv"@ {
        csv_run(data, '\t', 0, csv_start()) is Some
    } else {
        false
    }
}

/// `parse_xlsx_range_set_matrix`: the matrix of a range write from its
/// values as `json`, `csv` or `tsv` text; any other format is refused.
pub fn parse_xlsx_range_set_matrix(data: &str, data_format: &str) -> (r: CliResult<XlsxRangeSetMatrix>)
    ensures
        r is Ok <==> range_set_matrix_parses(data@, data_format@),
        r is Ok ==> range_set_matrix_ok(data@, data_format@, r->Ok_0),
        r is Err ==> r->Err_0.kind == ErrorKind::InvalidArgs,
{
    if str_eq(data_format, "json") {
        match parse_json_text(data) {
            Ok(raw) => parse_xlsx_range_set_json_value_owned(raw),
            Err(text) => Err(CliError::invalid_args(concat2("invalid json values: ", text.as_str()))),
        }
    } else if str_eq(data_format, "csv") {
        parse_xlsx_delimited_matrix(data, ',')
    } else if str_eq(data_format, "tsv") {
        parse_xlsx_delimited_matrix(data, '\t')
    } else {
        let q = crate::text::debug_quoted(data_format);
        let msg = crate::text::concat3("invalid data format ", q.as_str(), " (must be json, csv, or tsv)");
        Err(CliError::invalid_args(msg))
    }
}

/// The entries of a cells batch given as JSON, from `--cells` or the text
/// of `--cells-file` (exactly one of them), or `None` where refused.
pub open spec fn batch_json_spec(cells: Option<&str>, file_text: Option<&str>) -> Option<
    Seq<(Seq<char>, Seq<char>, Seq<char>)>,
> {
    if cells is Some == file_text is Some {
        None
    } else {
        let data = match cells {
            Some(c) => c@,
            None => file_text->Some_0@,
        };
        match serde_json_value(data) {
            None => None,
            Some(v) => batch_entries_spec(v),
        }
    }
}

/// `resolve_xlsx_cells_set_batch_assignments`, the file already read: the
/// entries of a cells batch from its JSON text.
pub fn resolve_xlsx_cells_set_batch_entries(cells: Option<&str>, file_text: Option<&str>) -> (r: CliResult<
    Vec<XlsxCellsSetBatchEntry>,
>)
    ensures
        match batch_json_spec(cells, file_text) {
            Some(v) => r is Ok && entries_view(r->Ok_0@) == v,
            None => r is Err && r->Err_0.kind == ErrorKind::InvalidArgs,
        },
{
    let data = match (cells, file_text) {
        (Some(c), None) => c,
        (None, Some(t)) => t,
        _ => {
            return Err(CliError::invalid_args(to_string("must specify exactly one of --cells or --cells-file")));
        },
    };
    match parse_json_text(data) {
        Ok(v) => batch_entries_from_value(&v),
        Err(e) => Err(CliError::invalid_args(concat2("invalid cells JSON: ", e.as_str()))),
    }
}

} // verus!
