use ooxml_xlsx::cellref::parse_range;
use ooxml_xlsx::error::CliResult;
use ooxml_xlsx::rangeinput::parse_xlsx_range_set_matrix;
use ooxml_xlsx::xmlscan::{shared_strings_for_indices, sheet_raw_cells_in_range, RawCellValue};

fn parse_sheet(xml: &str, range: &str, limit: Option<u64>) -> CliResult<Vec<((u32, u32), RawCellValue)>> {
    sheet_raw_cells_in_range(xml, parse_range(range)?, limit).map(|scan| scan.cells)
}

fn at<'a>(cells: &'a [((u32, u32), RawCellValue)], col: u32, row: u32) -> &'a RawCellValue {
    &cells.iter().find(|(k, _)| *k == (col, row)).expect("cell").1
}

#[test]
fn streamed_sheet_reader_handles_prefixed_transitional_and_strict_xml() {
    for namespace in [
        "http://schemas.openxmlformats.org/spreadsheetml/2006/main",
        "http://purl.oclc.org/ooxml/spreadsheetml/main",
    ] {
        let xml = format!(
            r#"<s:worksheet xmlns:s="{namespace}"><s:sheetData><s:row r="1"><s:c r="A1" t="inlineStr"><s:is><s:r><s:t>rich &amp; </s:t></s:r><s:r><s:t>text</s:t></s:r></s:is></s:c><s:c r="B1"><s:f>SUM(1,2)</s:f><s:v>3</s:v></s:c></s:row></s:sheetData></s:worksheet>"#
        );
        let cells = parse_sheet(&xml, "A1:B1", None).expect("streamed worksheet");
        assert_eq!(at(&cells, 1, 1).inline_text, "rich & text");
        assert_eq!(at(&cells, 2, 1).formula, "SUM(1,2)");
        assert_eq!(at(&cells, 2, 1).raw_value, "3");
    }
}

#[test]
fn streamed_sheet_reader_is_ancestry_and_namespace_aware() {
    let xml = r#"<worksheet xmlns="http://schemas.openxmlformats.org/spreadsheetml/2006/main" xmlns:x="urn:foreign"><x:sheetData><x:row><x:c r="A1"><x:v>bad-wrapper</x:v></x:c></x:row></x:sheetData><sheetData><row><x:c r="A1"><x:v>bad-cell</x:v></x:c><c r="A1"><x:v>bad-value</x:v><v>good</v></c></row></sheetData></worksheet>"#;
    let cells = parse_sheet(xml, "A1", None).expect("worksheet");
    assert_eq!(at(&cells, 1, 1).raw_value, "good");
}

#[test]
fn streamed_sheet_reader_preserves_last_duplicate_and_coordinate_prefix() {
    let xml = r#"<worksheet><sheetData><row r="2"><c r="B2"><v>outside-prefix</v></c><c r="A2"><v>row-two</v></c></row><row r="1"><c r="A1"><v>first</v></c><c r="a1"><v>lowercase</v></c><c r="$A$1"><v>absolute</v></c><c r="A1"><v>last</v></c><c r="C1"><v>third</v></c></row></sheetData></worksheet>"#;
    let cells = parse_sheet(xml, "C2:A1", Some(4)).expect("worksheet");
    assert_eq!(at(&cells, 1, 1).raw_value, "last");
    assert_eq!(at(&cells, 1, 2).raw_value, "row-two");
    assert_eq!(at(&cells, 3, 1).raw_value, "third");
    assert!(!cells.iter().any(|(k, _)| *k == (2, 2)));
    assert_eq!(cells.len(), 3);
}

#[test]
fn streamed_sheet_reader_fails_on_malformed_tail() {
    let xml = r#"<worksheet><sheetData><row><c r="A1"><v>1</v></c></row></sheetData><broken"#;
    let err = parse_sheet(xml, "A1", None).expect_err("malformed tail must fail");
    assert!(err.message.contains("invalid worksheet XML"));
}

#[test]
fn streamed_shared_strings_are_sparse_rich_and_namespace_aware() {
    let xml = r#"<s:sst xmlns:s="http://purl.oclc.org/ooxml/spreadsheetml/main" xmlns:x="urn:foreign"><s:si><s:t>zero</s:t></s:si><x:si><x:t>does not consume an index</x:t></x:si><s:si><x:t>ignore</x:t><s:r><s:t>want &amp; </s:t></s:r><s:r><s:t>this</s:t></s:r></s:si><s:si><s:t>two</s:t></s:si></s:sst>"#;
    let strings = shared_strings_for_indices(xml, &vec![1]).expect("shared strings");
    assert_eq!(strings, vec![(1, "want & this".to_string())]);
}

#[test]
fn streamed_shared_strings_fail_on_malformed_tail() {
    let xml = r#"<sst><si><t>complete</t></si><broken"#;
    let err = shared_strings_for_indices(xml, &vec![0]).expect_err("malformed shared strings tail must fail");
    assert!(err.message.contains("invalid shared strings XML"));
}

#[test]
fn streamed_json_matrix_matches_the_existing_inline_contract() {
    let input = r#"[[null,"text",1.0,true,{"formula":"SUM(A1:A2)"},{"value":"42","type":"number"}]]"#;
    let inline = parse_xlsx_range_set_matrix(input, "json").expect("inline matrix");
    assert_eq!(inline.range, None);
    assert_eq!(inline.null_policy, None);
    assert_eq!(inline.major_dimension, "rows");
    assert_eq!(inline.rows.len(), 1);
    let row = &inline.rows[0];
    assert_eq!(row.len(), 6);
    assert!(row[0].null);
    assert_eq!((row[1].kind.as_str(), row[1].value.as_str()), ("string", "text"));
    assert_eq!(row[2].kind, "number");
    assert_eq!((row[3].kind.as_str(), row[3].value.as_str()), ("boolean", "true"));
    assert_eq!(row[4].formula, "SUM(A1:A2)");
    assert_eq!((row[5].kind.as_str(), row[5].value.as_str()), ("number", "42"));
}

#[test]
fn streamed_json_object_keeps_range_metadata_and_column_orientation() {
    let input = r#"{
            "range":"A1:B2",
            "nullPolicy":"clear",
            "majorDimension":"columns",
            "values":[["A","B"],[1,2]]
        }"#;
    let inline = parse_xlsx_range_set_matrix(input, "json").expect("object matrix");
    assert_eq!(inline.range.as_deref(), Some("A1:B2"));
    assert_eq!(inline.null_policy.as_deref(), Some("clear"));
    assert_eq!(inline.major_dimension, "columns");
    assert_eq!(inline.rows[0][0].value, "A");
    assert_eq!(inline.rows[0][1].value, "1");
    assert_eq!(inline.rows[1][0].value, "B");
    assert_eq!(inline.rows[1][1].value, "2");
}
