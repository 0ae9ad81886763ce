use ooxml_xlsx::cellref::RangeBounds;
use ooxml_xlsx::error::ErrorKind;
use ooxml_xlsx::mutation::XlsxMatrixCell;
use ooxml_xlsx::rangeset::set_xlsx_range_in_sheet_xml;
use ooxml_xlsx::sheetxml::{
    clear_xlsx_cells_in_sheet_xml, keyed_put, keyed_take, parse_xlsx_cell_spans, parse_xlsx_row_spans,
    rebuild_xlsx_sheet_data, reject_xlsx_merged_cell_intersection, render_xlsx_row, xlsx_cell_exists_in_sheet_xml,
    xlsx_cell_xml_has_formula, xlsx_sheet_data_span, xlsx_used_range_from_cell_refs,
};

const SHEET: &str = r#"<worksheet><dimension ref="A1:B2"/><sheetData><row r="1" spans="1:2"><c r="A1" t="s"><v>0</v></c><c r="B1" s="3"><f>SUM(1,2)</f><v>3</v></c></row><row r="2"><c r="A2"><v>7</v></c></row></sheetData><mergeCells count="1"><mergeCell ref="D4:E5"/></mergeCells></worksheet>"#;

fn cell(kind: &str, value: &str) -> XlsxMatrixCell {
    XlsxMatrixCell { kind: kind.to_string(), value: value.to_string(), formula: String::new(), null: false }
}

fn null_cell() -> XlsxMatrixCell {
    XlsxMatrixCell { kind: "empty".to_string(), value: String::new(), formula: String::new(), null: true }
}

#[test]
fn sheet_data_span_finds_the_block() {
    let span = xlsx_sheet_data_span(SHEET).unwrap().unwrap();
    assert_eq!(&SHEET[span.start..span.open_end], "<sheetData>");
    assert_eq!(&SHEET[span.close_start..span.end], "</sheetData>");
    assert!(!span.empty);
    let empty = xlsx_sheet_data_span("<worksheet><sheetData/></worksheet>").unwrap().unwrap();
    assert!(empty.empty);
    assert_eq!(empty.open_end, empty.end);
    assert!(xlsx_sheet_data_span("<worksheet/>").unwrap().is_none());
    let open = xlsx_sheet_data_span("<worksheet><sheetData><row r=\"1\"/>").unwrap_err();
    assert_eq!(open.kind, ErrorKind::Unexpected);
}

#[test]
fn rows_and_cells_are_read_by_number() {
    let span = xlsx_sheet_data_span(SHEET).unwrap();
    let rows = parse_xlsx_row_spans(SHEET, span).unwrap();
    assert_eq!(rows.len(), 2);
    assert_eq!(rows[0].row, 1);
    assert_eq!(rows[0].cells.len(), 2);
    assert_eq!(rows[0].cells[1].col, 2);
    assert!(rows[0].cells[1].has_formula);
    assert!(!rows[0].cells[0].has_formula);
    assert_eq!(rows[1].cells[0].xml, r#"<c r="A2"><v>7</v></c>"#);
    assert_eq!(&SHEET[rows[1].start..rows[1].end], r#"<row r="2"><c r="A2"><v>7</v></c></row>"#);
    let cells = parse_xlsx_cell_spans(r#"<row r="1"><c r="B1"/><c r="A1"/><c r="B1" s="2"/></row>"#).unwrap();
    assert_eq!(cells.len(), 2);
    assert_eq!(cells[0].col, 1);
    assert_eq!(cells[1].xml, r#"<c r="B1" s="2"/>"#);
    let bad = parse_xlsx_cell_spans(r#"<row><c r="1A"/></row>"#).unwrap_err();
    assert_eq!(bad.kind, ErrorKind::InvalidArgs);
}

#[test]
fn formula_detection() {
    assert!(xlsx_cell_xml_has_formula("<c r=\"A1\"><f>1+1</f></c>"));
    assert!(xlsx_cell_xml_has_formula("<x:c><x:f/></x:c>"));
    assert!(!xlsx_cell_xml_has_formula("<c r=\"A1\"><v>2</v></c>"));
}

#[test]
fn rows_are_rendered_with_their_attributes() {
    let span = xlsx_sheet_data_span(SHEET).unwrap();
    let rows = parse_xlsx_row_spans(SHEET, span).unwrap();
    let mut cells = Vec::new();
    keyed_put(&mut cells, 2, "<c r=\"B1\"/>".to_string());
    keyed_put(&mut cells, 1, "<c r=\"A1\"/>".to_string());
    assert_eq!(render_xlsx_row(1, Some(&rows[0]), &cells), r#"<row r="1"><c r="A1"/><c r="B1"/></row>"#);
    keyed_take(&mut cells, 1);
    assert_eq!(render_xlsx_row(9, None, &cells), r#"<row r="9"><c r="B1"/></row>"#);
}

#[test]
fn rebuild_puts_new_rows_in_number_order() {
    let span = xlsx_sheet_data_span(SHEET).unwrap();
    let rows = parse_xlsx_row_spans(SHEET, span).unwrap();
    let mut changed = Vec::new();
    keyed_put(&mut changed, 2, "<row r=\"2\"/>".to_string());
    keyed_put(&mut changed, 5, "<row r=\"5\"/>".to_string());
    let out = rebuild_xlsx_sheet_data(SHEET, span, &rows, &changed).unwrap();
    assert!(out.contains(r#"</row><row r="2"/><row r="5"/></sheetData>"#));
    assert!(!out.contains("A2"));
    let none = rebuild_xlsx_sheet_data(SHEET, span, &rows, &Vec::new()).unwrap();
    assert_eq!(none, SHEET);
    let bare = "<worksheet></worksheet>";
    let made = rebuild_xlsx_sheet_data(bare, None, &Vec::new(), &changed).unwrap();
    assert_eq!(made, r#"<worksheet><sheetData><row r="2"/><row r="5"/></sheetData></worksheet>"#);
    let broken = rebuild_xlsx_sheet_data("<worksheet>", None, &Vec::new(), &changed).unwrap_err();
    assert_eq!(broken.kind, ErrorKind::Unexpected);
}

#[test]
fn merged_cells_and_used_range() {
    let inside = RangeBounds { start_col: 5, start_row: 5, end_col: 6, end_row: 6 };
    assert_eq!(reject_xlsx_merged_cell_intersection(SHEET, inside).unwrap_err().kind, ErrorKind::InvalidArgs);
    let outside = RangeBounds { start_col: 1, start_row: 1, end_col: 3, end_row: 3 };
    assert!(reject_xlsx_merged_cell_intersection(SHEET, outside).is_ok());
    assert_eq!(xlsx_used_range_from_cell_refs(SHEET), Some("A1:B2".to_string()));
    assert_eq!(xlsx_used_range_from_cell_refs("<worksheet/>"), None);
}

#[test]
fn cell_existence() {
    assert!(xlsx_cell_exists_in_sheet_xml(SHEET, "B1").unwrap());
    assert!(!xlsx_cell_exists_in_sheet_xml(SHEET, "B2").unwrap());
    assert_eq!(xlsx_cell_exists_in_sheet_xml(SHEET, "nope").unwrap_err().kind, ErrorKind::InvalidArgs);
}

#[test]
fn clearing_keeps_styled_cells_empty() {
    let range = RangeBounds { start_col: 1, start_row: 1, end_col: 2, end_row: 1 };
    let (out, stats) = clear_xlsx_cells_in_sheet_xml(SHEET, range).unwrap();
    assert_eq!(stats.cleared, 2);
    assert_eq!(stats.refs, vec!["A1", "B1"]);
    assert!(stats.formula_invalidated);
    assert!(out.contains(r#"<row r="1"><c r="B1" s="3"/></row>"#));
    assert!(out.contains(r#"<dimension ref="A1:B2"/>"#));
}

#[test]
fn range_write_reads_back() {
    let range = RangeBounds { start_col: 1, start_row: 3, end_col: 2, end_row: 3 };
    let rows = vec![vec![cell("string", " hi & bye"), cell("number", " 42 ")]];
    let oks = vec![vec![false, true]];
    let (out, stats) = set_xlsx_range_in_sheet_xml(SHEET, range, &rows, &oks, "skip", false).unwrap();
    assert_eq!(stats.updated, 2);
    assert_eq!(stats.created, 2);
    assert!(out.contains(
        r#"<row r="3"><c r="A3" t="inlineStr"><is><t xml:space="preserve"> hi &amp; bye</t></is></c><c r="B3"><v>42</v></c></row>"#
    ));
    assert!(out.contains(r#"<dimension ref="A1:B3"/>"#));
    assert!(xlsx_cell_exists_in_sheet_xml(&out, "B3").unwrap());
}

#[test]
fn range_write_guards_formulas_and_nulls() {
    let over = RangeBounds { start_col: 2, start_row: 1, end_col: 2, end_row: 1 };
    let rows = vec![vec![cell("bool", "TRUE")]];
    let oks = vec![vec![false]];
    let err = set_xlsx_range_in_sheet_xml(SHEET, over, &rows, &oks, "skip", false).unwrap_err();
    assert_eq!(err.kind, ErrorKind::InvalidArgs);
    let (out, stats) = set_xlsx_range_in_sheet_xml(SHEET, over, &rows, &oks, "skip", true).unwrap();
    assert!(stats.formula_invalidated);
    assert!(out.contains(r#"<c r="B1" s="3" t="b"><v>1</v></c>"#));
    let nulls = vec![vec![null_cell()]];
    let (same, skipped) = set_xlsx_range_in_sheet_xml(SHEET, over, &nulls, &oks, " SKIP ", false).unwrap();
    assert_eq!(skipped.skipped, 1);
    assert_eq!(same, SHEET);
    let (cleared, c) = set_xlsx_range_in_sheet_xml(SHEET, over, &nulls, &oks, "clear", true).unwrap();
    assert_eq!(c.cleared, 1);
    assert!(cleared.contains(r#"<c r="B1" s="3"/>"#));
    let bad = vec![vec![cell("number", "abc")]];
    let at_c = RangeBounds { start_col: 3, start_row: 1, end_col: 3, end_row: 1 };
    assert_eq!(
        set_xlsx_range_in_sheet_xml(SHEET, at_c, &bad, &oks, "skip", false).unwrap_err().kind,
        ErrorKind::InvalidArgs
    );
    let merged = RangeBounds { start_col: 4, start_row: 4, end_col: 4, end_row: 4 };
    assert_eq!(
        set_xlsx_range_in_sheet_xml(SHEET, merged, &rows, &oks, "skip", false).unwrap_err().kind,
        ErrorKind::InvalidArgs
    );
}
