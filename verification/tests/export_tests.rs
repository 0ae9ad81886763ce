use ooxml_xlsx::cellbatch::{
    apply_xlsx_cells_set, choose_xlsx_cells_set_sheet, xlsx_cells_set_previous, xlsx_cells_set_previous_type,
    xlsx_cells_set_previous_value, CellReadback,
};
use ooxml_xlsx::cellref::{parse_cell_ref, RangeBounds};
use ooxml_xlsx::rangeexport::{decode_xlsx_cell_value, CellMatrixValue};
use ooxml_xlsx::error::ErrorKind;
use ooxml_xlsx::mutation::XlsxCellsSetTarget;
use ooxml_xlsx::names::validate_defined_name;
use ooxml_xlsx::rangeexport::{
    cell_has_number_format, check_range_max_cells, plan_range_export_layout, plan_xlsx_range_export,
    wanted_shared_string_indices, ExportCellFacts,
};
use ooxml_xlsx::sheets::{parse_xlsx_sheet_handle, resolve_sheet_by_sheet_id_unique, WorkbookSheet};
use ooxml_xlsx::text::parse_usize;
use ooxml_xlsx::xmlscan::{RawCellValue, RawRangeScan};

fn bounds(c0: u32, r0: u32, c1: u32, r1: u32) -> RangeBounds {
    RangeBounds { start_col: c0, start_row: r0, end_col: c1, end_row: r1 }
}

fn sheet(name: &str, id: u32, position: u32) -> WorkbookSheet {
    WorkbookSheet {
        name: name.to_string(),
        sheet_id: id,
        position,
        rel_id: format!("rId{}", id),
        state: String::new(),
    }
}

fn raw(t: &str, v: &str) -> RawCellValue {
    RawCellValue {
        cell_type: t.to_string(),
        raw_value: v.to_string(),
        inline_text: String::new(),
        formula: String::new(),
        style_index: None,
    }
}

fn facts(col: u32, row: u32, has_formula: bool, has_cell_format: bool) -> ExportCellFacts {
    ExportCellFacts { col, row, has_formula, has_cell_format }
}

#[test]
fn max_cells_limit_is_checked() {
    let b = bounds(1, 1, 3, 4);
    assert!(check_range_max_cells("A1:C4", b, 0).is_ok());
    assert!(check_range_max_cells("A1:C4", b, 12).is_ok());
    let e = check_range_max_cells("A1:C4", b, 11).unwrap_err();
    assert_eq!(e.kind, ErrorKind::InvalidArgs);
    assert_eq!(e.message, "range A1:C4 contains 12 cells, above --max-cells 11");
    let e = check_range_max_cells("A1:C4", b, -1).unwrap_err();
    assert_eq!(e.message, "--max-cells must be >= 0");
}

#[test]
fn export_counts_follow_the_readback_limit() {
    let b = bounds(1, 1, 3, 4);
    let all = plan_xlsx_range_export("A1:C4", b, 0, 0).unwrap();
    assert_eq!((all.total_cells, all.retained_cells, all.truncated), (12, 12, false));
    let some = plan_xlsx_range_export("A1:C4", b, 0, 5).unwrap();
    assert_eq!((some.total_cells, some.retained_cells, some.truncated), (12, 5, true));
    let more = plan_xlsx_range_export("A1:C4", b, 0, 50).unwrap();
    assert_eq!((more.retained_cells, more.truncated), (12, false));
    let e = plan_xlsx_range_export("A1:C4", b, 0, -1).unwrap_err();
    assert_eq!(e.message, "readback cell limit must be >= 0");
    let e = plan_xlsx_range_export("A1:C4", b, 3, -1).unwrap_err();
    assert_eq!(e.message, "range A1:C4 contains 12 cells, above --max-cells 3");
}

#[test]
fn wanted_shared_strings_are_sorted_and_distinct() {
    let scan = RawRangeScan {
        cells: vec![
            ((1, 1), raw("s", "4")),
            ((1, 2), raw("s", "1")),
            ((2, 1), raw("", "4")),
            ((2, 2), raw("s", "4")),
            ((3, 1), raw("s", "x")),
            ((3, 2), raw("s", "+2")),
        ],
        saw_nonzero_style_index: false,
        saw_style_zero: false,
    };
    assert_eq!(wanted_shared_string_indices(&scan), vec![1, 2, 4]);
    assert_eq!(parse_usize("17"), Some(17));
    assert_eq!(parse_usize("-1"), None);
    assert_eq!(parse_usize(""), None);
}

#[test]
fn layout_fills_rows_until_the_limit() {
    let b = bounds(2, 3, 4, 4);
    let cells = vec![facts(3, 3, true, false), facts(2, 4, false, true), facts(4, 3, true, false)];
    let all = plan_range_export_layout(b, 6, &cells, true, false, false, false);
    assert_eq!(all.rows, vec![vec![None, Some(0), Some(2)], vec![Some(1), None, None]]);
    assert_eq!(all.formula_count, 2);
    assert!(all.has_format_readback);
    let cut = plan_range_export_layout(b, 4, &cells, true, false, false, false);
    assert_eq!(cut.rows, vec![vec![None, Some(0), Some(2)], vec![Some(1)]]);
    let short = plan_range_export_layout(b, 2, &cells, true, false, false, false);
    assert_eq!(short.rows, vec![vec![None, Some(0)]]);
    assert_eq!(short.formula_count, 1);
    assert!(!short.has_format_readback);
    let asked_not = plan_range_export_layout(b, 6, &cells, false, true, false, false);
    assert!(!asked_not.has_format_readback);
    let style_zero = plan_range_export_layout(b, 1, &cells, true, false, true, true);
    assert!(style_zero.has_format_readback);
}

#[test]
fn cell_formats_are_recognized() {
    assert!(!cell_has_number_format(None, None, None));
    assert!(!cell_has_number_format(Some(0), Some(0), Some("")));
    assert!(cell_has_number_format(Some(2), None, None));
    assert!(cell_has_number_format(None, Some(14), None));
    assert!(cell_has_number_format(None, None, Some("0.00")));
}

#[test]
fn handle_errors_name_their_cause() {
    let e = parse_xlsx_sheet_handle("H:docx/ws:1").unwrap_err();
    assert_eq!(
        e.message,
        "HANDLE_FORMAT_MISMATCH: handle format tag does not match package format \"xlsx\" (handle \"H:docx/ws:1\")"
    );
    let e = parse_xlsx_sheet_handle(" H:xlsx/ws:7/cell:a:A1 ").unwrap_err();
    assert!(e.message.starts_with("HANDLE_MALFORMED: expected a sheet handle"));
    assert!(e.message.ends_with("(handle \"H:xlsx/ws:7/cell:a:A1\")"));
    let e = parse_xlsx_sheet_handle("H:xlsx/ws:x").unwrap_err();
    assert_eq!(e.message, "HANDLE_MALFORMED: worksheet sheetId must be numeric (handle \"H:xlsx/ws:x\")");
    let e = parse_xlsx_sheet_handle("H:xlsx/ws: ").unwrap_err();
    assert_eq!(e.message, "HANDLE_MALFORMED: empty worksheet sheetId (handle \"H:xlsx/ws:\")");
    assert_eq!(parse_xlsx_sheet_handle("H:xlsx/ws:7").unwrap(), Some(7));
    assert_eq!(parse_xlsx_sheet_handle("Sheet1").unwrap(), None);
}

#[test]
fn sheet_id_errors_tell_stale_from_ambiguous() {
    let sheets = vec![sheet("A", 1, 1), sheet("B", 2, 2), sheet("C", 2, 3)];
    assert_eq!(resolve_sheet_by_sheet_id_unique(&sheets, 1, "x").unwrap().name, "A");
    let e = resolve_sheet_by_sheet_id_unique(&sheets, 9, "H:xlsx/ws:9").unwrap_err();
    assert_eq!(e.kind, ErrorKind::TargetNotFound);
    assert_eq!(e.message, "HANDLE_SCOPE_STALE: worksheet with sheetId 9 was not found (selector \"H:xlsx/ws:9\")");
    let e = resolve_sheet_by_sheet_id_unique(&sheets, 2, "sheetId:2").unwrap_err();
    assert_eq!(e.message, "HANDLE_AMBIGUOUS: worksheet sheetId 2 is not unique (selector \"sheetId:2\")");
}

#[test]
fn r1c1_lookalikes_are_refused_as_names() {
    let e = validate_defined_name("R2C3").unwrap_err();
    assert!(e.contains("R1C1"));
    assert_eq!(e, "defined name \"R2C3\" cannot be an R1C1 cell reference");
    let e = validate_defined_name("B7").unwrap_err();
    assert!(e.contains("A1"));
    assert!(validate_defined_name("Sales_2024").is_ok());
    let e = validate_defined_name("a\"b").unwrap_err();
    assert_eq!(e, "defined name \"a\\\"b\" contains invalid characters");
}

#[test]
fn set_sheet_comes_from_the_handle_or_the_selector() {
    let sheets = vec![sheet("First", 4, 1), sheet("Second", 9, 2)];
    let by_handle = XlsxCellsSetTarget { cell_ref: "B2".to_string(), handle_sheet_id: Some(9), from_handle: true };
    assert_eq!(choose_xlsx_cells_set_sheet(&sheets, &by_handle, Some("1")).unwrap().name, "Second");
    let plain = XlsxCellsSetTarget { cell_ref: "B2".to_string(), handle_sheet_id: None, from_handle: false };
    assert_eq!(choose_xlsx_cells_set_sheet(&sheets, &plain, None).unwrap().name, "First");
    assert_eq!(choose_xlsx_cells_set_sheet(&sheets, &plain, Some("Second")).unwrap().name, "Second");
    let gone = XlsxCellsSetTarget { cell_ref: "B2".to_string(), handle_sheet_id: Some(5), from_handle: true };
    let e = choose_xlsx_cells_set_sheet(&sheets, &gone, None).unwrap_err();
    assert_eq!(e.message, "HANDLE_SCOPE_STALE: worksheet with sheetId 5 was not found (selector \"cell handle\")");
}

const SHEET: &str = "<worksheet xmlns=\"http://schemas.openxmlformats.org/spreadsheetml/2006/main\"><sheetData><row r=\"1\"><c r=\"A1\"><v>5</v></c></row></sheetData></worksheet>";

#[test]
fn setting_a_cell_creates_or_refuses_a_stale_handle() {
    let fresh = XlsxCellsSetTarget { cell_ref: "B1".to_string(), handle_sheet_id: None, from_handle: false };
    let edit = apply_xlsx_cells_set(SHEET, "Data", &fresh, "number", "7", true).unwrap();
    assert!(edit.created);
    assert!(edit.updated_xml.contains("<c r=\"B1\"><v>7</v></c>"));
    let existing = XlsxCellsSetTarget { cell_ref: "A1".to_string(), handle_sheet_id: None, from_handle: false };
    let edit = apply_xlsx_cells_set(SHEET, "Data", &existing, "number", "8", true).unwrap();
    assert!(!edit.created);
    assert!(edit.updated_xml.contains("<v>8</v>"));
    let stale = XlsxCellsSetTarget { cell_ref: "C3".to_string(), handle_sheet_id: Some(1), from_handle: true };
    let e = apply_xlsx_cells_set(SHEET, "Data", &stale, "number", "8", true).unwrap_err();
    assert_eq!(e.kind, ErrorKind::TargetNotFound);
    assert_eq!(
        e.message,
        "HANDLE_STALE: cell C3 no longer exists on sheet \"Data\"; row/column structure may have shifted"
    );
}

fn cell(kind: &str, display: &str, raw_value: &str, formula: &str) -> CellReadback {
    CellReadback {
        kind: kind.to_string(),
        display_value: display.to_string(),
        raw_value: raw_value.to_string(),
        formula: formula.to_string(),
        has_formula: !formula.is_empty(),
    }
}

#[test]
fn previous_values_are_reported_as_set_would_write_them() {
    let b = cell("boolean", "true", "", "");
    assert_eq!(xlsx_cells_set_previous_type(&b), Some("bool".to_string()));
    assert_eq!(xlsx_cells_set_previous_value(&b), Some("1".to_string()));
    let f = cell("number", "3", "3", "A1+2");
    assert_eq!(xlsx_cells_set_previous_type(&f), Some("formula".to_string()));
    assert_eq!(xlsx_cells_set_previous_value(&f), Some("A1+2".to_string()));
    let s = cell("string", "hello", "0", "");
    assert_eq!(xlsx_cells_set_previous_value(&s), Some("hello".to_string()));
    let e = cell("empty", "", "", "");
    let p = xlsx_cells_set_previous(true, Some(&e));
    assert!(p.exists);
    assert_eq!(p.previous_type, None);
    assert_eq!(p.previous_value, None);
    let p = xlsx_cells_set_previous(false, Some(&s));
    assert!(!p.exists && p.previous_value.is_none());
}

const MAIN_NS: &str = "http://schemas.openxmlformats.org/spreadsheetml/2006/main";

fn readings_for(
    xml: &str,
    texts: &[(usize, &str)],
) -> (Vec<ooxml_xlsx::xml::CharToken>, bool, Vec<(u8, String)>, Vec<(u8, String, Option<char>)>) {
    let (toks, failed) = ooxml_xlsx::xml::char_tokens(xml).unwrap();
    let mut res = Vec::new();
    let mut pieces = Vec::new();
    for (i, _) in toks.iter().enumerate() {
        match texts.iter().find(|(k, _)| *k == i) {
            Some((_, t)) => {
                res.push((0u8, String::new()));
                pieces.push((1u8, t.to_string(), None));
            },
            None => {
                res.push((1u8, MAIN_NS.to_string()));
                pieces.push((0u8, String::new(), None));
            },
        }
    }
    (toks, failed, res, pieces)
}

#[test]
fn shared_strings_come_from_the_readings() {
    let xml = format!("<sst xmlns=\"{MAIN_NS}\"><si><t>a</t></si><si><t>b</t></si></sst>");
    let (toks, failed, res, pieces) = readings_for(&xml, &[(3, "a"), (8, "b")]);
    let got = ooxml_xlsx::xmlscan::shared_strings_from_readings(&toks, failed, &res, &pieces, &vec![1]).unwrap();
    assert_eq!(got, vec![(1, "b".to_string())]);
    assert_eq!(shared_strings_for_indices_of(&xml, 1), got);
}

fn shared_strings_for_indices_of(xml: &str, i: usize) -> Vec<(usize, String)> {
    ooxml_xlsx::xmlscan::shared_strings_for_indices(xml, &vec![i]).unwrap()
}

#[test]
fn sheet_cells_come_from_the_readings() {
    let xml = format!(
        "<worksheet xmlns=\"{MAIN_NS}\"><sheetData><row r=\"1\"><c r=\"A1\"><v>5</v></c></row></sheetData></worksheet>"
    );
    let (toks, failed, res, pieces) = readings_for(&xml, &[(5, "5")]);
    let scan = ooxml_xlsx::xmlscan::sheet_cells_from_readings(&xml, &toks, failed, &res, &pieces, bounds(1, 1, 2, 2), None)
        .unwrap();
    assert_eq!(scan.cells.len(), 1);
    assert_eq!(scan.cells[0].0, (1, 1));
    assert_eq!(scan.cells[0].1.raw_value, "5");
}

#[test]
fn cell_values_decode_by_type() {
    let shared = vec![(2usize, "two".to_string())];
    let d = decode_xlsx_cell_value("s", "2", "", "", &shared, false);
    assert_eq!(d.kind, "string");
    assert!(matches!(d.value, CellMatrixValue::Text(ref t) if t == "two"));
    let d = decode_xlsx_cell_value("s", "7", "", "", &shared, false);
    assert_eq!(d.display, "");
    let d = decode_xlsx_cell_value("b", " 1 ", "", "", &shared, false);
    assert!(matches!(d.value, CellMatrixValue::Bool(true)));
    assert_eq!(d.display, "true");
    let d = decode_xlsx_cell_value("", "42", "", "", &shared, false);
    assert!(matches!(d.value, CellMatrixValue::Int(42)));
    let d = decode_xlsx_cell_value("", "1.5", "", "", &shared, false);
    assert!(matches!(d.value, CellMatrixValue::Number(ref t) if t == "1.5"));
    let d = decode_xlsx_cell_value("", "45000", "", "", &shared, true);
    assert_eq!(d.kind, "date");
    let d = decode_xlsx_cell_value("", "", "", "", &shared, false);
    assert_eq!(d.kind, "empty");
    assert!(matches!(d.value, CellMatrixValue::Null));
    let d = decode_xlsx_cell_value("", "", "", "A1", &shared, false);
    assert_eq!(d.kind, "number");
    let d = decode_xlsx_cell_value("inlineStr", "", "hi", "", &shared, false);
    assert_eq!(d.display, "hi");
    let d = decode_xlsx_cell_value("zz", "x", "", "", &shared, false);
    assert_eq!(d.kind, "unknown");
}

#[test]
fn guard_and_reference_messages() {
    assert_eq!(parse_cell_ref("A0").unwrap_err().message, "row 0 out of XLSX bounds 1-1048576");
    assert_eq!(parse_cell_ref("A1x").unwrap_err().message, "invalid row \"1x\" in cell reference");
    assert_eq!(parse_cell_ref("A1x$").unwrap_err().message, "invalid absolute marker in row reference");
    assert_eq!(parse_cell_ref("XFE1").unwrap_err().message, "column \"XFE\" out of XLSX bounds A-XFD");
    assert_eq!(
        parse_cell_ref("A99999999999").unwrap_err().message,
        "invalid row \"99999999999\": number too large to fit in target type"
    );
    assert_eq!(parse_cell_ref("$").unwrap_err().message, "missing column in cell reference");
    assert_eq!(parse_cell_ref("B").unwrap_err().message, "missing row in cell reference");
    let e = ooxml_xlsx::freeze::guard_expect_state("<worksheet/>", true, Some("maybe")).unwrap_err();
    assert_eq!(e.message, "invalid --expect-state \"maybe\" (use none|frozen)");
}
