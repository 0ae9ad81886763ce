use ooxml_xlsx::error::ErrorKind;
use ooxml_xlsx::structure::{
    delete_cols_xml, delete_rows_xml, insert_cols_xml, insert_rows_xml, offset_row, parse_structure_column,
    required_positive_count, required_positive_position, scan_structure_hazards, update_cell_ref_xml,
    validate_row_span_in_bounds, validate_structure_references, xlsx_dimension_declared,
};

const SHEET: &str = r#"<worksheet><dimension ref="A1:B2"/><sheetData><row r="1"><c r="A1"><v>1</v></c></row><row r="2" spans="1:2"><c r="B2"><v>2</v></c></row></sheetData></worksheet>"#;

#[test]
fn column_flags_read_letters_only() {
    assert_eq!(parse_structure_column("  ab ", "at").unwrap(), 28);
    assert_eq!(parse_structure_column("XFD", "at").unwrap(), 16384);
    assert_eq!(parse_structure_column("XFE", "at").unwrap_err().kind, ErrorKind::InvalidArgs);
    assert_eq!(parse_structure_column("A1", "at").unwrap_err().kind, ErrorKind::InvalidArgs);
    assert_eq!(parse_structure_column("$A", "at").unwrap_err().kind, ErrorKind::InvalidArgs);
    assert_eq!(parse_structure_column(" ", "at").unwrap_err().kind, ErrorKind::InvalidArgs);
}

#[test]
fn positions_counts_and_offsets() {
    assert_eq!(required_positive_position(3, "at").unwrap(), 3);
    assert!(required_positive_position(0, "at").is_err());
    assert!(required_positive_count(-2).is_err());
    assert_eq!(required_positive_count(7).unwrap(), 7);
    assert_eq!(offset_row(5, 3).unwrap(), 8);
    assert_eq!(offset_row(8, -3).unwrap(), 5);
    assert!(offset_row(1, -1).is_err());
    assert!(validate_row_span_in_bounds(1048576, 1).is_ok());
    assert!(validate_row_span_in_bounds(1048576, 2).is_err());
}

#[test]
fn inserting_rows_moves_rows_down() {
    let (out, stats) = insert_rows_xml(SHEET, 2, 1).unwrap();
    assert_eq!(
        out,
        r#"<worksheet><dimension ref="A1:B3"/><sheetData><row r="1"><c r="A1"><v>1</v></c></row><row r="3"><c r="B3"><v>2</v></c></row></sheetData></worksheet>"#
    );
    assert_eq!(stats.shifted_rows, 1);
    assert_eq!(stats.shifted_cells, 1);
    assert_eq!(xlsx_dimension_declared(&out).unwrap(), "A1:B3");
}

#[test]
fn deleting_rows_undoes_an_insertion() {
    let (inserted, _) = insert_rows_xml(SHEET, 2, 1).unwrap();
    let (restored, stats) = delete_rows_xml(&inserted, 2, 1).unwrap();
    assert_eq!(
        restored,
        r#"<worksheet><dimension ref="A1:B2"/><sheetData><row r="1"><c r="A1"><v>1</v></c></row><row r="2"><c r="B2"><v>2</v></c></row></sheetData></worksheet>"#
    );
    assert_eq!(stats.removed_rows, 0);
    assert_eq!(stats.shifted_rows, 1);
}

#[test]
fn deleting_a_row_drops_its_cells() {
    let (out, stats) = delete_rows_xml(SHEET, 1, 1).unwrap();
    assert_eq!(
        out,
        r#"<worksheet><dimension ref="B1:B1"/><sheetData><row r="1"><c r="B1"><v>2</v></c></row></sheetData></worksheet>"#
    );
    assert_eq!(stats.removed_rows, 1);
    assert_eq!(stats.removed_cells, 1);
}

#[test]
fn column_edits_move_cells_sideways() {
    let (wide, stats) = insert_cols_xml(SHEET, 1, 2).unwrap();
    assert!(wide.contains(r#"<row r="1"><c r="C1"><v>1</v></c></row><row r="2"><c r="D2"><v>2</v></c></row>"#));
    assert_eq!(stats.shifted_cells, 2);
    let (narrow, stats) = delete_cols_xml(SHEET, 1, 1).unwrap();
    assert_eq!(
        narrow,
        r#"<worksheet><dimension ref="A2:A2"/><sheetData><row r="2"><c r="A2"><v>2</v></c></row></sheetData></worksheet>"#
    );
    assert_eq!(stats.removed_cells, 1);
    assert_eq!(stats.shifted_cells, 1);
}

#[test]
fn cell_reference_rewrite_keeps_content() {
    assert_eq!(update_cell_ref_xml(r#"<c r="A1" t="s"><v>0</v></c>"#, 3, 4).unwrap(), r#"<c r="C4" t="s"><v>0</v></c>"#);
    assert_eq!(update_cell_ref_xml(r#"<c r="A1"/>"#, 1, 2).unwrap(), r#"<c r="A2"/>"#);
    assert_eq!(update_cell_ref_xml("<v>1</v>", 1, 2).unwrap_err().kind, ErrorKind::Unexpected);
}

#[test]
fn hazards_refuse_formulas_and_names() {
    assert!(scan_structure_hazards("<workbook/>", SHEET, false, false).is_ok());
    assert!(scan_structure_hazards("<workbook><definedNames/></workbook>", SHEET, false, false).is_err());
    assert!(scan_structure_hazards("<workbook/>", SHEET, true, false).is_err());
    let with_formula = SHEET.replace("<v>1</v>", "<f>1+1</f><v>2</v>");
    assert!(scan_structure_hazards("<workbook/>", &with_formula, false, false).is_err());
    let with_cols = SHEET.replace("<sheetData>", "<cols><col min=\"1\" max=\"1\"/></cols><sheetData>");
    assert!(scan_structure_hazards("<workbook/>", &with_cols, false, false).is_ok());
    assert!(scan_structure_hazards("<workbook/>", &with_cols, false, true).is_err());
}

#[test]
fn references_must_be_sound() {
    assert!(validate_structure_references(SHEET).is_ok());
    let dup = r#"<worksheet><sheetData><row r="1"/><row r="1"/></sheetData></worksheet>"#;
    assert_eq!(validate_structure_references(dup).unwrap_err().kind, ErrorKind::InvalidArgs);
    let stray = r#"<worksheet><sheetData><row r="1"><c r="A2"/></row></sheetData></worksheet>"#;
    assert_eq!(validate_structure_references(stray).unwrap_err().kind, ErrorKind::InvalidArgs);
    let missing = r#"<worksheet><sheetData><row><c r="A1"/></row></sheetData></worksheet>"#;
    assert!(validate_structure_references(missing).is_err());
}
