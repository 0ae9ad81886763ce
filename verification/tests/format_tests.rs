use ooxml_xlsx::cellformat::{ensure_xlsx_cell_style, set_xlsx_range_number_format_xml, set_xlsx_range_number_format_xml_checked};
use ooxml_xlsx::cellref::RangeBounds;
use ooxml_xlsx::styles::default_xlsx_styles_xml;

#[test]
fn cell_style_is_added_once_and_then_found() {
    let (xml, index, created) = ensure_xlsx_cell_style(default_xlsx_styles_xml(), 0, 14).unwrap();
    assert_eq!(index, 1);
    assert!(created);
    assert!(xml.contains(
        r#"<cellXfs count="2"><xf numFmtId="0" fontId="0" fillId="0" borderId="0" xfId="0"/><xf applyNumberFormat="1" borderId="0" fillId="0" fontId="0" numFmtId="14" xfId="0"/></cellXfs>"#
    ));
    let (again, index2, created2) = ensure_xlsx_cell_style(xml.clone(), 0, 14).unwrap();
    assert_eq!(again, xml);
    assert_eq!(index2, 1);
    assert!(!created2);
    let (same, index3, created3) = ensure_xlsx_cell_style(xml.clone(), 1, 14).unwrap();
    assert_eq!(same, xml);
    assert_eq!(index3, 1);
    assert!(!created3);
}

#[test]
fn cell_style_keeps_base_that_already_has_the_format() {
    let (xml, index, created) = ensure_xlsx_cell_style(default_xlsx_styles_xml(), 7, 0).unwrap();
    assert_eq!(xml, default_xlsx_styles_xml());
    assert_eq!(index, 0);
    assert!(!created);
}

#[test]
fn range_number_format_restyles_and_creates_cells() {
    let sheet = r#"<worksheet><dimension ref="A1"/><sheetData><row r="1"><c r="A1"><v>5</v></c></row></sheetData></worksheet>"#;
    let bounds = RangeBounds { start_col: 1, start_row: 1, end_col: 2, end_row: 1 };
    let (out, styles, stats) = set_xlsx_range_number_format_xml(sheet, default_xlsx_styles_xml(), bounds, 14).unwrap();
    assert_eq!(
        out,
        r#"<worksheet><dimension ref="A1:B1"/><sheetData><row r="1"><c r="A1" s="1"><v>5</v></c><c r="B1" s="1"/></row></sheetData></worksheet>"#
    );
    assert!(styles.contains(r#"<cellXfs count="2">"#));
    assert_eq!(stats.updated, 2);
    assert_eq!(stats.created, 1);
    assert_eq!(stats.created_styles, 1);
    assert_eq!(stats.style_indexes, vec![1]);
}

#[test]
fn range_number_format_checked_refuses_empty_cell_formats() {
    let sheet = r#"<worksheet><sheetData/></worksheet>"#;
    let styles = r#"<styleSheet><fonts count="1"><font/></fonts><fills count="2"><fill/><fill/></fills><borders count="1"><border/></borders><cellStyleXfs count="1"><xf/></cellStyleXfs><cellXfs/><cellStyles count="1"><cellStyle/></cellStyles></styleSheet>"#;
    let bounds = RangeBounds { start_col: 1, start_row: 1, end_col: 1, end_row: 1 };
    assert!(set_xlsx_range_number_format_xml_checked(sheet, styles.to_string(), bounds, 14).is_none());
}
