use ooxml_xlsx::attrmap::AttrMap;
use ooxml_xlsx::cellformat::{render_xlsx_existing_cell_with_style, xlsx_xf_num_fmt_id};
use ooxml_xlsx::elements::xml_escape;
use ooxml_xlsx::error::ErrorKind;
use ooxml_xlsx::mutation::XlsxMatrixCell;
use ooxml_xlsx::rangeset::{
    needs_xml_space_preserve, normalize_xlsx_write_cell, render_xlsx_cell_with_attrs, resolve_xlsx_cells_set_value,
};
use ooxml_xlsx::sheetxml::XlsxCellSpan;

fn cell(kind: &str, value: &str, formula: &str) -> XlsxMatrixCell {
    XlsxMatrixCell { kind: kind.to_string(), value: value.to_string(), formula: formula.to_string(), null: false }
}

fn pair(r: (String, String)) -> (String, String) {
    r
}

#[test]
fn values_are_normalized_by_kind() {
    assert_eq!(pair(normalize_xlsx_write_cell(&cell("", " x ", ""), false).unwrap()), ("string".into(), " x ".into()));
    assert_eq!(pair(normalize_xlsx_write_cell(&cell("Number", " 3.5 ", ""), true).unwrap()), ("number".into(), "3.5".into()));
    assert_eq!(normalize_xlsx_write_cell(&cell("number", "x", ""), false).unwrap_err().kind, ErrorKind::InvalidArgs);
    assert_eq!(pair(normalize_xlsx_write_cell(&cell("boolean", " TRUE", ""), false).unwrap()), ("bool".into(), "1".into()));
    assert_eq!(pair(normalize_xlsx_write_cell(&cell("bool", "0", ""), false).unwrap()), ("bool".into(), "0".into()));
    assert!(normalize_xlsx_write_cell(&cell("bool", "yes", ""), false).is_err());
    assert_eq!(pair(normalize_xlsx_write_cell(&cell("string", "x", " ==SUM(A1)"), false).unwrap()), ("formula".into(), "SUM(A1)".into()));
    assert!(normalize_xlsx_write_cell(&cell("formula", "==", ""), false).is_err());
    assert_eq!(pair(normalize_xlsx_write_cell(&cell("auto", " =A1+1", ""), false).unwrap()), ("formula".into(), "A1+1".into()));
    assert_eq!(pair(normalize_xlsx_write_cell(&cell("auto", "False", ""), false).unwrap()), ("bool".into(), "0".into()));
    assert_eq!(pair(normalize_xlsx_write_cell(&cell("auto", " 12 ", ""), true).unwrap()), ("number".into(), "12".into()));
    assert_eq!(pair(normalize_xlsx_write_cell(&cell("auto", " hi ", ""), false).unwrap()), ("string".into(), " hi ".into()));
    assert!(normalize_xlsx_write_cell(&cell("date", "1", ""), false).is_err());
}

#[test]
fn cells_set_value_flags() {
    assert_eq!(pair(resolve_xlsx_cells_set_value(Some("5"), None, Some("number"), true).unwrap()), ("number".into(), "5".into()));
    assert_eq!(pair(resolve_xlsx_cells_set_value(None, Some("=B1"), None, false).unwrap()), ("formula".into(), "B1".into()));
    assert!(resolve_xlsx_cells_set_value(Some("1"), Some("=B1"), None, false).is_err());
    assert!(resolve_xlsx_cells_set_value(None, None, None, false).is_err());
    assert!(resolve_xlsx_cells_set_value(Some(""), None, None, false).is_err());
    assert!(resolve_xlsx_cells_set_value(None, Some("  "), None, false).is_err());
    assert!(resolve_xlsx_cells_set_value(Some("1"), None, Some("date"), true).is_err());
    assert_eq!(pair(resolve_xlsx_cells_set_value(Some("A1*2"), None, Some("formula"), false).unwrap()), ("formula".into(), "A1*2".into()));
}

#[test]
fn cells_are_rendered_with_kept_attributes() {
    let mut attrs = AttrMap::new();
    attrs.insert("s".to_string(), "4".to_string());
    attrs.insert("t".to_string(), "s".to_string());
    let (x, f) = render_xlsx_cell_with_attrs("C3", &cell("string", "a<b", ""), false, Some(&attrs), "x:").unwrap();
    assert_eq!(x, r#"<x:c r="C3" s="4" t="inlineStr"><x:is><x:t>a&lt;b</x:t></x:is></x:c>"#);
    assert!(!f);
    let (y, g) = render_xlsx_cell_with_attrs("A1", &cell("", "", "1&2"), false, None, "").unwrap();
    assert_eq!(y, r#"<c r="A1"><f>1&amp;2</f></c>"#);
    assert!(g);
    assert!(render_xlsx_cell_with_attrs("A1", &cell("number", "n", ""), false, None, "").is_err());
    assert!(needs_xml_space_preserve(" a"));
    assert!(needs_xml_space_preserve("a\n"));
    assert!(!needs_xml_space_preserve("a b"));
    assert!(!needs_xml_space_preserve(""));
    assert_eq!(xml_escape("a&<>\"b"), "a&amp;&lt;&gt;\"b");
}

#[test]
fn existing_cells_get_a_new_style() {
    let mut attrs = AttrMap::new();
    attrs.insert("r".to_string(), "B2".to_string());
    attrs.insert("t".to_string(), "n".to_string());
    let full = XlsxCellSpan { col: 2, xml: r#"<c r="B2" t="n"><v>5</v></c>"#.to_string(), attrs, has_formula: false };
    assert_eq!(render_xlsx_existing_cell_with_style("B2", &full, 7), r#"<c r="B2" s="7" t="n"><v>5</v></c>"#);
    let mut a2 = AttrMap::new();
    a2.insert("r".to_string(), "B2".to_string());
    a2.insert("t".to_string(), "n".to_string());
    let empty = XlsxCellSpan { col: 2, xml: r#"<c r="B2" t="n"/> "#.to_string(), attrs: a2, has_formula: false };
    assert_eq!(render_xlsx_existing_cell_with_style("B2", &empty, 7), r#"<c r="B2" s="7"/>"#);
    let mut m = AttrMap::new();
    m.insert("numFmtId".to_string(), "164".to_string());
    assert_eq!(xlsx_xf_num_fmt_id(&m), 164);
    assert_eq!(xlsx_xf_num_fmt_id(&AttrMap::new()), 0);
}
