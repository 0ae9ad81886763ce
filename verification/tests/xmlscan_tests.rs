use ooxml_xlsx::cellref::RangeBounds;
use ooxml_xlsx::error::ErrorKind;
use ooxml_xlsx::rangeinput::parse_xlsx_range_set_matrix;
use ooxml_xlsx::xmlscan::{shared_strings_for_indices, sheet_raw_cells_in_range};

const SST: &str = r#"<sst xmlns="http://schemas.openxmlformats.org/spreadsheetml/2006/main" count="4"><si><t>a&amp;b</t></si><si><r><t>x</t></r><r><t>y</t></r></si><si/><si><t><![CDATA[<c>]]></t></si></sst>"#;

#[test]
fn wanted_shared_strings_are_read() {
    let all = shared_strings_for_indices(SST, &vec![0, 1, 2, 3]).unwrap();
    assert_eq!(
        all,
        vec![(0, "a&b".to_string()), (1, "xy".to_string()), (2, String::new()), (3, "<c>".to_string())]
    );
    let one = shared_strings_for_indices(SST, &vec![1]).unwrap();
    assert_eq!(one, vec![(1, "xy".to_string())]);
    assert!(shared_strings_for_indices(SST, &Vec::new()).unwrap().is_empty());
}

#[test]
fn shared_strings_parts_are_checked() {
    assert_eq!(shared_strings_for_indices("<other/>", &vec![0]).unwrap_err().kind, ErrorKind::Unexpected);
    assert_eq!(shared_strings_for_indices(r#"<x:sst xmlns:x="urn:other"/>"#, &vec![0]).unwrap_err().kind, ErrorKind::Unexpected);
    assert!(shared_strings_for_indices("<sst><si><t>a</t></si></sst>", &vec![0]).is_ok());
    assert!(shared_strings_for_indices("", &vec![0]).is_err());
}

const SHEET: &str = r#"<worksheet xmlns="http://schemas.openxmlformats.org/spreadsheetml/2006/main"><sheetData><row r="1"><c r="A1" s="0"><v>1</v></c><c r="B1" t="s" s="2"><v>0</v></c><c r="C1" t="inlineStr"><is><t>hi</t></is></c></row><row r="2"><c r="A2"><f>A1+1</f><v>2</v></c><c r="b2"><v>9</v></c></row></sheetData></worksheet>"#;

fn a1_b2() -> RangeBounds {
    RangeBounds { start_col: 1, start_row: 1, end_col: 2, end_row: 2 }
}

#[test]
fn raw_cells_in_a_range_are_read() {
    let scan = sheet_raw_cells_in_range(SHEET, a1_b2(), None).unwrap();
    let keys: Vec<(u32, u32)> = scan.cells.iter().map(|e| e.0).collect();
    assert_eq!(keys, vec![(1, 1), (1, 2), (2, 1)]);
    assert_eq!(scan.cells[0].1.raw_value, "1");
    assert_eq!(scan.cells[0].1.style_index, Some(0));
    assert_eq!(scan.cells[1].1.formula, "A1+1");
    assert_eq!(scan.cells[1].1.raw_value, "2");
    assert_eq!(scan.cells[2].1.cell_type, "s");
    assert!(scan.saw_nonzero_style_index);
    assert!(scan.saw_style_zero);
    let wide = sheet_raw_cells_in_range(SHEET, RangeBounds { start_col: 3, start_row: 1, end_col: 3, end_row: 1 }, None).unwrap();
    assert_eq!(wide.cells.len(), 1);
    assert_eq!(wide.cells[0].1.inline_text, "hi");
    let first = sheet_raw_cells_in_range(SHEET, a1_b2(), Some(1)).unwrap();
    assert_eq!(first.cells.len(), 1);
    assert_eq!(first.cells[0].0, (1, 1));
    assert!(first.saw_nonzero_style_index);
}

#[test]
fn worksheet_parts_are_checked() {
    assert_eq!(sheet_raw_cells_in_range("<sst/>", a1_b2(), None).unwrap_err().kind, ErrorKind::Unexpected);
    assert!(sheet_raw_cells_in_range("<worksheet/>", a1_b2(), None).unwrap().cells.is_empty());
    assert!(sheet_raw_cells_in_range("<worksheet><sheetData>", a1_b2(), None).is_err());
}

#[test]
fn range_values_are_read_by_format() {
    let m = parse_xlsx_range_set_matrix(r#"[[1, "a", null], [true]]"#, "json").unwrap();
    assert_eq!(m.rows.len(), 2);
    assert_eq!(m.rows[0].len(), 3);
    assert_eq!(m.major_dimension, "rows");
    let o = parse_xlsx_range_set_matrix(r#"{"range": "A1:B1", "values": [[1, 2]]}"#, "json").unwrap();
    assert_eq!(o.range.as_deref(), Some("A1:B1"));
    let c = parse_xlsx_range_set_matrix("a,b\n1,2\n", "csv").unwrap();
    assert_eq!(c.rows.len(), 2);
    let t = parse_xlsx_range_set_matrix("a\tb", "tsv").unwrap();
    assert_eq!(t.rows[0].len(), 2);
    assert_eq!(parse_xlsx_range_set_matrix("[1", "json").unwrap_err().kind, ErrorKind::InvalidArgs);
    assert_eq!(parse_xlsx_range_set_matrix("a", "xml").unwrap_err().kind, ErrorKind::InvalidArgs);
}
