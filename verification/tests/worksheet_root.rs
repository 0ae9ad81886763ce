use ooxml_xlsx::xml::{
    strip_legacy_xlsx_pivot_table_parts, xlsx_worksheet_root_bounds,
    xlsx_worksheet_root_bounds_permissive,
};

#[test]
fn strict_root_parser_rejects_a_nested_worksheet() {
    let error = xlsx_worksheet_root_bounds("<root><worksheet/></root>")
        .err()
        .expect("strict callers reject a non-worksheet document root");
    assert!(error.message.contains("root"));
}

#[test]
fn permissive_root_parser_preserves_nested_worksheet_discovery() {
    let bounds = xlsx_worksheet_root_bounds_permissive("<root><worksheet/></root>")
        .expect("legacy permissive callers find a nested worksheet");
    assert!(bounds.self_closing);
    assert_eq!(bounds.start, 6);
}

#[test]
fn strips_only_legacy_pivot_table_parts_from_worksheet_children() {
    let xml = [
        r#"<x:worksheet xmlns:x="urn:x" xmlns:r="urn:r">"#,
        r#"<x:sheetData/>"#,
        r#"<x:tableParts count="1"><x:tablePart r:id="rIdTable"/></x:tableParts>"#,
        r#"<x:pivotTableParts count="1"><x:pivotTablePart r:id="rIdPivot"/></x:pivotTableParts>"#,
        r#"<x:extLst/>"#,
        r#"</x:worksheet>"#,
    ]
    .concat();
    let xml = xml.as_str();

    let (stripped, count) =
        strip_legacy_xlsx_pivot_table_parts(xml).expect("strip legacy pivot child");

    assert_eq!(count, 1);
    assert!(!stripped.contains("pivotTableParts"));
    assert!(stripped.contains("<x:tableParts count=\"1\">"));
    assert!(stripped.contains("rIdTable"));
    assert!(stripped.contains("<x:extLst/>"));
}

#[test]
fn strip_is_a_noop_for_valid_worksheet_xml() {
    let xml = r#"<worksheet><sheetData/><tableParts count="1"><tablePart r:id="rId1"/></tableParts></worksheet>"#;
    let (stripped, count) = strip_legacy_xlsx_pivot_table_parts(xml).expect("valid worksheet");

    assert_eq!(count, 0);
    assert_eq!(stripped, xml);
}
