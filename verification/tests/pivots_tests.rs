use ooxml_xlsx::error::ErrorKind;
use ooxml_xlsx::pivots::{
    allocate_numbered_part, plan_pivot_create, plan_pivot_fields_request, resolve_pivot_anchor,
    add_workbook_pivot_cache, bool_int, build_pivot_field_models, ensure_workbook_r_namespace, normalize_axis,
    normalize_part_uri, parse_pivot_cache_definition, normalize_pivot_aggregation, next_pivot_cache_id, parse_bool_attr, parse_i32,
    parse_pivot_table_part, parse_pivot_value_fields, part_name, pivot_data_caption, pivot_headers, pivot_location,
    pivot_value_warnings, plan_pivot_data_fields, render_cache_definition_xml, render_cache_records_xml,
    render_pivot_table_xml, render_relationships_xml, resolve_pivot_fields, select_xlsx_pivot, split_comma_list,
    PivotCell, PivotSource, XlsxPivotCacheField, XlsxPivotCacheRef, XlsxPivotRef, XlsxPivotSourceRef,
};
use ooxml_xlsx::cellref::RangeBounds;
use ooxml_xlsx::sheets::WorkbookSheet;

fn cell(v: &str) -> PivotCell {
    PivotCell { value: v.to_string(), null: false }
}

fn null() -> PivotCell {
    PivotCell { value: String::new(), null: true }
}

fn source_cells() -> Vec<Vec<PivotCell>> {
    vec![
        vec![cell("Region"), cell(" "), cell("Amount")],
        vec![cell("East"), cell("a"), cell("10")],
        vec![cell("West"), null(), cell("x")],
        vec![cell("East"), cell("a"), cell("5")],
    ]
}

fn flags(cells: &Vec<Vec<PivotCell>>) -> Vec<Vec<bool>> {
    cells.iter().map(|row| row.iter().map(|c| c.value.parse::<f64>().is_ok()).collect()).collect()
}

fn strings(v: &[&str]) -> Vec<String> {
    v.iter().map(|s| s.to_string()).collect()
}

#[test]
fn comma_lists_are_split_and_trimmed() {
    assert_eq!(split_comma_list(" a, b ,,c "), strings(&["a", "b", "c"]));
    assert!(split_comma_list("  ").is_empty());
}

#[test]
fn value_fields_take_an_aggregation() {
    let specs = parse_pivot_value_fields(&strings(&["Amount:avg", " Qty ", "a:b: count ", ""])).unwrap();
    assert_eq!(specs.len(), 3);
    assert_eq!((specs[0].name.as_str(), specs[0].aggregation.as_str()), ("Amount", "avg"));
    assert_eq!((specs[1].name.as_str(), specs[1].aggregation.as_str()), ("Qty", "sum"));
    assert_eq!((specs[2].name.as_str(), specs[2].aggregation.as_str()), ("a:b", "count"));
    assert_eq!(parse_pivot_value_fields(&strings(&[":sum"])).unwrap_err().kind, ErrorKind::InvalidArgs);
    assert_eq!(parse_pivot_value_fields(&strings(&[" "])).unwrap_err().kind, ErrorKind::InvalidArgs);
}

#[test]
fn small_spellings() {
    assert_eq!(normalize_pivot_aggregation(" AVG ").unwrap(), "average");
    assert_eq!(normalize_pivot_aggregation("").unwrap(), "sum");
    assert_eq!(normalize_pivot_aggregation("CountNums").unwrap(), "countNums");
    assert!(normalize_pivot_aggregation("median").is_none());
    assert_eq!(pivot_data_caption("countNums", "Qty"), "Count of Qty");
    assert_eq!(pivot_data_caption("odd", "Qty"), "Sum of Qty");
    assert_eq!(normalize_axis("axisCol"), "column");
    assert_eq!(normalize_axis("other"), "other");
    assert!(parse_bool_attr(Some(" TRUE ")));
    assert!(!parse_bool_attr(Some("0")));
    assert!(!parse_bool_attr(None));
    assert_eq!(bool_int(true), "1");
    assert_eq!(parse_i32(Some(" 42 "), 0), 42);
    assert_eq!(parse_i32(Some("3000000000"), 7), 7);
    assert_eq!(parse_i32(None, -1), -1);
    assert_eq!(normalize_part_uri("//xl/a.xml"), "/xl/a.xml");
    assert_eq!(part_name("/xl/a.xml"), "xl/a.xml");
    assert_eq!(pivot_location((5, 2), 0, 2), "E2:G6");
    assert_eq!(pivot_location((1, 1), 2, 1), "A1:C5");
}

#[test]
fn headers_fields_and_data_fields() {
    let cells = source_cells();
    let headers = pivot_headers(&cells).unwrap();
    assert_eq!(headers, strings(&["Region", "Field2", "Amount"]));
    assert_eq!(pivot_headers(&vec![vec![cell("a")]]).unwrap_err().kind, ErrorKind::InvalidArgs);
    let mut axis = Vec::new();
    let rows = resolve_pivot_fields("rows", &strings(&["Region"]), &headers, &mut axis).unwrap();
    assert_eq!(rows, vec![0]);
    assert_eq!(axis, vec![0]);
    let err = resolve_pivot_fields("cols", &strings(&["Nope"]), &headers, &mut axis).unwrap_err();
    assert_eq!(err.kind, ErrorKind::InvalidArgs);
    assert_eq!(axis, vec![0]);
    let specs = parse_pivot_value_fields(&strings(&["Amount:max"])).unwrap();
    let data = plan_pivot_data_fields(&specs, &headers).unwrap();
    assert_eq!(data[0].field_index, 2);
    assert_eq!(data[0].subtotal, "max");
    assert_eq!(data[0].caption, "Max of Amount");
    let bad = parse_pivot_value_fields(&strings(&["Amount:median"])).unwrap();
    assert!(plan_pivot_data_fields(&bad, &headers).is_err());
}

#[test]
fn field_models_and_records() {
    let cells = source_cells();
    let headers = pivot_headers(&cells).unwrap();
    let axis = vec![0usize];
    let models = build_pivot_field_models(&cells, &headers, &axis, &flags(&cells));
    assert_eq!(models.len(), 3);
    assert!(models[0].has_items);
    assert_eq!(models[0].items, strings(&["East", "West"]));
    assert_eq!(models[1].items, strings(&["a", ""]));
    assert!(!models[2].numeric);
    assert_eq!(models[2].items, strings(&["10", "x", "5"]));
    assert_eq!(models[2].item_is_num, vec![true, false, true]);
    let records = render_cache_records_xml(&cells, &models);
    assert!(records.contains(r#" count="3">"#));
    assert!(records.contains(r#"<r><x v="0"/><x v="0"/><x v="0"/></r><r><x v="1"/><x v="1"/><x v="1"/></r>"#));
    let specs = parse_pivot_value_fields(&strings(&["Amount"])).unwrap();
    assert_eq!(
        pivot_value_warnings(&specs, &headers, &models),
        strings(&["value field \"Amount\" is not fully numeric; aggregation may be approximate"])
    );
}

#[test]
fn numeric_fields_write_their_numbers() {
    let cells = vec![vec![cell("N")], vec![cell("1")], vec![cell("")], vec![cell("2.5")]];
    let headers = pivot_headers(&cells).unwrap();
    let models = build_pivot_field_models(&cells, &headers, &Vec::new(), &flags(&cells));
    assert!(models[0].numeric);
    assert!(!models[0].has_items);
    let records = render_cache_records_xml(&cells, &models);
    assert!(records.ends_with(r#"<r><n v="1"/></r><r><m/></r><r><n v="2.5"/></r></pivotCacheRecords>"#));
    let source = PivotSource {
        sheet: "Data".to_string(),
        range: "A1:A4".to_string(),
        bounds: RangeBounds { start_col: 1, start_row: 1, end_col: 1, end_row: 4 },
        cells: cells,
    };
    let def = render_cache_definition_xml(&source, &models, 3, "rId1", &vec![("1".to_string(), "2.5".to_string())]);
    assert!(def.contains(r#"r:id="rId1""#));
    assert!(def.contains(r#"recordCount="3""#));
    assert!(def.contains(r#"<worksheetSource ref="A1:A4" sheet="Data"/>"#));
    assert!(def.contains(r#"<cacheField name="N" numFmtId="0"><sharedItems containsString="0" containsNumber="1" minValue="1" maxValue="2.5"/></cacheField>"#));
}

#[test]
fn shared_items_list_their_kinds() {
    let cells = source_cells();
    let headers = pivot_headers(&cells).unwrap();
    let models = build_pivot_field_models(&cells, &headers, &vec![0usize], &flags(&cells));
    let source = PivotSource {
        sheet: "S".to_string(),
        range: "A1:C4".to_string(),
        bounds: RangeBounds { start_col: 1, start_row: 1, end_col: 3, end_row: 4 },
        cells: source_cells(),
    };
    let ranges = vec![(String::new(), String::new()); 3];
    let def = render_cache_definition_xml(&source, &models, 3, "rId1", &ranges);
    assert!(def.contains(r#"<sharedItems containsSemiMixedTypes="1" containsBlank="1" containsString="1" count="2"><s v="a"/><m/></sharedItems>"#));
    assert!(def.contains(r#"<sharedItems containsSemiMixedTypes="1" containsString="1" containsNumber="1" count="3"><n v="10"/><s v="x"/><n v="5"/></sharedItems>"#));
}

#[test]
fn pivot_table_part_is_written() {
    let cells = source_cells();
    let headers = pivot_headers(&cells).unwrap();
    let models = build_pivot_field_models(&cells, &headers, &vec![0usize], &flags(&cells));
    let specs = parse_pivot_value_fields(&strings(&["Amount:count"])).unwrap();
    let data = plan_pivot_data_fields(&specs, &headers).unwrap();
    let xml = render_pivot_table_xml("P&1", 3, "E1:F5", &models, &vec![0], &Vec::new(), &vec![1], &data, &vec![2]);
    assert!(xml.contains(r#"name="P&amp;1" cacheId="3""#));
    assert!(xml.contains(r#"<location ref="E1:F5" firstHeaderRow="1" firstDataRow="2" firstDataCol="1" rowPageCount="1" colPageCount="1"/>"#));
    assert!(xml.contains(r#"<pivotFields count="3"><pivotField axis="axisRow" showAll="0"><items count="3"><item x="0"/><item x="1"/><item t="default"/></items></pivotField><pivotField axis="axisPage" showAll="0">"#));
    assert!(xml.contains(r#"<pivotField dataField="1" showAll="0"/></pivotFields><rowFields count="1"><field x="0"/></rowFields><pageFields count="1"><pageField fld="1" hier="-1"/></pageFields>"#));
    assert!(xml.contains(r#"<dataFields count="1"><dataField name="Count of Amount" fld="2" subtotal="count" baseField="0" baseItem="0"/></dataFields>"#));
}

#[test]
fn relationships_and_workbook_edits() {
    let rels = render_relationships_xml(&vec![("rId1".to_string(), "t".to_string(), "a&b.xml".to_string())]);
    assert_eq!(
        rels,
        r#"<?xml version="1.0" encoding="UTF-8"?><Relationships xmlns="http://schemas.openxmlformats.org/package/2006/relationships"><Relationship Id="rId1" Type="t" Target="a&amp;b.xml"/></Relationships>"#
    );
    let wb = "<workbook><sheets><sheet/></sheets></workbook>";
    assert_eq!(
        add_workbook_pivot_cache(wb, 2, "rId9"),
        r#"<workbook><sheets><sheet/></sheets><pivotCaches><pivotCache cacheId="2" r:id="rId9"/></pivotCaches></workbook>"#
    );
    let with = r#"<workbook><pivotCaches><pivotCache cacheId="1" r:id="rId3"/></pivotCaches></workbook>"#;
    assert_eq!(
        add_workbook_pivot_cache(with, 2, "rId4"),
        r#"<workbook><pivotCaches><pivotCache cacheId="1" r:id="rId3"/><pivotCache cacheId="2" r:id="rId4"/></pivotCaches></workbook>"#
    );
    assert_eq!(add_workbook_pivot_cache("<x/>", 1, "r"), "<x/>");
    assert_eq!(
        ensure_workbook_r_namespace("<workbook a=\"1\"><sheets/></workbook>".to_string()),
        "<workbook a=\"1\" xmlns:r=\"http://schemas.openxmlformats.org/officeDocument/2006/relationships\"><sheets/></workbook>"
    );
    assert_eq!(ensure_workbook_r_namespace("<workbook xmlns:r=\"x\"/>".to_string()), "<workbook xmlns:r=\"x\"/>");
    assert_eq!(next_pivot_cache_id(with), Some(2));
    assert_eq!(next_pivot_cache_id("<workbook/>"), Some(1));
    assert_eq!(next_pivot_cache_id(r#"<w><pivotCache cacheId="2147483647"/></w>"#), None);
}

fn cache() -> XlsxPivotCacheRef {
    XlsxPivotCacheRef {
        cache_id: 7,
        part_uri: "/xl/pivotCache/pivotCacheDefinition1.xml".to_string(),
        relationship_id: "rId5".to_string(),
        records_part_uri: String::new(),
        record_count: 3,
        created_version: "6".to_string(),
        refreshed_version: "6".to_string(),
        refresh_on_load: true,
        save_data: None,
        source: XlsxPivotSourceRef {
            source_type: "worksheet".to_string(),
            sheet: "Data".to_string(),
            range: "A1:C4".to_string(),
            name: String::new(),
        },
        fields: vec![
            XlsxPivotCacheField { index: 0, name: "Region".to_string() },
            XlsxPivotCacheField { index: 1, name: "Amount".to_string() },
        ],
    }
}

const PART: &str = r#"<pivotTableDefinition xmlns="m" name="Sales" cacheId="7"><location ref="E1:F5"/><pivotFields count="2"><pivotField axis="axisRow" sumSubtotal="0" avgSubtotal="1"/><pivotField dataField="1"/></pivotFields><rowFields><field x="0"/></rowFields><dataFields><dataField name="Sum of Amount" fld="1"/></dataFields></pivotTableDefinition>"#;

#[test]
fn pivot_parts_are_read() {
    let sheet = WorkbookSheet {
        name: "Data".to_string(),
        sheet_id: 1,
        position: 1,
        rel_id: "rId1".to_string(),
        state: String::new(),
    };
    let caches = vec![cache()];
    let mut p = parse_pivot_table_part(PART, "xl/pivotTables/pivotTable1.xml", &sheet, "/xl/worksheets/sheet1.xml", "rId2", 1, &caches, &None).unwrap();
    assert_eq!(p.name, "Sales");
    assert_eq!(p.cache_id, 7);
    assert_eq!(p.part_uri, "/xl/pivotTables/pivotTable1.xml");
    assert_eq!((p.rows, p.cols), (5, 2));
    assert_eq!(p.cache.as_ref().unwrap().relationship_id, "rId5");
    assert_eq!(p.fields.len(), 2);
    assert_eq!((p.fields[0].name.as_str(), p.fields[0].axis.as_str(), p.fields[0].subtotal.as_str()), ("Region", "row", "avg"));
    assert_eq!(p.row_fields[0].name, "Region");
    assert_eq!(p.data_fields[0].name, "Amount");
    assert_eq!(p.data_fields[0].caption, "Sum of Amount");
    let by_rel = parse_pivot_table_part(PART, "p.xml", &sheet, "s", "rId2", 1, &caches, &Some(("rId1".to_string(), "/xl/pivotCache/pivotCacheDefinition1.xml".to_string()))).unwrap();
    assert_eq!(by_rel.cache.as_ref().unwrap().relationship_id, "rId1");
    assert_eq!(parse_pivot_table_part("<a><b></a>", "p", &sheet, "s", "r", 1, &caches, &None).unwrap_err().kind, ErrorKind::Unexpected);
    p.apply_selectors();
    assert_eq!(p.primary_selector, "pivot:1");
    assert_eq!(
        p.selectors,
        strings(&["pivot:1", "#1", "pivot:Sales", "name:Sales", "~Sales", "Sales", "cacheId:7", "rId:rId2", "rid:rId2", "part:/xl/pivotTables/pivotTable1.xml"])
    );
    let pivots: Vec<XlsxPivotRef> = vec![p];
    assert_eq!(select_xlsx_pivot(&pivots, "").unwrap(), 0);
    assert_eq!(select_xlsx_pivot(&pivots, " ~Sales ").unwrap(), 0);
    assert_eq!(select_xlsx_pivot(&pivots, "1").unwrap(), 0);
    assert_eq!(select_xlsx_pivot(&pivots, "2").unwrap_err().kind, ErrorKind::TargetNotFound);
    assert_eq!(select_xlsx_pivot(&pivots, "other").unwrap_err().kind, ErrorKind::TargetNotFound);
    assert_eq!(select_xlsx_pivot(&Vec::new(), "1").unwrap_err().kind, ErrorKind::InvalidArgs);
}

#[test]
fn cache_definitions_are_read() {
    let xml = r#"<pivotCacheDefinition r:id="rId1" recordCount="3" createdVersion="6" refreshOnLoad="1" saveData="0"><cacheSource type="worksheet"><worksheetSource ref="A1:C4" sheet="Data"/></cacheSource><cacheFields count="2"><cacheField name="Region"/><cacheField name="Amount"/></cacheFields><cacheField name="outside"/></pivotCacheDefinition>"#;
    let c = parse_pivot_cache_definition(xml, 4, "rId7", "xl/pivotCache/pivotCacheDefinition1.xml", "/xl/pivotCache/pivotCacheRecords1.xml").unwrap();
    assert_eq!(c.cache_id, 4);
    assert_eq!(c.part_uri, "/xl/pivotCache/pivotCacheDefinition1.xml");
    assert_eq!(c.record_count, 3);
    assert_eq!(c.created_version, "6");
    assert_eq!(c.refreshed_version, "");
    assert!(c.refresh_on_load);
    assert_eq!(c.save_data, Some(false));
    assert_eq!(c.source.source_type, "worksheet");
    assert_eq!((c.source.sheet.as_str(), c.source.range.as_str()), ("Data", "A1:C4"));
    assert_eq!(c.fields.len(), 2);
    assert_eq!((c.fields[1].index, c.fields[1].name.as_str()), (1, "Amount"));
    assert_eq!(c.field_name(1), "Amount");
    assert_eq!(c.field_name(5), "");
    assert!(parse_pivot_cache_definition("<a><b></a>", 1, "r", "p", "").is_err());
}

#[test]
fn numbered_parts_take_the_first_free_number() {
    let mut entries = strings(&["xl/pivotTables/pivotTable1.xml", "xl/pivotTables/pivotTable3.xml"]);
    assert_eq!(allocate_numbered_part(&mut entries, "/xl/pivotTables/pivotTable", ".xml").unwrap(), "/xl/pivotTables/pivotTable2.xml");
    assert_eq!(entries.last().unwrap(), "xl/pivotTables/pivotTable2.xml");
    assert_eq!(allocate_numbered_part(&mut entries, "/xl/pivotTables/pivotTable", ".xml").unwrap(), "/xl/pivotTables/pivotTable4.xml");
}

#[test]
fn a_new_pivot_is_planned() {
    let cells = source_cells();
    let fl = flags(&cells);
    let source = PivotSource {
        sheet: "Data".to_string(),
        range: "A1:C4".to_string(),
        bounds: RangeBounds { start_col: 1, start_row: 1, end_col: 3, end_row: 4 },
        cells,
    };
    let ranges = vec![(String::new(), String::new()); 3];
    let wb = r#"<workbook><sheets><sheet name="Data" sheetId="1" r:id="rId1"/></sheets></workbook>"#;
    let rels = ooxml_xlsx::rels::relationship_entries_from_xml(r#"<Relationships><Relationship Id="rId3" Type="t" Target="x"/></Relationships>"#);
    let specs = parse_pivot_value_fields(&strings(&["Amount:count", "Region:count"])).unwrap();
    let plan = plan_pivot_create(
        wb,
        &rels,
        &Vec::new(),
        &strings(&["xl/workbook.xml", "xl/pivotCache/pivotCacheDefinition1.xml"]),
        &source,
        (5, 1),
        None,
        &strings(&["Region"]),
        &Vec::new(),
        &Vec::new(),
        &specs,
        &fl,
        &ranges,
    )
    .unwrap();
    assert_eq!(plan.cache_id, 1);
    assert_eq!(plan.name, "PivotTable1");
    assert_eq!(plan.location, "E1:G5");
    assert_eq!(plan.cache_definition_uri, "/xl/pivotCache/pivotCacheDefinition2.xml");
    assert_eq!(plan.cache_records_uri, "/xl/pivotCache/pivotCacheRecords1.xml");
    assert_eq!(plan.pivot_table_uri, "/xl/pivotTables/pivotTable1.xml");
    assert_eq!(plan.data_field_indices, vec![0, 2]);
    assert_eq!(plan.workbook_rel_id, "rId4");
    assert_eq!(plan.worksheet_rel_id, "rId1");
    assert!(plan.workbook_xml.contains(r#"</sheets><pivotCaches><pivotCache cacheId="1" r:id="rId4"/></pivotCaches>"#));
    assert!(plan.workbook_xml.starts_with(r#"<workbook xmlns:r="http://schemas.openxmlformats.org/officeDocument/2006/relationships">"#));
    assert!(plan.pivot_table_xml.contains(r#"name="PivotTable1" cacheId="1""#));
    assert_eq!(plan.warnings.len(), 2);
    let err = plan_pivot_create(wb, &rels, &Vec::new(), &Vec::new(), &source, (5, 1), Some("P"), &strings(&["Nope"]), &Vec::new(), &Vec::new(), &specs, &fl, &ranges).unwrap_err();
    assert_eq!(err.kind, ErrorKind::InvalidArgs);
}

#[test]
fn pivot_requests_are_checked() {
    let (rows, cols, pages, values) = plan_pivot_fields_request(Some("Region, "), None, Some("Field2"), Some("Amount:sum")).unwrap();
    assert_eq!(rows, strings(&["Region"]));
    assert!(cols.is_empty());
    assert_eq!(pages, strings(&["Field2"]));
    assert_eq!(values[0].name, "Amount");
    assert!(plan_pivot_fields_request(None, Some(" , "), None, Some("A")).is_err());
    assert!(plan_pivot_fields_request(Some("A"), None, None, Some("  ")).is_err());
    let b = RangeBounds { start_col: 1, start_row: 2, end_col: 3, end_row: 9 };
    assert_eq!(resolve_pivot_anchor(None, b, "A2:C9", None).unwrap(), (5, 2));
    assert_eq!(resolve_pivot_anchor(Some("h4"), b, "A2:C9", Some("a2:c9")).unwrap(), (8, 4));
    assert_eq!(resolve_pivot_anchor(None, b, "A2:C9", Some("A1:C9")).unwrap_err().kind, ErrorKind::InvalidArgs);
    assert_eq!(resolve_pivot_anchor(Some("??"), b, "A2:C9", None).unwrap_err().kind, ErrorKind::InvalidArgs);
}
