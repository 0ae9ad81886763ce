use ooxml_xlsx::error::ErrorKind;
use ooxml_xlsx::metadata::{
    ensure_xmlns_attr, find_direct_child_span_by_ns, metadata_ordered_insert_position, plan_xlsx_workbook_metadata_update,
    set_metadata_direct_child_xml, update_xlsx_app_props_xml, update_xlsx_core_props_xml, update_xlsx_workbook_calc_xml,
    xlsx_core_props_part_xml, ChildSchema, XlsxWorkbookMetadataFields, XlsxWorkbookMetadataUpdateOptions,
};

const CORE: &str = "http://schemas.openxmlformats.org/package/2006/metadata/core-properties";
const DC: &str = "http://purl.org/dc/elements/1.1/";
const EXT: &str = "http://schemas.openxmlformats.org/officeDocument/2006/extended-properties";

fn blank_fields() -> XlsxWorkbookMetadataFields {
    XlsxWorkbookMetadataFields {
        title: String::new(),
        subject: String::new(),
        creator: String::new(),
        keywords: String::new(),
        description: String::new(),
        last_modified_by: String::new(),
        category: String::new(),
        company: String::new(),
        manager: String::new(),
    }
}

fn blank_options<'a>() -> XlsxWorkbookMetadataUpdateOptions<'a> {
    XlsxWorkbookMetadataUpdateOptions {
        title: None,
        subject: None,
        creator: None,
        keywords: None,
        description: None,
        last_modified_by: None,
        category: None,
        company: None,
        manager: None,
        calc_mode: None,
        full_calc_on_load: None,
        expect_title: None,
        expect_subject: None,
        expect_creator: None,
        expect_keywords: None,
        expect_description: None,
        expect_last_modified_by: None,
        expect_category: None,
        expect_company: None,
        expect_manager: None,
        out: None,
        backup: None,
        dry_run: false,
        no_validate: false,
        in_place: false,
    }
}

fn core_part(title: &str) -> String {
    format!(r#"<cp:coreProperties xmlns:cp="{CORE}" xmlns:dc="{DC}"><dc:title>{title}</dc:title></cp:coreProperties>"#)
}

#[test]
fn core_update_replaces_and_adds_properties() {
    let mut options = blank_options();
    options.title = Some("New & improved");
    options.creator = Some("Bob");
    let mut fields = blank_fields();
    fields.title = "New & improved".to_string();
    fields.creator = "Bob".to_string();
    let out = update_xlsx_core_props_xml(&core_part("Old"), &options, &fields);
    assert_eq!(
        out,
        format!(
            r#"<cp:coreProperties xmlns:cp="{CORE}" xmlns:dc="{DC}" xmlns:dcmitype="http://purl.org/dc/dcmitype/" xmlns:dcterms="http://purl.org/dc/terms/" xmlns:xsi="http://www.w3.org/2001/XMLSchema-instance"><dc:title>New &amp; improved</dc:title><dc:creator>Bob</dc:creator></cp:coreProperties>"#
        )
    );
}

#[test]
fn empty_value_removes_the_property() {
    let out = set_metadata_direct_child_xml(&core_part("Old"), DC, "title", "dc", "", false);
    assert_eq!(out, format!(r#"<cp:coreProperties xmlns:cp="{CORE}" xmlns:dc="{DC}"></cp:coreProperties>"#));
    let absent = set_metadata_direct_child_xml(&core_part("Old"), DC, "subject", "dc", "", false);
    assert_eq!(absent, core_part("Old"));
}

#[test]
fn property_in_another_namespace_is_not_replaced() {
    let xml = format!(r#"<cp:coreProperties xmlns:cp="{CORE}" xmlns:dc="urn:other"><dc:title>Old</dc:title></cp:coreProperties>"#);
    let span = find_direct_child_span_by_ns(&xml, DC, "title");
    assert!(span.is_none());
    let out = set_metadata_direct_child_xml(&xml, DC, "title", "dc", "New", false);
    assert!(out.ends_with("<dc:title>Old</dc:title><dc:title>New</dc:title></cp:coreProperties>"));
}

#[test]
fn child_span_covers_the_whole_element() {
    let xml = core_part("Old");
    let span = find_direct_child_span_by_ns(&xml, DC, "title").unwrap();
    let chars: Vec<char> = xml.chars().collect();
    let text: String = chars[span.start..span.end].iter().collect();
    assert_eq!(text, "<dc:title>Old</dc:title>");
    assert_eq!(span.name, "dc:title");
}

#[test]
fn app_update_keeps_the_property_order() {
    let xml = format!(r#"<Properties xmlns="{EXT}"><Company>Old</Company><Application>Excel</Application></Properties>"#);
    let mut options = blank_options();
    options.manager = Some("M");
    let mut fields = blank_fields();
    fields.manager = "M".to_string();
    let out = update_xlsx_app_props_xml(&xml, &options, &fields);
    assert_eq!(
        out,
        format!(r#"<Properties xmlns="{EXT}"><Manager>M</Manager><Company>Old</Company><Application>Excel</Application></Properties>"#)
    );
    assert_eq!(metadata_ordered_insert_position(&xml, 1000, ChildSchema::ExtendedProperties), Some(xml.len() - "</Properties>".len()));
}

#[test]
fn xmlns_is_added_once() {
    let out = ensure_xmlns_attr("<root a=\"1\"/>".to_string(), "x", "urn:x");
    assert_eq!(out, "<root a=\"1\" xmlns:x=\"urn:x\"/>");
    assert_eq!(ensure_xmlns_attr(out.clone(), "x", "urn:y"), out);
    assert_eq!(ensure_xmlns_attr("<root/>".to_string(), "", "urn:d"), "<root xmlns=\"urn:d\"/>");
}

#[test]
fn calc_settings_rewrite_the_existing_element() {
    let xml = r#"<workbook><sheets/><calcPr calcId="191029" fullCalcOnLoad="1"/></workbook>"#.to_string();
    let out = update_xlsx_workbook_calc_xml(xml.clone(), Some("manual"), Some(true));
    assert_eq!(out, r#"<workbook><sheets/><calcPr calcId="191029" calcMode="manual" forceFullCalc="1" fullCalcOnLoad="1"/></workbook>"#);
    let off = update_xlsx_workbook_calc_xml(xml, None, Some(false));
    assert_eq!(off, r#"<workbook><sheets/><calcPr calcId="191029"/></workbook>"#);
}

#[test]
fn calc_settings_insert_in_workbook_order() {
    let xml = r#"<workbook><sheets><sheet name="A"/></sheets><extLst/></workbook>"#.to_string();
    let out = update_xlsx_workbook_calc_xml(xml, Some("auto"), Some(false));
    assert_eq!(out, r#"<workbook><sheets><sheet name="A"/></sheets><calcPr calcMode="auto"/><extLst/></workbook>"#);
}

#[test]
fn update_plan_records_changes_and_refuses_bad_modes() {
    let mut current = blank_fields();
    current.title = "Old".to_string();
    let mut options = blank_options();
    options.title = Some("New");
    options.calc_mode = Some("manual");
    options.full_calc_on_load = Some(true);
    let plan = plan_xlsx_workbook_metadata_update(&options, &current, "auto", false, false).unwrap();
    assert_eq!(plan.updated.title, "New");
    assert_eq!(plan.calc_mode, "manual");
    assert!(plan.full_calc_on_load && plan.force_full_calc);
    assert_eq!(plan.updated_fields, vec!["title".to_string(), "calcMode".to_string(), "fullCalcOnLoad".to_string()]);
    assert_eq!(
        plan.previous_values,
        vec![
            ("title".to_string(), "Old".to_string()),
            ("calcMode".to_string(), "auto".to_string()),
            ("fullCalcOnLoad".to_string(), "false".to_string())
        ]
    );
    options.calc_mode = Some("sometimes");
    let err = plan_xlsx_workbook_metadata_update(&options, &current, "auto", false, false).unwrap_err();
    assert_eq!(err.kind, ErrorKind::InvalidArgs);
    options.calc_mode = None;
    options.expect_title = Some("Other");
    let guarded = plan_xlsx_workbook_metadata_update(&options, &current, "auto", false, false).unwrap_err();
    assert_eq!(guarded.kind, ErrorKind::InvalidArgs);
}

#[test]
fn missing_core_part_is_created_from_fields() {
    let mut fields = blank_fields();
    fields.title = "T".to_string();
    let options = blank_options();
    let (xml, created) = xlsx_core_props_part_xml(None, &options, &fields);
    assert!(created);
    assert!(xml.contains("<dc:title>T</dc:title>"));
    let (kept, created2) = xlsx_core_props_part_xml(Some("<x/>"), &options, &fields);
    assert!(!created2);
    assert!(kept.starts_with("<x "));
}
