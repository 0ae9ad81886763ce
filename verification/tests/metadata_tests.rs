use ooxml_xlsx::metadata::{
    app_property_order, apply_xlsx_metadata_string_update, check_xlsx_workbook_metadata_guards, push_metadata_element,
    qualified_xml_name, render_xlsx_app_props_xml, render_xlsx_core_props_xml, xlsx_workbook_metadata_has_updates,
    xml_root_end_position, XlsxWorkbookMetadataFields, XlsxWorkbookMetadataUpdateOptions,
};

fn fields() -> XlsxWorkbookMetadataFields {
    XlsxWorkbookMetadataFields {
        title: "Q1 & Q2".to_string(),
        subject: String::new(),
        creator: "Ann".to_string(),
        keywords: String::new(),
        description: String::new(),
        last_modified_by: String::new(),
        category: "Finance".to_string(),
        company: "ACME".to_string(),
        manager: String::new(),
    }
}

fn no_options<'a>() -> XlsxWorkbookMetadataUpdateOptions<'a> {
    XlsxWorkbookMetadataUpdateOptions {
        title: None,
        subject: None,
        creator: None,
        keywords: None,
        description: None,
        last_modified_by: None,
        category: None,
        company: None,
        manager: None,
        calc_mode: None,
        full_calc_on_load: None,
        expect_title: None,
        expect_subject: None,
        expect_creator: None,
        expect_keywords: None,
        expect_description: None,
        expect_last_modified_by: None,
        expect_category: None,
        expect_company: None,
        expect_manager: None,
        out: None,
        backup: None,
        dry_run: false,
        no_validate: false,
        in_place: false,
    }
}

#[test]
fn property_parts_hold_the_set_fields() {
    let core = render_xlsx_core_props_xml(&fields());
    assert!(core.starts_with("<?xml"));
    assert!(core.contains("<dc:title>Q1 &amp; Q2</dc:title><dc:creator>Ann</dc:creator><cp:category>Finance</cp:category></cp:coreProperties>"));
    assert!(!core.contains("dc:subject"));
    let app = render_xlsx_app_props_xml(&fields());
    assert!(app.ends_with("<Company>ACME</Company></Properties>"));
    assert!(!app.contains("Manager"));
}

#[test]
fn elements_and_names() {
    assert_eq!(qualified_xml_name("dc", "title"), "dc:title");
    assert_eq!(qualified_xml_name("", "Company"), "Company");
    let mut s = "<r>".to_string();
    push_metadata_element(&mut s, "cp", "keywords", "a<b");
    push_metadata_element(&mut s, "cp", "category", "");
    assert_eq!(s, "<r><cp:keywords>a&lt;b</cp:keywords>");
    assert_eq!(app_property_order("Manager"), 20);
    assert_eq!(app_property_order("DocSecurity"), 270);
    assert_eq!(app_property_order("Other"), 10000);
}

#[test]
fn updates_and_guards() {
    let mut o = no_options();
    assert!(!xlsx_workbook_metadata_has_updates(&o));
    o.full_calc_on_load = Some(true);
    assert!(xlsx_workbook_metadata_has_updates(&o));
    let mut g = no_options();
    g.expect_creator = Some("Ann");
    assert!(check_xlsx_workbook_metadata_guards(&g, &fields()).is_ok());
    g.expect_title = Some("Other");
    assert!(check_xlsx_workbook_metadata_guards(&g, &fields()).is_err());
    let mut target = "old".to_string();
    let mut updated = Vec::new();
    let mut previous = Vec::new();
    apply_xlsx_metadata_string_update("title", Some("new"), "old", &mut target, &mut updated, &mut previous);
    apply_xlsx_metadata_string_update("subject", None, "x", &mut target, &mut updated, &mut previous);
    assert_eq!(target, "new");
    assert_eq!(updated, vec!["title".to_string()]);
    assert_eq!(previous, vec![("title".to_string(), "old".to_string())]);
}

#[test]
fn root_end_positions() {
    assert_eq!(xml_root_end_position("<?xml version=\"1.0\"?><a><b/></a>"), Some(28));
    assert_eq!(xml_root_end_position("<a/>"), Some(0));
    assert_eq!(xml_root_end_position("text"), None);
}
