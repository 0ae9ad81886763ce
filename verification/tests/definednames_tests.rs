use ooxml_xlsx::definednames::{
    defined_names_block_span, render_defined_name_element, render_defined_names_block,
    rewrite_workbook_defined_names, workbook_defined_names_insert_position, workbook_element_prefix,
};
use ooxml_xlsx::error::ErrorKind;
use ooxml_xlsx::names::XlsxDefinedName;

fn defined(name: &str, local_sheet_id: Option<i64>, ref_text: &str) -> XlsxDefinedName {
    XlsxDefinedName {
        number: 1,
        name: name.to_string(),
        scope: if local_sheet_id.is_some() { "sheet".to_string() } else { "workbook".to_string() },
        local_sheet_id,
        sheet_number: 0,
        sheet_name: String::new(),
        ref_text: ref_text.to_string(),
        hidden: false,
        comment: String::new(),
        description: String::new(),
        primary_selector: String::new(),
        selectors: Vec::new(),
    }
}

const WITH_BLOCK: &str = "<workbook><sheets><sheet name=\"A\" sheetId=\"1\" r:id=\"rId1\"/></sheets><definedNames><definedName name=\"Old\">A!$A$1</definedName></definedNames><calcPr calcId=\"1\"/></workbook>";
const WITHOUT_BLOCK: &str = "<workbook><sheets><sheet name=\"A\" sheetId=\"1\" r:id=\"rId1\"/></sheets><calcPr calcId=\"1\"/></workbook>";

#[test]
fn element_carries_attributes_in_order() {
    let mut d = defined("Total", Some(0), "A!$B$2&\"x\"");
    d.hidden = true;
    d.comment = "  sum  ".to_string();
    assert_eq!(
        render_defined_name_element(None, &d),
        "<definedName name=\"Total\" localSheetId=\"0\" hidden=\"1\" comment=\"sum\">A!$B$2&amp;\"x\"</definedName>"
    );
    assert_eq!(
        render_defined_name_element(Some("x"), &defined("N", None, "1")),
        "<x:definedName name=\"N\">1</x:definedName>"
    );
}

#[test]
fn block_uses_workbook_prefix() {
    let xml = "<x:workbook xmlns:x=\"urn:main\"><x:sheets/></x:workbook>";
    assert_eq!(workbook_element_prefix(xml), Some("x".to_string()));
    assert_eq!(
        render_defined_names_block(xml, &vec![defined("N", None, "1")]),
        "<x:definedNames><x:definedName name=\"N\">1</x:definedName></x:definedNames>"
    );
    assert_eq!(render_defined_names_block(xml, &Vec::new()), "");
    assert_eq!(workbook_element_prefix(WITHOUT_BLOCK), None);
}

#[test]
fn block_span_covers_the_existing_block() {
    let start = WITH_BLOCK.find("<definedNames>").unwrap();
    let end = WITH_BLOCK.find("</definedNames>").unwrap() + "</definedNames>".len();
    assert_eq!(defined_names_block_span(WITH_BLOCK).unwrap(), Some((start, end)));
    assert_eq!(defined_names_block_span(WITHOUT_BLOCK).unwrap(), None);
}

#[test]
fn insertion_goes_before_calc_pr() {
    let at = WITHOUT_BLOCK.find("<calcPr").unwrap();
    assert_eq!(workbook_defined_names_insert_position(WITHOUT_BLOCK), Some(at));
    let bare = "<workbook><sheets/></workbook>";
    assert_eq!(workbook_defined_names_insert_position(bare), Some(bare.find("</workbook>").unwrap()));
}

#[test]
fn rewrite_replaces_the_block() {
    let out = rewrite_workbook_defined_names(WITH_BLOCK, &vec![defined("New", None, "A!$C$3")]).unwrap();
    assert_eq!(
        out,
        "<workbook><sheets><sheet name=\"A\" sheetId=\"1\" r:id=\"rId1\"/></sheets><definedNames><definedName name=\"New\">A!$C$3</definedName></definedNames><calcPr calcId=\"1\"/></workbook>"
    );
}

#[test]
fn rewrite_with_no_names_drops_the_block() {
    let out = rewrite_workbook_defined_names(WITH_BLOCK, &Vec::new()).unwrap();
    assert_eq!(out, WITHOUT_BLOCK);
    assert_eq!(rewrite_workbook_defined_names(WITHOUT_BLOCK, &Vec::new()).unwrap(), WITHOUT_BLOCK);
}

#[test]
fn rewrite_inserts_a_new_block() {
    let out = rewrite_workbook_defined_names(WITHOUT_BLOCK, &vec![defined("N", Some(0), "A!$A$1")]).unwrap();
    assert_eq!(
        out,
        "<workbook><sheets><sheet name=\"A\" sheetId=\"1\" r:id=\"rId1\"/></sheets><definedNames><definedName name=\"N\" localSheetId=\"0\">A!$A$1</definedName></definedNames><calcPr calcId=\"1\"/></workbook>"
    );
}

#[test]
fn rewrite_without_insertion_point_fails() {
    let err = rewrite_workbook_defined_names("<workbook/>", &vec![defined("N", None, "1")]).err().unwrap();
    assert_eq!(err.kind, ErrorKind::Unexpected);
    assert_eq!(err.message, "could not locate workbook insertion point");
}
