use ooxml_xlsx::error::ErrorKind;
use ooxml_xlsx::hyperlinks::{
    add_hyperlink, delete_hyperlink, update_hyperlink, XlsxHyperlinkAddOptions,
    XlsxHyperlinkDeleteOptions, XlsxHyperlinkSheet, XlsxHyperlinkUpdateOptions,
};
use ooxml_xlsx::rels::RelationshipEntry;
use ooxml_xlsx::sheets::WorkbookSheet;

fn sheet_with(xml: &str) -> XlsxHyperlinkSheet {
    XlsxHyperlinkSheet {
        sheet: WorkbookSheet {
            name: "Sheet1".to_string(),
            sheet_id: 1,
            position: 1,
            rel_id: "rId1".to_string(),
            state: String::new(),
        },
        part: "/xl/worksheets/sheet1.xml".to_string(),
        xml: xml.to_string(),
    }
}

const LINKED: &str = "<worksheet xmlns=\"http://schemas.openxmlformats.org/spreadsheetml/2006/main\"><sheetData/><hyperlinks><hyperlink ref=\"B2\" location=\"Sheet1!A1\"/></hyperlinks></worksheet>";
const PLAIN: &str = "<worksheet xmlns=\"http://schemas.openxmlformats.org/spreadsheetml/2006/main\"><sheetData/></worksheet>";

fn update_options<'a>() -> XlsxHyperlinkUpdateOptions<'a> {
    XlsxHyperlinkUpdateOptions {
        sheet: None,
        cell: None,
        url: None,
        set_url: false,
        location: None,
        set_location: false,
        display: None,
        set_display: false,
        tooltip: None,
        set_tooltip: false,
        expect_url: None,
        has_expect_url: false,
        expect_location: None,
        has_expect_location: false,
        out: None,
        backup: None,
        dry_run: false,
        no_validate: false,
        in_place: false,
    }
}

fn delete_options<'a>() -> XlsxHyperlinkDeleteOptions<'a> {
    XlsxHyperlinkDeleteOptions {
        sheet: None,
        cell: None,
        expect_url: None,
        has_expect_url: false,
        expect_location: None,
        has_expect_location: false,
        out: None,
        backup: None,
        dry_run: false,
        no_validate: false,
        in_place: false,
    }
}

#[test]
fn update_refuses_url_and_location_together() {
    let mut options = update_options();
    options.set_url = true;
    options.url = Some("https://example.com");
    options.set_location = true;
    options.location = Some("Sheet1!A1");
    let err = update_hyperlink(&sheet_with(LINKED), Vec::<RelationshipEntry>::new(), "B2", &options)
        .err()
        .unwrap();
    assert_eq!(err.kind, ErrorKind::InvalidArgs);
    assert_eq!(err.message, "specify only one of url or location");
}

#[test]
fn update_reports_missing_link() {
    let mut options = update_options();
    options.set_display = true;
    options.display = Some("x");
    let err = update_hyperlink(&sheet_with(LINKED), Vec::new(), "c3", &options).err().unwrap();
    assert_eq!(err.kind, ErrorKind::InvalidArgs);
    assert_eq!(err.message, "no hyperlink found on C3");
}

#[test]
fn update_sets_display_text() {
    let mut options = update_options();
    options.set_display = true;
    options.display = Some("Home");
    let m = update_hyperlink(&sheet_with(LINKED), Vec::new(), "b2", &options).unwrap();
    assert_eq!(m.ref_, "B2");
    let link = m.hyperlink.unwrap();
    assert_eq!(link.display, "Home");
    assert_eq!(link.location, "Sheet1!A1");
}

#[test]
fn delete_reports_missing_link() {
    let err = delete_hyperlink(&sheet_with(PLAIN), Vec::new(), "A1", &delete_options()).err().unwrap();
    assert_eq!(err.kind, ErrorKind::InvalidArgs);
    assert_eq!(err.message, "no hyperlink found on A1");
}

#[test]
fn delete_removes_the_link() {
    let m = delete_hyperlink(&sheet_with(LINKED), Vec::new(), "B2", &delete_options()).unwrap();
    assert_eq!(m.ref_, "B2");
    assert!(m.hyperlink.is_none());
}

#[test]
fn add_then_read_location() {
    let options = XlsxHyperlinkAddOptions {
        sheet: None,
        cell: None,
        url: None,
        location: Some("Sheet1!C9"),
        display: None,
        tooltip: None,
        replace: false,
        out: None,
        backup: None,
        dry_run: false,
        no_validate: false,
        in_place: false,
    };
    let m = add_hyperlink(&sheet_with(PLAIN), Vec::new(), "d4", &options).unwrap();
    assert_eq!(m.ref_, "D4");
    assert_eq!(m.hyperlink.unwrap().location, "Sheet1!C9");
}
