use ooxml_xlsx::cellref::{col_name, column_letters_to_index, parse_cell_ref};
use ooxml_xlsx::orders::worksheet_child_order;
use ooxml_xlsx::names::{plan_xlsx_name_mutation, XlsxDefinedName, XlsxNameMutationOptions};
use ooxml_xlsx::sheets::{normalize_xl_target, resolve_sheet, xlsx_sheet_selector, WorkbookSheet};

fn sheet(name: &str, id: u32, position: u32) -> WorkbookSheet {
    WorkbookSheet {
        name: name.to_string(),
        sheet_id: id,
        position,
        rel_id: format!("rId{}", id),
        state: String::new(),
    }
}

#[test]
fn listed_selectors_resolve_to_their_sheets() {
    let sheets = vec![sheet("Data", 3, 1), sheet("3", 7, 2), sheet("Summary", 12, 3)];
    for s in &sheets {
        let selector = xlsx_sheet_selector(s);
        assert_eq!(resolve_sheet(&sheets, &selector).unwrap().name, s.name);
    }
}

#[test]
fn normalized_targets_stay_normalized() {
    for target in ["worksheets/sheet1.xml", "/xl/worksheets/sheet2.xml", "../media/a.png", "//xl/styles.xml"] {
        let once = normalize_xl_target(target);
        assert!(once.starts_with("xl/"));
        assert_eq!(normalize_xl_target(&once), once);
    }
    assert_eq!(normalize_xl_target("../media/a.png"), "xl/media/a.png");
}

#[test]
fn cell_references_read_back_in_plain_form() {
    for text in ["a1", "$B$7", " c12 ", "xfd1048576", "$aa$3"] {
        let (col, row) = parse_cell_ref(text).unwrap();
        let plain = format!("{}{}", col_name(col), row);
        assert_eq!(parse_cell_ref(&plain).unwrap(), (col, row));
    }
    assert_eq!(format!("{}{}", col_name(2), 7), "B7");
}

#[test]
fn column_letters_read_back() {
    let n = column_letters_to_index("ab").unwrap();
    assert_eq!(n, 28);
    assert_eq!(col_name(n), "AB");
    assert_eq!(column_letters_to_index(&col_name(n)).unwrap(), 28);
    assert_eq!(col_name(16385), "XFE");
    assert!(column_letters_to_index(&col_name(16385)).is_err());
}

fn defined(number: u32, name: &str, local: Option<i64>) -> XlsxDefinedName {
    XlsxDefinedName {
        number,
        name: name.to_string(),
        scope: if local.is_some() { "sheet".to_string() } else { "workbook".to_string() },
        local_sheet_id: local,
        sheet_number: 0,
        sheet_name: String::new(),
        ref_text: "Data!$A$1".to_string(),
        hidden: false,
        comment: String::new(),
        description: String::new(),
        primary_selector: String::new(),
        selectors: Vec::new(),
    }
}

fn distinct(names: &[XlsxDefinedName]) -> bool {
    names.iter().enumerate().all(|(i, a)| {
        names
            .iter()
            .skip(i + 1)
            .all(|b| !(a.name.eq_ignore_ascii_case(&b.name) && a.local_sheet_id == b.local_sheet_id))
    })
}

#[test]
fn name_edits_keep_names_distinct() {
    let sheets = vec![sheet("Data", 1, 1)];
    let names = vec![defined(1, "Alpha", None), defined(2, "Beta", None), defined(3, "beta", Some(0))];
    assert!(distinct(&names));
    let mut o = XlsxNameMutationOptions {
        name: Some("Gamma"),
        new_name: None,
        ref_: Some("Data!$B$2"),
        sheet: None,
        range: None,
        scope_sheet: None,
        expect_ref: None,
        hidden: false,
        comment: None,
        out: None,
        backup: None,
        dry_run: true,
        no_validate: false,
        in_place: false,
    };
    let added = plan_xlsx_name_mutation(&sheets, &names, "add", &o).unwrap();
    assert!(distinct(&added.names));
    o.name = Some("ALPHA");
    assert!(plan_xlsx_name_mutation(&sheets, &names, "add", &o).is_err());
    o.name = Some("Alpha");
    o.new_name = Some("BETA");
    assert!(plan_xlsx_name_mutation(&sheets, &names, "rename", &o).is_err());
    o.new_name = Some("Delta");
    let renamed = plan_xlsx_name_mutation(&sheets, &names, "rename", &o).unwrap();
    assert!(distinct(&renamed.names));
    let deleted = plan_xlsx_name_mutation(&sheets, &names, "delete", &o).unwrap();
    assert!(distinct(&deleted.names));
}

#[test]
fn worksheet_children_follow_schema_order() {
    let sequence = [
        "sheetPr", "dimension", "sheetViews", "sheetFormatPr", "cols", "sheetData",
        "mergeCells", "conditionalFormatting", "hyperlinks", "pageMargins", "drawing",
        "tableParts", "extLst",
    ];
    for pair in sequence.windows(2) {
        assert!(worksheet_child_order(pair[0]) < worksheet_child_order(pair[1]));
    }
    assert_eq!(worksheet_child_order("hyperlinks"), 190);
    assert_eq!(worksheet_child_order("somethingElse"), 1000);
    assert!(worksheet_child_order("extLst") < worksheet_child_order("somethingElse"));
}
