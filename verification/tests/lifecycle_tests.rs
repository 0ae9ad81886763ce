use ooxml_xlsx::error::ErrorKind;
use ooxml_xlsx::lifecycle::{
    apply_replacements, apply_sheet_position_remap, element_name_from_fragment, remap_defined_name_positions,
    remap_workbook_view_positions,
    delete_sheet_position_remap, inserted_sheet_number, move_sheet_position_remap, new_worksheet_xml, qualified_name,
    relationship_target, remap_workbook_view_index, resolve_move_target_position, validate_new_sheet_name,
    visible_sheet_count,
};
use ooxml_xlsx::sheets::WorkbookSheet;

fn sheet(name: &str, id: u32, position: u32, rel: &str, state: &str) -> WorkbookSheet {
    WorkbookSheet {
        name: name.to_string(),
        sheet_id: id,
        position,
        rel_id: rel.to_string(),
        state: state.to_string(),
    }
}

fn three_sheets() -> Vec<WorkbookSheet> {
    vec![
        sheet("Data", 1, 1, "rId1", ""),
        sheet("Summary", 2, 2, "rId2", "hidden"),
        sheet("Notes", 3, 3, "rId3", "visible"),
    ]
}

#[test]
fn new_sheet_names_are_checked() {
    let sheets = three_sheets();
    assert!(validate_new_sheet_name("Report", &sheets, "").is_ok());
    assert_eq!(validate_new_sheet_name("  ", &sheets, "").unwrap_err().kind, ErrorKind::InvalidArgs);
    assert!(validate_new_sheet_name("history", &sheets, "").is_err());
    assert!(validate_new_sheet_name("'Quoted", &sheets, "").is_err());
    assert!(validate_new_sheet_name("A/B", &sheets, "").is_err());
    assert!(validate_new_sheet_name(&"x".repeat(32), &sheets, "").is_err());
    assert!(validate_new_sheet_name(&"x".repeat(31), &sheets, "").is_ok());
    assert!(validate_new_sheet_name("data", &sheets, "").is_err());
    assert!(validate_new_sheet_name("DATA", &sheets, "Data").is_ok());
}

#[test]
fn visible_sheets_are_counted() {
    assert_eq!(visible_sheet_count(&three_sheets()), 2);
}

#[test]
fn inserted_sheets_get_their_number() {
    assert_eq!(inserted_sheet_number(0, 5), 1);
    assert_eq!(inserted_sheet_number(3, 0), 4);
    assert_eq!(inserted_sheet_number(3, 9), 4);
    assert_eq!(inserted_sheet_number(3, 1), 2);
}

#[test]
fn moving_a_sheet_renumbers_positions() {
    assert_eq!(move_sheet_position_remap(4, 0, 2), vec![2, 0, 1, 3]);
    assert_eq!(move_sheet_position_remap(4, 3, 0), vec![1, 2, 3, 0]);
    assert_eq!(move_sheet_position_remap(3, 1, 9), vec![0, 2, 1]);
}

#[test]
fn moving_back_restores_positions() {
    let there = move_sheet_position_remap(5, 1, 3);
    let back = move_sheet_position_remap(5, 3, 1);
    for j in 0..5 {
        assert_eq!(back[there[j] as usize], j as i32);
    }
}

#[test]
fn deleting_a_sheet_renumbers_positions() {
    assert_eq!(delete_sheet_position_remap(4, 1), vec![0, -1, 1, 2]);
    assert_eq!(delete_sheet_position_remap(1, 0), vec![-1]);
}

#[test]
fn workbook_view_indexes_follow_the_remap() {
    let remap = delete_sheet_position_remap(4, 1);
    assert_eq!(remap_workbook_view_index(1, &remap), 1);
    assert_eq!(remap_workbook_view_index(3, &remap), 2);
    assert_eq!(remap_workbook_view_index(9, &remap), 2);
    assert_eq!(remap_workbook_view_index(-1, &remap), 0);
    assert_eq!(remap_workbook_view_index(0, &Vec::new()), 0);
    assert_eq!(remap_workbook_view_index(3, &vec![0, 1, 2, -1]), 2);
}

#[test]
fn move_targets_are_resolved() {
    let sheets = three_sheets();
    let moving = sheet("Data", 1, 1, "rId1", "");
    assert_eq!(resolve_move_target_position(&sheets, &moving, Some(3), true, None, None).unwrap(), 3);
    assert_eq!(resolve_move_target_position(&sheets, &moving, Some(4), true, None, None).unwrap_err().kind, ErrorKind::InvalidArgs);
    assert_eq!(resolve_move_target_position(&sheets, &moving, None, false, None, Some("Notes")).unwrap(), 3);
    assert_eq!(resolve_move_target_position(&sheets, &moving, None, false, Some("Notes"), None).unwrap(), 2);
    assert_eq!(resolve_move_target_position(&sheets, &moving, None, false, Some("Data"), None).unwrap(), 1);
    assert_eq!(resolve_move_target_position(&sheets, &moving, Some(1), true, Some("Notes"), None).unwrap_err().kind, ErrorKind::InvalidArgs);
    assert!(resolve_move_target_position(&sheets, &moving, None, false, None, None).is_err());
    assert!(resolve_move_target_position(&sheets, &moving, None, false, Some("Missing"), None).is_err());
}

#[test]
fn new_sheet_parts_are_spelled() {
    assert_eq!(qualified_name(Some("x"), "sheet"), "x:sheet");
    assert_eq!(qualified_name(Some(""), "sheet"), "sheet");
    assert_eq!(qualified_name(None, "sheet"), "sheet");
    assert_eq!(
        new_worksheet_xml(None),
        r#"<?xml version="1.0" encoding="UTF-8"?><worksheet xmlns="http://schemas.openxmlformats.org/spreadsheetml/2006/main"><sheetData/></worksheet>"#
    );
    assert_eq!(
        new_worksheet_xml(Some("x")),
        r#"<?xml version="1.0" encoding="UTF-8"?><x:worksheet xmlns:x="http://schemas.openxmlformats.org/spreadsheetml/2006/main"><x:sheetData/></x:worksheet>"#
    );
    assert_eq!(relationship_target("/xl/workbook.xml", "/xl/worksheets/sheet4.xml"), "worksheets/sheet4.xml");
    assert_eq!(relationship_target("workbook.xml", "/xl/worksheets/sheet4.xml"), "xl/worksheets/sheet4.xml");
    assert_eq!(relationship_target("/xl/workbook.xml", "/other/part.xml"), "other/part.xml");
}

#[test]
fn fragment_names_and_replacements() {
    assert_eq!(element_name_from_fragment("  <x:sheet name=\"a\"/>", "sheet"), "x:sheet");
    assert_eq!(element_name_from_fragment("<sheet/>", "f"), "sheet");
    assert_eq!(element_name_from_fragment("text", "f"), "f");
    assert_eq!(element_name_from_fragment("< sheet", "f"), "f");
    let reps = vec![(1usize, 2usize, "XY".to_string()), (4usize, 6usize, String::new())];
    assert_eq!(apply_replacements("abcdefg", &reps), "aXYcdg");
    assert_eq!(apply_replacements("abc", &Vec::new()), "abc");
    assert_eq!(apply_replacements("abc", &vec![(3usize, 3usize, "!".to_string())]), "abc!");
}

const WORKBOOK: &str = r#"<workbook><bookViews><workbookView xWindow="0" activeTab="2" firstSheet="1"/></bookViews><definedNames><definedName name="a" localSheetId="1">S!A1</definedName><definedName name="b" localSheetId="3">x</definedName><definedName name="c">y</definedName></definedNames></workbook>"#;

#[test]
fn sheet_positions_are_renumbered_in_the_workbook() {
    let remap = delete_sheet_position_remap(4, 1);
    let views = remap_workbook_view_positions(WORKBOOK, &remap);
    assert!(views.contains(r#"<workbookView activeTab="1" firstSheet="1" xWindow="0"/>"#));
    let names = remap_defined_name_positions(WORKBOOK, &remap);
    assert!(names.contains(r#"<definedNames>S!A1</definedName><definedName localSheetId="2" name="b">x</definedName><definedName name="c">y</definedName>"#));
    assert_eq!(
        apply_sheet_position_remap(WORKBOOK, &remap),
        r#"<workbook><bookViews><workbookView activeTab="1" firstSheet="1" xWindow="0"/></bookViews><definedNames>S!A1</definedName><definedName localSheetId="2" name="b">x</definedName><definedName name="c">y</definedName></definedNames></workbook>"#
    );
    let unchanged = remap_defined_name_positions(r#"<definedName localSheetId="9">z</definedName>"#, &remap);
    assert_eq!(unchanged, r#"<definedName localSheetId="9">z</definedName>"#);
}
