use ooxml_xlsx::cellref::RangeBounds;
use ooxml_xlsx::error::ErrorKind;
use ooxml_xlsx::names::{
    absolute_range_ref, check_expected_defined_name_ref, defined_name_index, defined_name_scope_text,
    duplicate_defined_name, is_r1c1_name, normalize_defined_name_ref, parse_xlsx_defined_name_handle,
    plan_xlsx_name_mutation, quote_defined_name_sheet, readback_xlsx_defined_name, renumber_defined_names,
    resolve_defined_name_ref_from_flags, resolve_defined_name_scope, select_xlsx_defined_name,
    validate_defined_name, workbook_scoped_defined_name_counts, xlsx_name_show_command, xlsx_names_list_command,
    XlsxDefinedName, XlsxNameMutationOptions,
};
use ooxml_xlsx::sheets::WorkbookSheet;

fn sheet(name: &str, id: u32, position: u32) -> WorkbookSheet {
    WorkbookSheet {
        name: name.to_string(),
        sheet_id: id,
        position,
        rel_id: format!("rId{}", id),
        state: String::new(),
    }
}

fn sheets() -> Vec<WorkbookSheet> {
    vec![sheet("Data", 1, 1), sheet("Bob's Sheet", 2, 2)]
}

fn name(number: u32, text: &str, local: Option<i64>, ref_text: &str) -> XlsxDefinedName {
    let mut n = XlsxDefinedName {
        number,
        name: text.to_string(),
        scope: if local.is_some() { "sheet".to_string() } else { "workbook".to_string() },
        local_sheet_id: local,
        sheet_number: local.map(|v| v as u32 + 1).unwrap_or(0),
        sheet_name: String::new(),
        ref_text: ref_text.to_string(),
        hidden: false,
        comment: String::new(),
        description: String::new(),
        primary_selector: String::new(),
        selectors: Vec::new(),
    };
    n.apply_selectors();
    n
}

fn options<'a>(name: Option<&'a str>) -> XlsxNameMutationOptions<'a> {
    XlsxNameMutationOptions {
        name,
        new_name: None,
        ref_: None,
        sheet: None,
        range: None,
        scope_sheet: None,
        expect_ref: None,
        hidden: false,
        comment: None,
        out: None,
        backup: None,
        dry_run: true,
        no_validate: false,
        in_place: false,
    }
}

#[test]
fn defined_name_validation_rules() {
    assert!(validate_defined_name("Sales_2024").is_ok());
    assert!(validate_defined_name("_hidden.total").is_ok());
    assert!(validate_defined_name("\\backslash").is_ok());
    assert!(validate_defined_name("Ventes_été").is_ok());
    assert_eq!(validate_defined_name("").unwrap_err(), "defined name cannot be empty");
    assert!(validate_defined_name("1st").unwrap_err().contains("must start with"));
    assert!(validate_defined_name("bad name").unwrap_err().contains("invalid characters"));
    assert!(validate_defined_name("AB12").unwrap_err().contains("A1 cell reference"));
    assert!(validate_defined_name("r2c3").unwrap_err().contains("R1C1 cell reference"));
    let long = "x".repeat(256);
    assert!(validate_defined_name(&long).unwrap_err().contains("255-character"));
    assert!(validate_defined_name(&"x".repeat(255)).is_ok());
}

#[test]
fn r1c1_names_are_recognized() {
    assert!(is_r1c1_name("R1C1"));
    assert!(is_r1c1_name("r10c20"));
    assert!(!is_r1c1_name("RC"));
    assert!(!is_r1c1_name("R1C"));
    assert!(!is_r1c1_name("Rate"));
    assert!(!is_r1c1_name("R1X2"));
}

#[test]
fn defined_name_refs_are_normalized() {
    assert_eq!(normalize_defined_name_ref("  =Data!$A$1 ").unwrap(), "Data!$A$1");
    assert_eq!(normalize_defined_name_ref("Data!$B$2").unwrap(), "Data!$B$2");
    assert_eq!(normalize_defined_name_ref(" = ").unwrap_err(), "defined name ref cannot be empty");
    assert!(check_expected_defined_name_ref("Data!$A$1", Some("=Data!$A$1")).is_ok());
    assert!(check_expected_defined_name_ref("Data!$A$1", None).is_ok());
    assert!(check_expected_defined_name_ref("Data!$A$1", Some("  ")).is_ok());
    assert!(check_expected_defined_name_ref("Data!$A$1", Some("Data!$B$1"))
        .unwrap_err()
        .contains("mismatch"));
}

#[test]
fn sheet_names_and_ranges_are_quoted_and_absolute() {
    assert_eq!(quote_defined_name_sheet("Bob's Sheet"), "'Bob''s Sheet'");
    let one = RangeBounds { start_col: 2, start_row: 3, end_col: 2, end_row: 3 };
    assert_eq!(absolute_range_ref(one), "$B$3");
    let many = RangeBounds { start_col: 3, start_row: 5, end_col: 1, end_row: 2 };
    assert_eq!(absolute_range_ref(many), "$A$2:$C$5");
}

#[test]
fn ref_from_flags_needs_exactly_one_source() {
    let s = sheets();
    assert_eq!(
        resolve_defined_name_ref_from_flags(&s, Some(" =Data!$A$1"), None, None).unwrap(),
        "Data!$A$1"
    );
    assert_eq!(
        resolve_defined_name_ref_from_flags(&s, None, Some("sheet:2"), Some("b2:a1")).unwrap(),
        "'Bob''s Sheet'!$A$1:$B$2"
    );
    let both = resolve_defined_name_ref_from_flags(&s, Some("x"), None, Some("A1")).unwrap_err();
    assert_eq!(both.kind, ErrorKind::InvalidArgs);
    let no_sheet = resolve_defined_name_ref_from_flags(&s, None, None, Some("A1")).unwrap_err();
    assert_eq!(no_sheet.kind, ErrorKind::InvalidArgs);
    let bad_range = resolve_defined_name_ref_from_flags(&s, None, Some("Data"), Some("1A")).unwrap_err();
    assert_eq!(bad_range.kind, ErrorKind::InvalidArgs);
}

#[test]
fn scope_flag_gives_local_sheet_id() {
    let s = sheets();
    assert_eq!(resolve_defined_name_scope(&s, None).unwrap(), None);
    assert_eq!(resolve_defined_name_scope(&s, Some("  ")).unwrap(), None);
    assert_eq!(resolve_defined_name_scope(&s, Some("Bob's Sheet")).unwrap(), Some(1));
    assert!(resolve_defined_name_scope(&s, Some("Missing")).is_err());
    assert_eq!(defined_name_scope_text(Some(0)), "sheet");
    assert_eq!(defined_name_scope_text(None), "workbook");
}

#[test]
fn selectors_of_workbook_and_sheet_names() {
    let wb = name(3, "Total", None, "Data!$A$1");
    assert_eq!(wb.primary_selector, "name:Total");
    assert_eq!(
        wb.selectors,
        vec![
            "name:Total",
            "definedName:3",
            "#3",
            "~Total",
            "Total",
            "scope:workbook/name:Total",
            "workbook:Total"
        ]
    );
    let mut local = name(1, "Rate", Some(1), "x");
    local.sheet_name = "Bob's Sheet".to_string();
    local.apply_selectors();
    assert_eq!(local.primary_selector, "sheet:2/name:Rate");
    assert_eq!(local.selectors[0], "sheet:2/name:Rate");
    assert!(local.selectors.contains(&"scope:sheet:Bob's Sheet/name:Rate".to_string()));
    let unnamed = name(4, "  ", None, "x");
    assert_eq!(unnamed.primary_selector, "definedName:4");
    assert_eq!(unnamed.selectors, vec!["definedName:4", "#4"]);
}

#[test]
fn duplicates_index_and_readback() {
    let names = vec![name(1, "Alpha", None, "a"), name(2, "Beta", Some(0), "b")];
    assert!(duplicate_defined_name(&names, "ALPHA", None, None));
    assert!(!duplicate_defined_name(&names, "alpha", None, Some(0)));
    assert!(!duplicate_defined_name(&names, "Beta", None, None));
    assert_eq!(defined_name_index(&names, &names[1]).unwrap(), 1);
    let moved = name(9, "beta", Some(0), "b");
    assert_eq!(defined_name_index(&names, &moved).unwrap(), 1);
    let gone = name(1, "Gamma", None, "g");
    assert_eq!(defined_name_index(&names, &gone).unwrap_err().kind, ErrorKind::Unexpected);
    assert_eq!(readback_xlsx_defined_name(&names, "beta", Some(0)).unwrap().ref_text, "b");
    assert_eq!(readback_xlsx_defined_name(&names, "beta", None).unwrap_err().kind, ErrorKind::Unexpected);
}

#[test]
fn renumbering_counts_from_one() {
    let mut names = vec![name(5, "A", None, "a"), name(9, "B", None, "b")];
    renumber_defined_names(&mut names);
    assert_eq!(names[0].number, 1);
    assert_eq!(names[1].number, 2);
    assert!(names[1].selectors.contains(&"#2".to_string()));
}

#[test]
fn workbook_name_counts_in_first_order() {
    let names = vec![
        name(1, "A", None, "a"),
        name(2, "B", None, "b"),
        name(3, "A", None, "c"),
        name(4, "A", Some(0), "d"),
    ];
    let counts = workbook_scoped_defined_name_counts(&names);
    assert_eq!(counts, vec![("A".to_string(), 2), ("B".to_string(), 1)]);
}

#[test]
fn command_lines_for_names() {
    assert_eq!(xlsx_names_list_command("my book.xlsx"), "ooxml --json xlsx names list 'my book.xlsx'");
    let local = name(1, "Rate", Some(1), "x");
    assert_eq!(
        xlsx_name_show_command("b.xlsx", &local),
        "ooxml --json xlsx names show b.xlsx --name Rate --scope-sheet sheet:2"
    );
    let wb = name(1, "Total", None, "x");
    assert_eq!(xlsx_name_show_command("b.xlsx", &wb), "ooxml --json xlsx names show b.xlsx --name Total");
}

#[test]
fn handles_and_selection() {
    assert_eq!(parse_xlsx_defined_name_handle("Total").unwrap(), None);
    assert_eq!(
        parse_xlsx_defined_name_handle(" H:xlsx/wb/name:n:Total ").unwrap(),
        Some("Total".to_string())
    );
    assert!(parse_xlsx_defined_name_handle("H:docx/wb/name:n:x").is_err());
    assert!(parse_xlsx_defined_name_handle("H:xlsx/ws:1").is_err());
    let s = sheets();
    let names = vec![name(1, "Rate", None, "a"), name(2, "Rate", Some(0), "b")];
    let err = select_xlsx_defined_name(&s, &names, "rate", None).unwrap_err();
    assert_eq!(err.kind, ErrorKind::InvalidArgs);
    let scoped = select_xlsx_defined_name(&s, &names, "rate", Some("Data")).unwrap();
    assert_eq!(scoped.ref_text, "b");
    let by_handle = select_xlsx_defined_name(&s, &names, "H:xlsx/wb/name:n:Rate", None).unwrap();
    assert_eq!(by_handle.ref_text, "a");
    let missing = select_xlsx_defined_name(&s, &names, "Nope", None).unwrap_err();
    assert_eq!(missing.kind, ErrorKind::TargetNotFound);
    assert_eq!(select_xlsx_defined_name(&s, &names, "  ", None).unwrap_err().kind, ErrorKind::InvalidArgs);
}

#[test]
fn add_then_read_back() {
    let s = sheets();
    let names = vec![name(1, "Alpha", None, "Data!$A$1")];
    let mut o = options(Some(" Beta "));
    o.sheet = Some("Data");
    o.range = Some("A1:B2");
    o.comment = Some("  note ");
    let plan = plan_xlsx_name_mutation(&s, &names, "add", &o).unwrap();
    assert_eq!(plan.names.len(), 2);
    let added = &plan.names[1];
    assert_eq!(added.number, 2);
    assert_eq!(added.name, "Beta");
    assert_eq!(added.ref_text, "'Data'!$A$1:$B$2");
    assert_eq!(added.comment, "note");
    assert_eq!(added.scope, "workbook");
    let back = readback_xlsx_defined_name(&plan.names, "beta", None).unwrap();
    assert_eq!(back.ref_text, "'Data'!$A$1:$B$2");
    assert_eq!(plan.changed.unwrap().name, "Beta");
}

#[test]
fn add_with_sheet_scope_and_duplicate() {
    let s = sheets();
    let names = vec![name(1, "Alpha", None, "Data!$A$1")];
    let mut o = options(Some("alpha"));
    o.ref_ = Some("=1+1");
    let dup = plan_xlsx_name_mutation(&s, &names, "add", &o).unwrap_err();
    assert_eq!(dup.kind, ErrorKind::InvalidArgs);
    assert_eq!(dup.message, "failed to add defined name: defined name \"alpha\" already exists in workbook scope");
    o.scope_sheet = Some("sheet:2");
    let plan = plan_xlsx_name_mutation(&s, &names, "add", &o).unwrap();
    let added = &plan.names[1];
    assert_eq!(added.local_sheet_id, Some(1));
    assert_eq!(added.scope, "sheet");
    assert_eq!(added.sheet_number, 2);
    assert_eq!(added.sheet_name, "Bob's Sheet");
    assert_eq!(added.ref_text, "1+1");
}

#[test]
fn update_rename_delete() {
    let s = sheets();
    let names = vec![
        name(1, "Alpha", None, "Data!$A$1"),
        name(2, "Beta", None, "Data!$B$1"),
        name(3, "Gamma", None, "Data!$C$1"),
    ];
    let mut u = options(Some("beta"));
    u.ref_ = Some("Data!$Z$9");
    u.expect_ref = Some("=Data!$B$1");
    let plan = plan_xlsx_name_mutation(&s, &names, "update", &u).unwrap();
    assert_eq!(plan.names[1].ref_text, "Data!$Z$9");
    assert_eq!(plan.previous_ref, "Data!$B$1");
    assert_eq!(plan.names[0].ref_text, "Data!$A$1");

    u.expect_ref = Some("Data!$Q$1");
    assert_eq!(plan_xlsx_name_mutation(&s, &names, "update", &u).unwrap_err().kind, ErrorKind::InvalidArgs);

    let mut r = options(Some("Gamma"));
    r.new_name = Some("Delta");
    let plan = plan_xlsx_name_mutation(&s, &names, "rename", &r).unwrap();
    assert_eq!(plan.names[2].name, "Delta");
    assert_eq!(plan.previous_name, "Gamma");
    assert_eq!(readback_xlsx_defined_name(&plan.names, "delta", None).unwrap().number, 3);
    r.new_name = Some("alpha");
    let taken = plan_xlsx_name_mutation(&s, &names, "rename", &r).unwrap_err();
    assert_eq!(taken.kind, ErrorKind::InvalidArgs);
    assert!(taken.message.ends_with("defined name \"alpha\" already exists in workbook scope"));
    r.new_name = Some("A1");
    assert_eq!(plan_xlsx_name_mutation(&s, &names, "rename", &r).unwrap_err().kind, ErrorKind::InvalidArgs);

    let d = options(Some("alpha"));
    let plan = plan_xlsx_name_mutation(&s, &names, "delete", &d).unwrap();
    assert_eq!(plan.names.len(), 2);
    assert_eq!(plan.names[0].name, "Beta");
    assert_eq!(plan.names[0].number, 1);
    assert_eq!(plan.names[1].number, 2);
    assert_eq!(plan.deleted.unwrap().name, "Alpha");

    assert_eq!(
        plan_xlsx_name_mutation(&s, &names, "merge", &d).unwrap_err().kind,
        ErrorKind::Unexpected
    );
    assert_eq!(
        plan_xlsx_name_mutation(&s, &names, "delete", &options(Some("Zeta"))).unwrap_err().kind,
        ErrorKind::TargetNotFound
    );
}
