use ooxml_xlsx::cellbatch::{plan_xlsx_cells_set_batch, XlsxCellsSetBatchAssignment};
use ooxml_xlsx::error::ErrorKind;

fn assign(r: &str, t: &str, v: &str) -> XlsxCellsSetBatchAssignment {
    XlsxCellsSetBatchAssignment {
        cell_ref: r.to_string(),
        value_type: t.to_string(),
        value: v.to_string(),
        formula: if t == "formula" { v.to_string() } else { String::new() },
    }
}

#[test]
fn batch_covers_its_rectangle() {
    let plan = plan_xlsx_cells_set_batch(&vec![assign("B2", "number", "1"), assign("C3", "formula", "B2*2"), assign("B3", "string", "x")], 0).unwrap();
    assert_eq!((plan.bounds.start_col, plan.bounds.start_row, plan.bounds.end_col, plan.bounds.end_row), (2, 2, 3, 3));
    assert_eq!(plan.formula_count, 1);
    assert_eq!(plan.matrix.len(), 2);
    assert_eq!(plan.matrix[0][0].value, "1");
    assert!(plan.matrix[0][1].null);
    assert_eq!(plan.matrix[0][1].kind, "empty");
    assert_eq!(plan.matrix[1][0].value, "x");
    assert_eq!(plan.matrix[1][1].formula, "B2*2");
    assert!(!plan.matrix[1][1].null);
}

#[test]
fn the_last_assignment_to_a_cell_wins() {
    let plan = plan_xlsx_cells_set_batch(&vec![assign("A1", "string", "a"), assign("A1", "string", "b")], 0).unwrap();
    assert_eq!(plan.matrix.len(), 1);
    assert_eq!(plan.matrix[0][0].value, "b");
    assert_eq!(plan_xlsx_cells_set_batch(&vec![assign("1A", "string", "a")], 0).unwrap_err().kind, ErrorKind::InvalidArgs);
}

#[test]
fn a_negative_readback_limit_is_refused() {
    let e = plan_xlsx_cells_set_batch(&vec![assign("A1", "string", "a")], -1).unwrap_err();
    assert_eq!(e.kind, ErrorKind::InvalidArgs);
    assert_eq!(e.message, "--readback-max-cells must be >= 0");
}

#[test]
fn batch_entries_come_from_json() {
    let entries = ooxml_xlsx::rangeinput::resolve_xlsx_cells_set_batch_entries(
        Some(r#"[{"ref":"b2","value":"1","type":"number"},{"cell":"A1","formula":"B2*2"},{"ref":"B2","value":"x"}]"#),
        None,
    )
    .unwrap();
    assert_eq!(entries.len(), 3);
    assert_eq!((entries[0].cell_ref.as_str(), entries[0].value_type.as_str(), entries[0].value.as_str()), ("B2", "number", "1"));
    assert_eq!((entries[1].cell_ref.as_str(), entries[1].value_type.as_str(), entries[1].value.as_str()), ("A1", "formula", "B2*2"));
    assert_eq!(entries[2].value_type, "string");
    let plan = ooxml_xlsx::cellbatch::plan_batch_assignments(&entries, &vec![true, false, false]).unwrap();
    assert_eq!(plan.len(), 2);
    assert_eq!((plan[0].cell_ref.as_str(), plan[0].value_type.as_str(), plan[0].formula.as_str()), ("A1", "formula", "B2*2"));
    assert_eq!((plan[1].cell_ref.as_str(), plan[1].value.as_str()), ("B2", "x"));
}

#[test]
fn batch_json_is_refused_where_the_original_refuses_it() {
    let f = ooxml_xlsx::rangeinput::resolve_xlsx_cells_set_batch_entries;
    assert_eq!(f(None, None).unwrap_err().kind, ErrorKind::InvalidArgs);
    assert_eq!(f(Some("[]"), Some("[]")).unwrap_err().kind, ErrorKind::InvalidArgs);
    assert!(f(Some("[]"), None).is_err());
    assert!(f(Some("{}"), None).is_err());
    assert!(f(Some("not json"), None).unwrap_err().message.starts_with("invalid cells JSON: "));
    assert!(f(Some(r#"[{"ref":"A1","value":"1","formula":"B1"}]"#), None).is_err());
    assert!(f(Some(r#"[{"ref":"A1","value":""}]"#), None).is_err());
    assert!(f(Some(r#"[{"ref":"A1:B2","value":"1"}]"#), None).is_err());
    assert!(f(Some(r#"[{"value":"1"}]"#), None).is_err());
    let entries = f(None, Some(r#"[{"ref":"A1","value":"abc","type":"number"}]"#)).unwrap();
    assert!(ooxml_xlsx::cellbatch::plan_batch_assignments(&entries, &vec![false]).is_err());
}
