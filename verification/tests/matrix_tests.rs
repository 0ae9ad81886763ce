use ooxml_xlsx::error::ErrorKind;
use ooxml_xlsx::matrix::{
    parse_delimited_records, parse_xlsx_delimited_matrix, parse_xlsx_matrix_cell, parse_xlsx_matrix_rows,
    parse_xlsx_range_set_json_value_owned, rectangularize_xlsx_matrix, resolve_xlsx_ranges_set_bounds,
    transpose_xlsx_matrix, JsonValue,
};
use ooxml_xlsx::mutation::XlsxMatrixCell;

fn text(v: &str) -> XlsxMatrixCell {
    XlsxMatrixCell { kind: "string".to_string(), value: v.to_string(), formula: String::new(), null: false }
}

fn values(m: &[Vec<XlsxMatrixCell>]) -> Vec<Vec<String>> {
    m.iter().map(|r| r.iter().map(|c| c.value.clone()).collect()).collect()
}

#[test]
fn delimited_records_with_quotes_and_line_ends() {
    let recs = parse_delimited_records("a,\"b,\"\"c\"\"\"\r\n1,2\n\n3", ',').unwrap();
    assert_eq!(
        recs,
        vec![
            vec!["a".to_string(), "b,\"c\"".to_string()],
            vec!["1".to_string(), "2".to_string()],
            vec!["".to_string()],
            vec!["3".to_string()]
        ]
    );
    assert_eq!(parse_delimited_records("", ',').unwrap(), Vec::<Vec<String>>::new());
    assert_eq!(parse_delimited_records("x\ty\n", '\t').unwrap(), vec![vec!["x".to_string(), "y".to_string()]]);
    assert_eq!(parse_delimited_records("a,", ',').unwrap(), vec![vec!["a".to_string(), "".to_string()]]);
    assert_eq!(parse_delimited_records("a\"b", ',').unwrap_err().kind, ErrorKind::InvalidArgs);
    assert_eq!(parse_delimited_records("\"ab\"c", ',').unwrap_err().kind, ErrorKind::InvalidArgs);
    assert_eq!(parse_delimited_records("\"open", ',').unwrap_err().kind, ErrorKind::InvalidArgs);
}

#[test]
fn delimited_matrix_is_text_rows() {
    let m = parse_xlsx_delimited_matrix("1,2\n3,4", ',').unwrap();
    assert_eq!(m.major_dimension, "rows");
    assert!(m.range.is_none());
    assert_eq!(values(&m.rows), vec![vec!["1", "2"], vec!["3", "4"]]);
    assert_eq!(m.rows[1][0].kind, "string");
}

#[test]
fn transpose_twice_is_identity() {
    let m = vec![vec![text("a"), text("b"), text("c")], vec![text("d"), text("e"), text("f")]];
    let t = transpose_xlsx_matrix(m).unwrap();
    assert_eq!(values(&t), vec![vec!["a", "d"], vec!["b", "e"], vec!["c", "f"]]);
    let back = transpose_xlsx_matrix(t).unwrap();
    assert_eq!(values(&back), vec![vec!["a", "b", "c"], vec!["d", "e", "f"]]);
    let ragged = vec![vec![text("a")], vec![text("b"), text("c")]];
    assert_eq!(transpose_xlsx_matrix(ragged).unwrap_err().kind, ErrorKind::InvalidArgs);
    assert!(transpose_xlsx_matrix(Vec::new()).unwrap().is_empty());
}

#[test]
fn ragged_rows_are_padded_or_refused() {
    let mut m = vec![vec![text("a")], vec![text("b"), text("c")]];
    assert_eq!(rectangularize_xlsx_matrix(&mut m, "reject").unwrap_err().kind, ErrorKind::InvalidArgs);
    assert_eq!(rectangularize_xlsx_matrix(&mut m, "sideways").unwrap_err().kind, ErrorKind::InvalidArgs);
    rectangularize_xlsx_matrix(&mut m, " Fill-Empty ").unwrap();
    assert_eq!(values(&m), vec![vec!["a", ""], vec!["b", "c"]]);
    assert_eq!(m[0][1].kind, "string");
    let mut even = vec![vec![text("x")]];
    rectangularize_xlsx_matrix(&mut even, "").unwrap();
    assert_eq!(values(&even), vec![vec!["x"]]);
    let mut empty: Vec<Vec<XlsxMatrixCell>> = Vec::new();
    assert!(rectangularize_xlsx_matrix(&mut empty, "reject").is_err());
    let mut no_cols = vec![Vec::new()];
    assert!(rectangularize_xlsx_matrix(&mut no_cols, "fill-empty").is_err());
}

#[test]
fn write_bounds_from_anchor_or_range() {
    let b = resolve_xlsx_ranges_set_bounds(None, Some("B2"), None, 2, 3).unwrap();
    assert_eq!((b.start_col, b.start_row, b.end_col, b.end_row), (2, 2, 4, 3));
    let r = resolve_xlsx_ranges_set_bounds(Some("A1:C2"), None, None, 2, 3).unwrap();
    assert_eq!((r.end_col, r.end_row), (3, 2));
    assert!(resolve_xlsx_ranges_set_bounds(Some("A1:C3"), None, None, 2, 3).is_err());
    assert!(resolve_xlsx_ranges_set_bounds(Some("A1"), Some("B2"), None, 1, 1).is_err());
    assert!(resolve_xlsx_ranges_set_bounds(None, None, None, 1, 1).is_err());
    let from_input = resolve_xlsx_ranges_set_bounds(None, None, Some("D4"), 1, 1).unwrap();
    assert_eq!(from_input.start_col, 4);
}

#[test]
fn json_cells_and_rows() {
    let null = parse_xlsx_matrix_cell(&JsonValue::Null).unwrap();
    assert!(null.null);
    assert_eq!(null.kind, "empty");
    let num = parse_xlsx_matrix_cell(&JsonValue::Number("1.5".to_string())).unwrap();
    assert_eq!((num.kind.as_str(), num.value.as_str()), ("number", "1.5"));
    let b = parse_xlsx_matrix_cell(&JsonValue::Bool(true)).unwrap();
    assert_eq!((b.kind.as_str(), b.value.as_str()), ("boolean", "true"));
    let formula = JsonValue::Object(vec![("formula".to_string(), JsonValue::Str("SUM(A1:A2)".to_string()))]);
    let f = parse_xlsx_matrix_cell(&formula).unwrap();
    assert_eq!((f.kind.as_str(), f.formula.as_str()), ("formula", "SUM(A1:A2)"));
    let typed = JsonValue::Object(vec![
        ("value".to_string(), JsonValue::Str("42".to_string())),
        ("type".to_string(), JsonValue::Str(" Number ".to_string())),
    ]);
    let t = parse_xlsx_matrix_cell(&typed).unwrap();
    assert_eq!((t.kind.as_str(), t.value.as_str()), ("number", "42"));
    let blank = JsonValue::Object(vec![("formula".to_string(), JsonValue::Str("  ".to_string()))]);
    assert_eq!(parse_xlsx_matrix_cell(&blank).unwrap_err().kind, ErrorKind::InvalidArgs);
    assert!(parse_xlsx_matrix_cell(&JsonValue::Array(Vec::new())).is_err());
    assert!(parse_xlsx_matrix_cell(&JsonValue::Object(Vec::new())).is_err());
    let rows = JsonValue::Array(vec![JsonValue::Array(vec![JsonValue::Str("a".to_string()), JsonValue::Null])]);
    let m = parse_xlsx_matrix_rows(&rows).unwrap();
    assert_eq!(m[0].len(), 2);
    assert!(m[0][1].null);
    assert!(parse_xlsx_matrix_rows(&JsonValue::Array(vec![JsonValue::Null])).is_err());
}

#[test]
fn json_matrix_with_metadata_and_columns() {
    let raw = JsonValue::Object(vec![
        ("range".to_string(), JsonValue::Str("A1:B2".to_string())),
        ("majorDimension".to_string(), JsonValue::Str("columns".to_string())),
        ("nullPolicy".to_string(), JsonValue::Str("clear".to_string())),
        (
            "values".to_string(),
            JsonValue::Array(vec![
                JsonValue::Array(vec![JsonValue::Str("a".to_string()), JsonValue::Str("b".to_string())]),
                JsonValue::Array(vec![JsonValue::Str("c".to_string()), JsonValue::Str("d".to_string())]),
            ]),
        ),
    ]);
    let m = parse_xlsx_range_set_json_value_owned(raw).unwrap();
    assert_eq!(m.range.as_deref(), Some("A1:B2"));
    assert_eq!(m.null_policy.as_deref(), Some("clear"));
    assert_eq!(m.major_dimension, "columns");
    assert_eq!(values(&m.rows), vec![vec!["a", "c"], vec!["b", "d"]]);
    let bad_dim = JsonValue::Object(vec![
        ("majorDimension".to_string(), JsonValue::Str("diagonal".to_string())),
        ("values".to_string(), JsonValue::Array(Vec::new())),
    ]);
    assert_eq!(parse_xlsx_range_set_json_value_owned(bad_dim).unwrap_err().kind, ErrorKind::InvalidArgs);
}
