use ooxml_xlsx::cellformat::set_xlsx_range_style_xml;
use ooxml_xlsx::cellref::RangeBounds;
use ooxml_xlsx::cellstyle::{
    apply_xlsx_style_to_styles_xml, build_xlsx_cell_style_spec, ensure_xlsx_style_font, CellStyleSpec, FontStyleSpec,
    XlsxRangesSetStyleOptions,
};
use ooxml_xlsx::error::ErrorKind;
use ooxml_xlsx::style::{FillStyleSpec};
use ooxml_xlsx::styles::default_xlsx_styles_xml;

fn blank_options<'a>() -> XlsxRangesSetStyleOptions<'a> {
    XlsxRangesSetStyleOptions {
        sheet: "Sheet1",
        range: "A1",
        font_name: None,
        font_size: None,
        font_bold: None,
        font_italic: None,
        font_underline: None,
        font_color: None,
        fill_color: None,
        border_style: None,
        border_color: None,
        border_top: None,
        border_bottom: None,
        border_left: None,
        border_right: None,
        alignment_horizontal: None,
        alignment_vertical: None,
        alignment_wrap_text: None,
        max_cells: 10000,
        out: None,
        backup: None,
        dry_run: true,
        no_validate: false,
        in_place: false,
    }
}

fn bold_arial() -> FontStyleSpec {
    FontStyleSpec {
        name: Some("Arial".to_string()),
        size: Some("12".to_string()),
        bold: Some(true),
        italic: None,
        underline: None,
        color: Some("#ff0000".to_string()),
    }
}

#[test]
fn font_is_built_in_schema_order_and_reused() {
    let (xml, id) = ensure_xlsx_style_font(default_xlsx_styles_xml(), 0, &bold_arial()).unwrap();
    assert_eq!(id, 1);
    assert!(xml.contains(
        r#"<fonts count="2"><font/><font><b/><sz val="12"/><color rgb="FFFF0000"/><name val="Arial"/></font></fonts>"#
    ));
    let (again, id2) = ensure_xlsx_style_font(xml.clone(), 0, &bold_arial()).unwrap();
    assert_eq!(again, xml);
    assert_eq!(id2, 1);
}

#[test]
fn font_with_bad_color_is_refused() {
    let mut font = bold_arial();
    font.color = Some("red".to_string());
    let err = ensure_xlsx_style_font(default_xlsx_styles_xml(), 0, &font).unwrap_err();
    assert_eq!(err.kind, ErrorKind::InvalidArgs);
}

#[test]
fn style_adds_a_cell_format_pointing_at_new_records() {
    let spec = CellStyleSpec {
        font: Some(bold_arial()),
        fill: Some(FillStyleSpec { color: "00FF00".to_string() }),
        border: None,
        alignment: None,
    };
    let (xml, index, created) = apply_xlsx_style_to_styles_xml(default_xlsx_styles_xml(), 0, &spec).unwrap();
    assert_eq!(index, 1);
    assert!(created);
    assert!(xml.contains(
        r#"<xf applyFill="1" applyFont="1" borderId="0" fillId="2" fontId="1" numFmtId="0" xfId="0"/></cellXfs>"#
    ));
    assert!(xml.contains(r#"<cellXfs count="2">"#));
    let (same, index2, created2) = apply_xlsx_style_to_styles_xml(xml.clone(), 0, &spec).unwrap();
    assert_eq!(same, xml);
    assert_eq!(index2, 1);
    assert!(!created2);
}

#[test]
fn range_style_restyles_every_cell() {
    let sheet = r#"<worksheet><sheetData><row r="2"><c r="B2" s="0"><v>1</v></c></row></sheetData></worksheet>"#;
    let spec = CellStyleSpec {
        font: None,
        fill: Some(FillStyleSpec { color: "00FF00".to_string() }),
        border: None,
        alignment: None,
    };
    let bounds = RangeBounds { start_col: 2, start_row: 2, end_col: 2, end_row: 3 };
    let (out, styles, stats) = set_xlsx_range_style_xml(sheet, default_xlsx_styles_xml(), bounds, &spec).unwrap();
    assert!(out.contains(r#"<row r="2"><c r="B2" s="1"><v>1</v></c></row><row r="3"><c r="B3" s="1"/></row>"#));
    assert!(styles.contains(r#"<cellXfs count="2">"#));
    assert_eq!(stats.updated, 2);
    assert_eq!(stats.created, 1);
    assert_eq!(stats.created_styles, 1);
    assert_eq!(stats.style_indexes, vec![1]);
}

#[test]
fn style_flags_build_the_asked_groups() {
    let mut options = blank_options();
    options.border_style = Some("thin");
    options.border_left = Some(true);
    options.alignment_wrap_text = Some(true);
    let spec = build_xlsx_cell_style_spec(&options, true).unwrap();
    assert!(spec.font.is_none() && spec.fill.is_none());
    let border = spec.border.unwrap();
    assert!(border.left && !border.right && !border.top && !border.bottom);
    assert_eq!(spec.alignment.unwrap().wrap_text, Some(true));
    let mut all_edges = blank_options();
    all_edges.border_style = Some("thick");
    let b = build_xlsx_cell_style_spec(&all_edges, true).unwrap().border.unwrap();
    assert!(b.left && b.right && b.top && b.bottom);
}

#[test]
fn style_flags_refusals() {
    let none = blank_options();
    assert_eq!(build_xlsx_cell_style_spec(&none, true).unwrap_err().kind, ErrorKind::InvalidArgs);
    let mut no_style = blank_options();
    no_style.border_top = Some(true);
    let err = build_xlsx_cell_style_spec(&no_style, true).unwrap_err();
    assert_eq!(err.message, "--border-style is required when setting borders");
    let mut big = blank_options();
    big.font_size = Some("500");
    let err = build_xlsx_cell_style_spec(&big, false).unwrap_err();
    assert_eq!(err.message, "font size 500 out of range (1-409)");
    let mut align = blank_options();
    align.alignment_vertical = Some("middle");
    assert_eq!(build_xlsx_cell_style_spec(&align, true).unwrap_err().kind, ErrorKind::InvalidArgs);
}
