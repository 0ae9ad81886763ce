//! Inserting and deleting worksheet rows and columns: the flags of a
//! structural edit, the bounds of a shift, the hazards that refuse an edit,
//! and the rewritten `sheetData`.
use vstd::prelude::*;
use crate::error::{CliError, CliResult, ErrorKind};
use crate::text::{
    ascii_upper, char_is_ascii_alpha, char_is_ascii_digit, char_to_ascii_upper, concat2, concat3, concat4, concat5,
    decimal, i64_to_string, is_ascii_alpha, is_ascii_digit, str_chars, to_string, trim, trim_chars, u32_to_string,
};

use crate::attrmap::{map_from_pairs, sorted_insert, AttrMap, Entries};
use crate::cellref::{cell_text, col_name};
use crate::elements::{
    attr_get, attr_lookup, child_named, child_spans, direct_child_range, direct_child_ranges, element_name,
    element_name_spec, prefix_of, render_attrs_spec, xml_tag_prefix,
};
use crate::freeze::{insert_child_spec, insert_worksheet_child};
use crate::sheetxml::{
    keyed_concat, keyed_view, opt_span_view, sheet_data_span_spec, tag_attrs, used_range_spec, xlsx_sheet_data_span,
    xlsx_used_range_from_cell_refs, Keyed, XlsxSheetDataSpan, keyed_insert, keyed_put, CellView, RowView, XlsxRowSpan,
    rows_view, row_spans_spec, parse_xlsx_row_spans,
};
use crate::attrmap::remove_key;
use crate::styles::first_named_tag;
use crate::xml::{
    char_tokens, char_tokens_spec, local_name, root_bounds_spec, root_bounds_valid, root_view, splice, spans_of,
    tokens_well_formed, xlsx_worksheet_root_bounds_impl, CharToken, XmlTokenKind,
};

verus! {

/// The last row of a worksheet.
pub open spec fn max_row() -> int {
    1048576
}

/// The last column of a worksheet (`XFD`).
pub open spec fn max_col() -> int {
    16384
}

// ---------------------------------------------------------------------------
// Flags
// ---------------------------------------------------------------------------

/// `required_structure_sheet`: the sheet selector, which a structural edit
/// needs.
pub fn required_structure_sheet<'a>(sheet: Option<&'a str>) -> (r: CliResult<&'a str>)
    ensures
        r is Ok <==> (sheet is Some && trim(sheet.unwrap()@).len() > 0),
        r is Ok ==> r->Ok_0@ == sheet.unwrap()@,
        r is Err ==> r->Err_0.kind == ErrorKind::InvalidArgs,
{
    match sheet {
        Some(s) => {
            if trim_chars(s).len() > 0 {
                Ok(s)
            } else {
                Err(CliError::invalid_args(to_string("--sheet is required for structural row/column edits")))
            }
        },
        None => Err(CliError::invalid_args(to_string("--sheet is required for structural row/column edits"))),
    }
}

/// `required_positive_position`: a 1-based position flag as a `u32`.
pub fn required_positive_position(value: i64, name: &str) -> (r: CliResult<u32>)
    ensures
        r is Ok <==> 1 <= value <= u32::MAX,
        r is Ok ==> r->Ok_0 == value,
        r is Err ==> r->Err_0.kind == ErrorKind::InvalidArgs,
{
    if value < 1 || value > 4294967295 {
        return Err(CliError::invalid_args(concat3("--", name, " must be >= 1")));
    }
    Ok(value as u32)
}

/// `required_positive_count`: a positive `--count` as a `u32`.
pub fn required_positive_count(value: i64) -> (r: CliResult<u32>)
    ensures
        r is Ok <==> 1 <= value <= u32::MAX,
        r is Ok ==> r->Ok_0 == value,
        r is Err ==> r->Err_0.kind == ErrorKind::InvalidArgs,
{
    if value < 1 || value > 4294967295 {
        return Err(CliError::invalid_args(to_string("--count must be positive")));
    }
    Ok(value as u32)
}

/// The column number of letters read left to right from `i` with `col`
/// so far; `None` at a character that is not a letter or once the number
/// passes `XFD`.
pub open spec fn column_fold(v: Seq<char>, i: int, col: int) -> Option<int>
    decreases v.len() - i,
{
    if i < 0 || i >= v.len() {
        Some(col)
    } else {
        let u = ascii_upper(v[i]);
        if !is_ascii_alpha(u) {
            None
        } else {
            let c2 = col * 26 + ((u as u32) - 64);
            if c2 > max_col() {
                None
            } else {
                column_fold(v, i + 1, c2)
            }
        }
    }
}

/// A column flag as a column number: letters only (no `$`, no digits),
/// case-insensitive, within `A`..`XFD`.
pub open spec fn structure_column_spec(value: Seq<char>) -> Option<int> {
    let t = trim(value);
    if t.len() == 0 {
        None
    } else if exists|i: int| 0 <= i < t.len() && (t[i] == '$' || is_ascii_digit(#[trigger] t[i])) {
        None
    } else {
        column_fold(t, 0, 0)
    }
}

/// `parse_structure_column`: the column a column flag names.
pub fn parse_structure_column(value: &str, name: &str) -> (r: CliResult<u32>)
    ensures
        r is Ok <==> structure_column_spec(value@) is Some,
        r is Ok ==> r->Ok_0 as int == structure_column_spec(value@).unwrap(),
        r is Err ==> r->Err_0.kind == ErrorKind::InvalidArgs,
{
    let t = trim_chars(value);
    if t.len() == 0 {
        return Err(CliError::invalid_args(concat3("invalid --", name, ": column reference cannot be empty")));
    }
    let mut i: usize = 0;
    while i < t.len()
        invariant
            0 <= i <= t.len(),
            t@ == trim(value@),
            forall|j: int| 0 <= j < i ==> !(t@[j] == '$' || is_ascii_digit(#[trigger] t@[j])),
        decreases t.len() - i,
    {
        if t[i] == '$' || char_is_ascii_digit(t[i]) {
            proof {
                assert(t@[i as int] == '$' || is_ascii_digit(t@[i as int]));
            }
            let head = concat3("invalid --", name, ": invalid column reference ");
            let q = crate::text::debug_quoted(value);
            return Err(CliError::invalid_args(concat2(head.as_str(), q.as_str())));
        }
        i = i + 1;
    }
    let mut col: u32 = 0;
    let mut k: usize = 0;
    while k < t.len()
        invariant
            0 <= k <= t.len(),
            t@ == trim(value@),
            t@.len() > 0,
            forall|j: int| 0 <= j < t@.len() ==> !(t@[j] == '$' || is_ascii_digit(#[trigger] t@[j])),
            col <= max_col(),
            column_fold(t@, 0, 0) == column_fold(t@, k as int, col as int),
        decreases t.len() - k,
    {
        let u = char_to_ascii_upper(t[k]);
        if !char_is_ascii_alpha(u) {
            let head = concat3("invalid --", name, ": invalid column letter ");
            let q = crate::text::debug_quoted_char(u);
            return Err(CliError::invalid_args(concat2(head.as_str(), q.as_str())));
        }
        let d = (u as u32) - 64;
        col = col * 26 + d;
        if col > 16384 {
            let head = concat3("invalid --", name, ": column ");
            let q = crate::text::debug_quoted(value);
            return Err(CliError::invalid_args(concat3(head.as_str(), q.as_str(), " out of XLSX bounds A-XFD")));
        }
        k = k + 1;
    }
    Ok(col)
}

// ---------------------------------------------------------------------------
// Shifting
// ---------------------------------------------------------------------------

/// A span of `count` rows (or columns) from `start` that stays within the
/// sheet's `max`.
pub open spec fn span_in_bounds(start: u32, count: u32, max: int) -> bool {
    count <= max && start + count - 1 <= max
}

/// `validate_row_span_in_bounds`: the rows `start..start+count-1` exist.
pub fn validate_row_span_in_bounds(start: u32, count: u32) -> (r: CliResult<()>)
    requires
        count >= 1,
    ensures
        r is Ok <==> span_in_bounds(start, count, max_row()),
        r is Err ==> r->Err_0.kind == ErrorKind::InvalidArgs,
{
    if count > 1048576 {
        let head = concat3("worksheet structural edit out of bounds: row count ", u32_to_string(count).as_str(), " exceeds XLSX row limit 1048576");
        return Err(CliError::invalid_args(head));
    }
    let delta = count - 1;
    if start as u64 + delta as u64 > 1048576 {
        let a = concat4("worksheet structural edit out of bounds: row ", u32_to_string(start).as_str(), " offset by ", u32_to_string(delta).as_str());
        return Err(CliError::invalid_args(concat2(a.as_str(), " is out of XLSX bounds 1-1048576")));
    }
    Ok(())
}

/// `validate_column_span_in_bounds`: the columns `start..start+count-1` exist.
pub fn validate_column_span_in_bounds(start: u32, count: u32) -> (r: CliResult<()>)
    requires
        count >= 1,
    ensures
        r is Ok <==> span_in_bounds(start, count, max_col()),
        r is Err ==> r->Err_0.kind == ErrorKind::InvalidArgs,
{
    if count > 16384 {
        let head = concat3("worksheet structural edit out of bounds: column count ", u32_to_string(count).as_str(), " exceeds XLSX column limit 16384");
        return Err(CliError::invalid_args(head));
    }
    let delta = count - 1;
    if start as u64 + delta as u64 > 16384 {
        let a = concat4("worksheet structural edit out of bounds: column ", u32_to_string(start).as_str(), " offset by ", u32_to_string(delta).as_str());
        return Err(CliError::invalid_args(concat2(a.as_str(), " is out of XLSX bounds 1-16384")));
    }
    Ok(())
}

/// A position shifted by `delta`, when it stays within `1..=max`.
pub open spec fn offset_spec(v: int, delta: int, max: int) -> Option<int> {
    if v + delta < 1 || v + delta > max {
        None
    } else {
        Some(v + delta)
    }
}

/// `offset_row`: a row number shifted by `delta`.
pub fn offset_row(row: u32, delta: i64) -> (r: CliResult<u32>)
    requires
        -4294967295 <= delta <= 4294967295,
    ensures
        r is Ok <==> offset_spec(row as int, delta as int, max_row()) is Some,
        r is Ok ==> r->Ok_0 == offset_spec(row as int, delta as int, max_row()).unwrap(),
        r is Err ==> r->Err_0.kind == ErrorKind::InvalidArgs,
{
    let shifted = row as i64 + delta;
    if shifted < 1 || shifted > 1048576 {
        let a = concat4("worksheet structural edit out of bounds: row ", u32_to_string(row).as_str(), " offset by ", i64_to_string(delta).as_str());
        return Err(CliError::invalid_args(concat2(a.as_str(), " is out of XLSX bounds 1-1048576")));
    }
    Ok(shifted as u32)
}

/// `offset_col`: a column number shifted by `delta`.
pub fn offset_col(col: u32, delta: i64) -> (r: CliResult<u32>)
    requires
        -4294967295 <= delta <= 4294967295,
    ensures
        r is Ok <==> offset_spec(col as int, delta as int, max_col()) is Some,
        r is Ok ==> r->Ok_0 == offset_spec(col as int, delta as int, max_col()).unwrap(),
        r is Err ==> r->Err_0.kind == ErrorKind::InvalidArgs,
{
    let shifted = col as i64 + delta;
    if shifted < 1 || shifted > 16384 {
        let a = concat4("worksheet structural edit out of bounds: column ", u32_to_string(col).as_str(), " offset by ", i64_to_string(delta).as_str());
        return Err(CliError::invalid_args(concat2(a.as_str(), " is out of XLSX bounds 1-16384")));
    }
    Ok(shifted as u32)
}

/// Shifting a position and shifting it back gives the position again:
/// a row (or column) moved by an insertion returns to its place when the
/// same rows are deleted.
pub proof fn lemma_offset_undone(v: int, delta: int, max: int)
    requires
        1 <= v <= max,
        offset_spec(v, delta, max) is Some,
    ensures
        offset_spec(offset_spec(v, delta, max).unwrap(), -delta, max) == Some(v),
{
}

// ---------------------------------------------------------------------------
// Reading the worksheet
// ---------------------------------------------------------------------------

/// Whether a start or empty tag with the local name occurs before the end
/// of the text or the first error.
pub open spec fn has_element_spec(xml: Seq<char>, local: Seq<char>) -> bool {
    match char_tokens_spec(xml) {
        None => false,
        Some(p) => first_named_tag(p.0, local, 0) != -1,
    }
}

/// The index of the first start or empty tag with the local name.
fn find_named_tag(toks: &Vec<CharToken>, local: &str) -> (r: Option<usize>)
    ensures
        match r {
            Some(k) => k < toks@.len() && first_named_tag(toks@, local@, 0) == k as int,
            None => first_named_tag(toks@, local@, 0) == -1,
        },
{
    let mut k: usize = 0;
    while k < toks.len()
        invariant
            0 <= k <= toks.len(),
            first_named_tag(toks@, local@, k as int) == first_named_tag(toks@, local@, 0),
        decreases toks.len() - k,
    {
        if (toks[k].kind == XmlTokenKind::Start || toks[k].kind == XmlTokenKind::Empty) && crate::text::str_eq(
            local_name(toks[k].name.as_str()).as_str(),
            local,
        ) {
            return Some(k);
        }
        k = k + 1;
    }
    None
}

/// `xml_has_element`: whether the text has an element with the local name.
pub fn xml_has_element(xml: &str, local: &str) -> (r: bool)
    ensures
        r == has_element_spec(xml@, local@),
{
    match char_tokens(xml) {
        Err(_) => false,
        Ok((toks, _)) => find_named_tag(&toks, local).is_some(),
    }
}

/// `row_xml_has_cells`: whether a row's markup holds a cell element.
pub fn row_xml_has_cells(row_xml: &str) -> (r: bool)
    ensures
        r == has_element_spec(row_xml@, "c"@),
{
    xml_has_element(row_xml, "c")
}

/// The `ref` of the first `dimension` tag.
pub open spec fn dimension_declared_spec(xml: Seq<char>) -> Option<Seq<char>> {
    match char_tokens_spec(xml) {
        None => None,
        Some(p) => {
            let k = first_named_tag(p.0, "dimension"@, 0);
            if k == -1 {
                None
            } else {
                attr_lookup(tag_attrs(xml, p.0[k]), "ref"@)
            }
        },
    }
}

/// `xlsx_dimension_declared`: the range the worksheet's `dimension` declares.
pub fn xlsx_dimension_declared(xml: &str) -> (r: Option<String>)
    ensures
        match dimension_declared_spec(xml@) {
            None => r is None,
            Some(v) => r is Some && r->0@ == v,
        },
{
    let (toks, _) = match char_tokens(xml) {
        Err(_) => {
            return None;
        },
        Ok(p) => p,
    };
    match find_named_tag(&toks, "dimension") {
        None => None,
        Some(k) => {
            let sv = str_chars(xml);
            proof {
                crate::styles::lemma_tokens_monotone(toks@, xml@.len() as int, k as int, k as int);
            }
            let attrs = crate::sheetxml::token_attrs(&sv, &toks[k]);
            attr_get(&attrs, "ref")
        },
    }
}

/// The kinds of the worksheet root's children, in document order.
pub open spec fn direct_kinds_spec(xml: Seq<char>) -> Option<Seq<Seq<char>>> {
    match root_bounds_spec(xml, false) {
        None => None,
        Some(root) => if root.5 || root.1 >= root.2 {
            Some(Seq::empty())
        } else {
            match child_spans(xml, root.1, root.2) {
                None => None,
                Some(sp) => Some(Seq::new(sp.len(), |i: int| sp[i].2)),
            }
        },
    }
}

/// `worksheet_direct_child_kinds`: the local names of the worksheet root's
/// children.
pub fn worksheet_direct_child_kinds(xml: &str) -> (r: CliResult<Vec<String>>)
    ensures
        r is Ok <==> direct_kinds_spec(xml@) is Some,
        r is Ok ==> r->Ok_0.deep_view() == direct_kinds_spec(xml@).unwrap(),
        r is Err ==> r->Err_0.kind == ErrorKind::Unexpected,
{
    let root = xlsx_worksheet_root_bounds_impl(xml, false)?;
    if root.self_closing || root.open_end >= root.close_start {
        let v: Vec<String> = Vec::new();
        proof {
            assert(v.deep_view() =~= Seq::<Seq<char>>::empty());
        }
        return Ok(v);
    }
    let ranges = direct_child_ranges(xml, root.open_end, root.close_start)?;
    let ghost sp = spans_of(ranges@);
    let mut out: Vec<String> = Vec::new();
    let mut i: usize = 0;
    while i < ranges.len()
        invariant
            0 <= i <= ranges.len(),
            sp == spans_of(ranges@),
            out.deep_view() =~= Seq::new(i as nat, |j: int| sp[j].2),
        decreases ranges.len() - i,
    {
        let ghost before = out.deep_view();
        proof {
            assert(sp[i as int] == crate::xml::span_of(ranges@[i as int]));
        }
        out.push(ranges[i].kind.clone());
        proof {
            assert(out.deep_view() =~= before.push(sp[i as int].2));
        }
        i = i + 1;
    }
    Ok(out)
}

pub open spec fn kinds_have(kinds: Seq<Seq<char>>, k: Seq<char>) -> bool {
    kinds.contains(k)
}

/// The worksheet children that a structural edit cannot keep consistent.
pub open spec fn blocked_kinds() -> Seq<Seq<char>> {
    seq![
        "protectedRanges"@,
        "scenarios"@,
        "rowBreaks"@,
        "colBreaks"@,
        "dataConsolidate"@,
        "customSheetViews"@,
        "cellWatches"@,
        "ignoredErrors"@,
        "smartTags"@,
        "picture"@,
        "oleObjects"@,
        "controls"@,
        "webPublishItems"@,
        "extLst"@
    ]
}

/// Whether the worksheet children block a structural edit.
pub open spec fn kinds_block(kinds: Seq<Seq<char>>, column_edit: bool) -> bool {
    ||| kinds_have(kinds, "tableParts"@)
    ||| kinds_have(kinds, "autoFilter"@) || kinds_have(kinds, "sortState"@)
    ||| kinds_have(kinds, "drawing"@) || kinds_have(kinds, "legacyDrawing"@) || kinds_have(kinds, "legacyDrawingHF"@)
    ||| kinds_have(kinds, "hyperlinks"@)
    ||| kinds_have(kinds, "conditionalFormatting"@)
    ||| kinds_have(kinds, "dataValidations"@)
    ||| column_edit && kinds_have(kinds, "cols"@)
    ||| exists|i: int| 0 <= i < blocked_kinds().len() && kinds_have(kinds, #[trigger] blocked_kinds()[i])
}

/// What the hazard scan decides: defined names, a calculation chain,
/// formulas, merged cells, or a worksheet child the edit cannot keep
/// consistent refuse the edit.
pub open spec fn hazards_spec(workbook_xml: Seq<char>, sheet_xml: Seq<char>, has_calc_chain: bool, column_edit: bool) -> Result<(), ErrorKind> {
    if has_element_spec(workbook_xml, "definedNames"@) || has_calc_chain || has_element_spec(sheet_xml, "f"@)
        || has_element_spec(sheet_xml, "mergeCells"@) || has_element_spec(sheet_xml, "mergeCell"@) {
        Err(ErrorKind::InvalidArgs)
    } else {
        match direct_kinds_spec(sheet_xml) {
            None => Err(ErrorKind::Unexpected),
            Some(kinds) => if kinds_block(kinds, column_edit) {
                Err(ErrorKind::InvalidArgs)
            } else {
                Ok(())
            },
        }
    }
}

fn contains_kind(kinds: &Vec<String>, k: &str) -> (r: bool)
    ensures
        r == kinds_have(kinds.deep_view(), k@),
{
    let ghost kv = kinds.deep_view();
    let mut i: usize = 0;
    while i < kinds.len()
        invariant
            0 <= i <= kinds.len(),
            kv == kinds.deep_view(),
            forall|j: int| 0 <= j < i ==> kv[j] != k@,
        decreases kinds.len() - i,
    {
        if crate::text::str_eq(kinds[i].as_str(), k) {
            proof {
                assert(kv[i as int] == k@);
            }
            return true;
        }
        i = i + 1;
    }
    false
}

fn blocked_kind(i: usize) -> (r: &'static str)
    requires
        i < 14,
    ensures
        r@ == blocked_kinds()[i as int],
{
    match i {
        0 => "protectedRanges",
        1 => "scenarios",
        2 => "rowBreaks",
        3 => "colBreaks",
        4 => "dataConsolidate",
        5 => "customSheetViews",
        6 => "cellWatches",
        7 => "ignoredErrors",
        8 => "smartTags",
        9 => "picture",
        10 => "oleObjects",
        11 => "controls",
        12 => "webPublishItems",
        _ => "extLst",
    }
}

fn refuse(message: &str) -> (r: CliResult<()>)
    ensures
        r is Err && r->Err_0.kind == ErrorKind::InvalidArgs,
{
    Err(CliError::invalid_args(to_string(message)))
}

/// `scan_structure_hazards`: refuses a structural edit that would leave
/// references it cannot update; `has_calc_chain` says whether the package
/// holds `xl/calcChain.xml`.
pub fn scan_structure_hazards(workbook_xml: &str, sheet_xml: &str, has_calc_chain: bool, column_edit: bool) -> (r: CliResult<()>)
    ensures
        match hazards_spec(workbook_xml@, sheet_xml@, has_calc_chain, column_edit) {
            Ok(_) => r is Ok,
            Err(k) => r is Err && r->Err_0.kind == k,
        },
{
    if xml_has_element(workbook_xml, "definedNames") {
        return refuse("workbook has defined names");
    }
    if has_calc_chain {
        return refuse("workbook has calc chain");
    }
    if xml_has_element(sheet_xml, "f") {
        return refuse("worksheet has formulas");
    }
    if xml_has_element(sheet_xml, "mergeCells") || xml_has_element(sheet_xml, "mergeCell") {
        return refuse("worksheet has merged cells");
    }
    let direct = worksheet_direct_child_kinds(sheet_xml)?;
    if contains_kind(&direct, "tableParts") {
        return refuse("worksheet has tables");
    }
    if contains_kind(&direct, "autoFilter") || contains_kind(&direct, "sortState") {
        return refuse("worksheet has autofilter or sort state");
    }
    if contains_kind(&direct, "drawing") || contains_kind(&direct, "legacyDrawing") || contains_kind(&direct, "legacyDrawingHF") {
        return refuse("worksheet has drawings or comments");
    }
    if contains_kind(&direct, "hyperlinks") {
        return refuse("worksheet has hyperlinks");
    }
    if contains_kind(&direct, "conditionalFormatting") {
        return refuse("worksheet has conditional formatting");
    }
    if contains_kind(&direct, "dataValidations") {
        return refuse("worksheet has data validations");
    }
    if column_edit && contains_kind(&direct, "cols") {
        return refuse("worksheet has column metadata");
    }
    match first_blocked(&direct) {
        Some(i) => {
            let name = blocked_kind(i);
            Err(CliError::invalid_args(concat2("worksheet has unsupported structural references: ", name)))
        },
        None => Ok(()),
    }
}

fn first_blocked(direct: &Vec<String>) -> (r: Option<usize>)
    ensures
        match r {
            Some(i) => i < 14 && kinds_have(direct.deep_view(), blocked_kinds()[i as int]),
            None => forall|j: int| 0 <= j < 14 ==> !kinds_have(direct.deep_view(), #[trigger] blocked_kinds()[j]),
        },
{
    let mut i: usize = 0;
    while i < 14
        invariant
            0 <= i <= 14,
            forall|j: int| 0 <= j < i ==> !kinds_have(direct.deep_view(), #[trigger] blocked_kinds()[j]),
        decreases 14 - i,
    {
        let name = blocked_kind(i);
        if contains_kind(direct, name) {
            return Some(i);
        }
        i = i + 1;
    }
    None
}

// ---------------------------------------------------------------------------
// Rewriting the worksheet
// ---------------------------------------------------------------------------

/// A cell element with its reference changed to `col`/`row`; its start tag
/// is rewritten and its content kept.
pub open spec fn cell_ref_update_spec(cell_xml: Seq<char>, col: u32, row: u32) -> Result<Seq<char>, ErrorKind> {
    match char_tokens_spec(cell_xml) {
        None => Err(ErrorKind::Unexpected),
        Some(p) => {
            let k = first_named_tag(p.0, "c"@, 0);
            if k == -1 {
                Err(ErrorKind::Unexpected)
            } else {
                let t = p.0[k];
                let a = sorted_insert(map_from_pairs(tag_attrs(cell_xml, t)), "r"@, cell_text(col, row));
                if t.kind == XmlTokenKind::Start {
                    Ok("<"@ + t.name@ + render_attrs_spec(a) + ">"@ + cell_xml.subrange(t.end as int, cell_xml.len() as int))
                } else {
                    Ok("<"@ + t.name@ + render_attrs_spec(a) + "/>"@)
                }
            }
        },
    }
}

/// `update_cell_ref_xml`: a cell moved to another reference.
pub fn update_cell_ref_xml(cell_xml: &str, col: u32, row: u32) -> (r: CliResult<String>)
    ensures
        match cell_ref_update_spec(cell_xml@, col, row) {
            Err(k) => r is Err && r->Err_0.kind == k,
            Ok(v) => r is Ok && r->Ok_0@ == v,
        },
{
    let (toks, _) = char_tokens(cell_xml)?;
    let k = match find_named_tag(&toks, "c") {
        None => {
            return Err(CliError::unexpected(to_string("cell element not found")));
        },
        Some(k) => k,
    };
    let sv = str_chars(cell_xml);
    let t = &toks[k];
    proof {
        crate::styles::lemma_tokens_monotone(toks@, cell_xml@.len() as int, k as int, k as int);
    }
    let pairs = crate::sheetxml::token_attrs(&sv, t);
    let mut attrs = AttrMap::from_pairs(&pairs);
    let cn = col_name(col);
    let addr = concat2(cn.as_str(), u32_to_string(row).as_str());
    attrs.insert(to_string("r"), addr);
    let rendered = crate::elements::render_xml_attrs(&attrs.entries);
    proof {
        reveal_strlit("<");
        reveal_strlit(">");
    }
    if t.kind == XmlTokenKind::Start {
        let rest = crate::elements::vec_to_string_range(&sv, t.end, sv.len());
        Ok(concat4("<", t.name.as_str(), rendered.as_str(), concat2(">", rest.as_str()).as_str()))
    } else {
        Ok(concat4("<", t.name.as_str(), rendered.as_str(), "/>"))
    }
}

/// A `dimension` element declaring a range.
pub open spec fn render_dimension_spec(prefix: Seq<char>, range_ref: Seq<char>) -> Seq<char> {
    "<"@ + element_name_spec(prefix, "dimension"@) + " ref=\""@ + range_ref + "\"/>"@
}

/// `render_dimension_xml`.
pub fn render_dimension_xml(prefix: &str, range_ref: &str) -> (r: String)
    ensures
        r@ == render_dimension_spec(prefix@, range_ref@),
{
    let name = element_name(prefix, "dimension");
    concat5("<", name.as_str(), " ref=\"", range_ref, "\"/>")
}

/// `sheetData` holding the rows in order of their numbers.
pub open spec fn sheet_data_block(prefix: Seq<char>, rows: Keyed) -> Seq<char> {
    "<"@ + element_name_spec(prefix, "sheetData"@) + ">"@ + keyed_concat(rows) + "</"@ + element_name_spec(prefix, "sheetData"@)
        + ">"@
}

/// `replace_sheet_data_with_rows`: the worksheet with its `sheetData`
/// replaced by the given rows.
pub fn replace_sheet_data_with_rows(xml: &str, sheet_data: &XlsxSheetDataSpan, prefix: &str, rows: &Vec<(u32, String)>) -> (r: String)
    requires
        sheet_data.start <= sheet_data.end <= xml@.len(),
    ensures
        r@ == splice(xml@, sheet_data.start as int, sheet_data.end as int, sheet_data_block(prefix@, keyed_view(rows@))),
{
    let name = element_name(prefix, "sheetData");
    let mut body: Vec<char> = Vec::new();
    crate::sheetxml::concat_keyed(rows, &mut body);
    let inner = crate::text::string_from_chars(body.as_slice());
    proof {
        assert(body@ =~= keyed_concat(keyed_view(rows@)));
    }
    let head = concat3("<", name.as_str(), ">");
    let tail = concat3("</", name.as_str(), ">");
    let block = concat3(head.as_str(), inner.as_str(), tail.as_str());
    proof {
        assert(block@ =~= sheet_data_block(prefix@, keyed_view(rows@)));
    }
    crate::xml::replace_xml_span(xml, sheet_data.start, sheet_data.end, block.as_str())
}

/// The worksheet's `dimension` made to declare the used range: replaced,
/// added in schema order, or removed when no cell remains.
pub open spec fn update_dimension_spec(xml: Seq<char>) -> Result<Seq<char>, ErrorKind> {
    match root_bounds_spec(xml, false) {
        None => Err(ErrorKind::Unexpected),
        Some(root) => {
            let prefix = prefix_of(root.4);
            let dim = if root.5 || root.1 >= root.2 {
                Some(None)
            } else {
                child_named(xml, root.1, root.2, "dimension"@)
            };
            match dim {
                None => Err(ErrorKind::Unexpected),
                Some(d) => match used_range_spec(xml) {
                    Some(r) => match d {
                        Some(e) => Ok(splice(xml, e.0, e.1, render_dimension_spec(prefix, r))),
                        None => match insert_child_spec(xml, root, "dimension"@, render_dimension_spec(prefix, r)) {
                            Err(_) => Err(ErrorKind::Unexpected),
                            Ok(x) => Ok(x),
                        },
                    },
                    None => match d {
                        Some(e) => Ok(splice(xml, e.0, e.1, Seq::empty())),
                        None => Ok(xml),
                    },
                },
            }
        },
    }
}

/// `update_dimension_xml`: the worksheet's `dimension` made to match its cells.
pub fn update_dimension_xml(xml: &str) -> (r: CliResult<String>)
    ensures
        match update_dimension_spec(xml@) {
            Err(k) => r is Err && r->Err_0.kind == k,
            Ok(v) => r is Ok && r->Ok_0@ == v,
        },
{
    let used = xlsx_used_range_from_cell_refs(xml);
    let root = xlsx_worksheet_root_bounds_impl(xml, false)?;
    let prefix = xml_tag_prefix(root.tag_name.as_str());
    let dim = if root.self_closing || root.open_end >= root.close_start {
        None
    } else {
        direct_child_range(xml, root.open_end, root.close_start, "dimension")?
    };
    match used {
        Some(r) => {
            let piece = render_dimension_xml(prefix.as_str(), r.as_str());
            match dim {
                Some(e) => Ok(crate::xml::replace_xml_span(xml, e.start, e.end, piece.as_str())),
                None => insert_worksheet_child(xml, &root, "dimension", piece.as_str()),
            }
        },
        None => match dim {
            Some(e) => Ok(crate::xml::remove_xml_span(xml, e.start, e.end)),
            None => Ok(to_string(xml)),
        },
    }
}

/// A worksheet with a `sheetData`: unchanged when it has one, else with an
/// empty one inserted in schema order.
pub open spec fn ensure_sheet_data_spec(xml: Seq<char>) -> Result<Seq<char>, ErrorKind> {
    match sheet_data_span_spec(xml) {
        Err(k) => Err(k),
        Ok(Some(_)) => Ok(xml),
        Ok(None) => match root_bounds_spec(xml, false) {
            None => Err(ErrorKind::Unexpected),
            Some(root) => {
                let name = element_name_spec(prefix_of(root.4), "sheetData"@);
                match insert_child_spec(xml, root, "sheetData"@, "<"@ + name + "></"@ + name + ">"@) {
                    Err(_) => Err(ErrorKind::Unexpected),
                    Ok(x) => Ok(x),
                }
            },
        },
    }
}

/// `ensure_sheet_data_xml`: the worksheet with a `sheetData`.
pub fn ensure_sheet_data_xml(xml: &str) -> (r: CliResult<String>)
    ensures
        match ensure_sheet_data_spec(xml@) {
            Err(k) => r is Err && r->Err_0.kind == k,
            Ok(v) => r is Ok && r->Ok_0@ == v,
        },
{
    if xlsx_sheet_data_span(xml)?.is_some() {
        return Ok(to_string(xml));
    }
    let root = xlsx_worksheet_root_bounds_impl(xml, false)?;
    let prefix = xml_tag_prefix(root.tag_name.as_str());
    let name = element_name(prefix.as_str(), "sheetData");
    let block = concat5("<", name.as_str(), "></", name.as_str(), ">");
    insert_worksheet_child(xml, &root, "sheetData", block.as_str())
}

// ---------------------------------------------------------------------------
// Rows after a structural edit
// ---------------------------------------------------------------------------

/// What a structural edit reports. The counters wrap around as 32-bit
/// numbers.
#[derive(Clone, Copy, PartialEq, Eq, Structural, Debug)]
pub struct StructureMutationStats {
    pub shifted_rows: u32,
    pub shifted_cells: u32,
    pub removed_rows: u32,
    pub removed_cells: u32,
}

pub open spec fn zero_structure_stats() -> StructureMutationStats {
    StructureMutationStats { shifted_rows: 0, shifted_cells: 0, removed_rows: 0, removed_cells: 0 }
}

/// Where a row's cells go: to the same column, right of an insertion point,
/// or out of (left over) a deleted span of columns.
#[derive(Clone, Copy, PartialEq, Eq, Structural, Debug)]
pub enum CellMapping {
    SameColumn,
    InsertColumns { at: u32, count: u32 },
    DeleteColumns { start: u32, end: u32, count: u32 },
}

/// The column a cell goes to (`None` when it is deleted) and the tallies.
pub open spec fn map_cell_spec(m: CellMapping, col: u32, st: StructureMutationStats) -> Result<(Option<u32>, StructureMutationStats), ErrorKind> {
    match m {
        CellMapping::SameColumn => Ok((Some(col), st)),
        CellMapping::InsertColumns { at, count } => if col >= at {
            match offset_spec(col as int, count as int, max_col()) {
                None => Err(ErrorKind::InvalidArgs),
                Some(c) => Ok((Some(c as u32), StructureMutationStats { shifted_cells: st.shifted_cells.wrapping_add(1), ..st })),
            }
        } else {
            Ok((Some(col), st))
        },
        CellMapping::DeleteColumns { start, end, count } => if start <= col && col <= end {
            Ok((None, StructureMutationStats { removed_cells: st.removed_cells.wrapping_add(1), ..st }))
        } else if col > end {
            match offset_spec(col as int, -(count as int), max_col()) {
                None => Err(ErrorKind::InvalidArgs),
                Some(c) => Ok((Some(c as u32), StructureMutationStats { shifted_cells: st.shifted_cells.wrapping_add(1), ..st })),
            }
        } else {
            Ok((Some(col), st))
        },
    }
}

fn map_cell(m: CellMapping, col: u32, stats: &mut StructureMutationStats) -> (r: CliResult<Option<u32>>)
    ensures
        match map_cell_spec(m, col, *old(stats)) {
            Err(k) => r is Err && r->Err_0.kind == k,
            Ok(v) => r is Ok && r->Ok_0 == v.0 && *final(stats) == v.1,
        },
{
    match m {
        CellMapping::SameColumn => Ok(Some(col)),
        CellMapping::InsertColumns { at, count } => {
            if col >= at {
                stats.shifted_cells = stats.shifted_cells.wrapping_add(1);
                let c = offset_col(col, count as i64)?;
                Ok(Some(c))
            } else {
                Ok(Some(col))
            }
        },
        CellMapping::DeleteColumns { start, end, count } => {
            if start <= col && col <= end {
                stats.removed_cells = stats.removed_cells.wrapping_add(1);
                Ok(None)
            } else if col > end {
                stats.shifted_cells = stats.shifted_cells.wrapping_add(1);
                let c = offset_col(col, -(count as i64))?;
                Ok(Some(c))
            } else {
                Ok(Some(col))
            }
        },
    }
}

/// The cells of a row from the `i`-th on moved as the mapping says, each
/// with its reference rewritten, collected by their new columns.
pub open spec fn structure_cells(
    cells: Seq<CellView>,
    i: int,
    row: u32,
    m: CellMapping,
    acc: Keyed,
    st: StructureMutationStats,
) -> Result<(Keyed, StructureMutationStats), ErrorKind>
    decreases cells.len() - i,
{
    if i < 0 || i >= cells.len() {
        Ok((acc, st))
    } else {
        match map_cell_spec(m, cells[i].col, st) {
            Err(k) => Err(k),
            Ok(mv) => match mv.0 {
                None => structure_cells(cells, i + 1, row, m, acc, mv.1),
                Some(c) => match cell_ref_update_spec(cells[i].xml, c, row) {
                    Err(k) => Err(k),
                    Ok(x) => structure_cells(cells, i + 1, row, m, keyed_insert(acc, c, x), mv.1),
                },
            },
        }
    }
}

/// A row element: its attributes with `r` set and `spans` dropped, and the
/// cells in column order.
pub open spec fn structure_row_block(prefix: Seq<char>, row: u32, attrs: Entries, cells: Keyed) -> Seq<char> {
    let a = remove_key(sorted_insert(attrs, "r"@, decimal(row as nat)), "spans"@);
    "<"@ + element_name_spec(prefix, "row"@) + render_attrs_spec(a) + ">"@ + keyed_concat(cells) + "</"@ + element_name_spec(
        prefix,
        "row"@,
    ) + ">"@
}

/// A row rewritten as row `row` with its cells moved.
pub open spec fn structure_row_spec(prefix: Seq<char>, row: u32, r: RowView, m: CellMapping, st: StructureMutationStats) -> Result<
    (Seq<char>, StructureMutationStats),
    ErrorKind,
> {
    match structure_cells(r.cells, 0, row, m, Seq::empty(), st) {
        Err(k) => Err(k),
        Ok(v) => Ok((structure_row_block(prefix, row, r.attrs, v.0), v.1)),
    }
}

/// `render_structure_row`: a row rewritten as row `row_number`, its cells
/// moved as the mapping says.
pub fn render_structure_row(prefix: &str, row_number: u32, row_span: &XlsxRowSpan, m: CellMapping, stats: &mut StructureMutationStats) -> (r:
    CliResult<String>)
    ensures
        match structure_row_spec(prefix@, row_number, row_span@, m, *old(stats)) {
            Err(k) => r is Err && r->Err_0.kind == k,
            Ok(v) => r is Ok && r->Ok_0@ == v.0 && *final(stats) == v.1,
        },
{
    let ghost cv = row_span@.cells;
    let ghost st0 = *stats;
    let mut cells: Vec<(u32, String)> = Vec::new();
    proof {
        assert(keyed_view(cells@) =~= Seq::<(u32, Seq<char>)>::empty());
    }
    let mut i: usize = 0;
    while i < row_span.cells.len()
        invariant
            0 <= i <= row_span.cells.len(),
            cv == row_span@.cells,
            st0 == *old(stats),
            structure_cells(cv, 0, row_number, m, Seq::empty(), st0) == structure_cells(cv, i as int, row_number, m, keyed_view(cells@), *stats),
        decreases row_span.cells.len() - i,
    {
        let cell = &row_span.cells[i];
        proof {
            assert(cv[i as int] == cell@);
        }
        match map_cell(m, cell.col, stats) {
            Err(e) => {
                return Err(e);
            },
            Ok(None) => {},
            Ok(Some(c)) => {
                let x = update_cell_ref_xml(cell.xml.as_str(), c, row_number)?;
                keyed_put(&mut cells, c, x);
            },
        }
        i = i + 1;
    }
    let mut attrs = row_span.attrs.clone_map();
    attrs.insert(to_string("r"), u32_to_string(row_number));
    attrs.remove("spans");
    let name = element_name(prefix, "row");
    let rendered = crate::elements::render_xml_attrs(&attrs.entries);
    let mut body: Vec<char> = Vec::new();
    crate::sheetxml::concat_keyed(&cells, &mut body);
    let inner = crate::text::string_from_chars(body.as_slice());
    proof {
        assert(body@ =~= keyed_concat(keyed_view(cells@)));
    }
    let head = concat4("<", name.as_str(), rendered.as_str(), ">");
    let tail = concat3("</", name.as_str(), ">");
    let out = concat3(head.as_str(), inner.as_str(), tail.as_str());
    proof {
        assert(out@ =~= structure_row_block(prefix@, row_number, row_span@.attrs, keyed_view(cells@)));
    }
    Ok(out)
}

// ---------------------------------------------------------------------------
// Inserting and deleting rows and columns
// ---------------------------------------------------------------------------

/// A structural edit of a worksheet.
#[derive(Clone, Copy, PartialEq, Eq, Structural, Debug)]
pub enum StructureEdit {
    InsertRows { at: u32, count: u32 },
    DeleteRows { start: u32, count: u32 },
    InsertCols { at: u32, count: u32 },
    DeleteCols { start: u32, count: u32 },
}

/// A deletion names at least one row or column, and its last one is a
/// 32-bit number.
pub open spec fn edit_ok(e: StructureEdit) -> bool {
    match e {
        StructureEdit::DeleteRows { start, count } => count >= 1 && start + count - 1 <= u32::MAX,
        StructureEdit::DeleteCols { start, count } => count >= 1 && start + count - 1 <= u32::MAX,
        _ => true,
    }
}

/// A row's markup as it stands in the text, when its bounds lie in it.
pub open spec fn raw_row(xml: Seq<char>, r: RowView) -> Option<Seq<char>> {
    if 0 <= r.start <= r.end <= xml.len() {
        Some(xml.subrange(r.start, r.end))
    } else {
        None
    }
}

pub open spec fn put_row(acc: Keyed, key: u32, piece: Result<(Seq<char>, StructureMutationStats), ErrorKind>) -> Option<
    Result<(Keyed, StructureMutationStats), ErrorKind>,
> {
    match piece {
        Err(k) => Some(Err(k)),
        Ok(v) => Some(Ok((keyed_insert(acc, key, v.0), v.1))),
    }
}

pub open spec fn keep_raw(xml: Seq<char>, r: RowView, acc: Keyed, st: StructureMutationStats) -> Option<
    Result<(Keyed, StructureMutationStats), ErrorKind>,
> {
    match raw_row(xml, r) {
        None => None,
        Some(x) => Some(Ok((keyed_insert(acc, r.row, x), st))),
    }
}

pub open spec fn shifted(st: StructureMutationStats, n: u32) -> StructureMutationStats {
    StructureMutationStats { shifted_rows: st.shifted_rows.wrapping_add(1), shifted_cells: st.shifted_cells.wrapping_add(n), ..st }
}

/// What an edit makes of one row: rows at or below an insertion point move
/// down (rewritten); deleted rows are dropped; rows below a deletion move up
/// (rewritten, and kept only with cells); rows above are kept as they stand
/// (a deletion keeps only those with cells); a column edit rewrites every
/// row with its cells moved (a column deletion keeps only rows left with
/// cells). `None` where the running program panics on a row's bounds.
#[verifier::opaque]
pub open spec fn edit_row_spec(xml: Seq<char>, r: RowView, e: StructureEdit, prefix: Seq<char>, acc: Keyed, st: StructureMutationStats) -> Option<
    Result<(Keyed, StructureMutationStats), ErrorKind>,
> {
    let n = r.cells.len() as u32;
    match e {
        StructureEdit::InsertRows { at, count } => if r.row >= at {
            match offset_spec(r.row as int, count as int, max_row()) {
                None => Some(Err(ErrorKind::InvalidArgs)),
                Some(nr) => put_row(acc, nr as u32, structure_row_spec(prefix, nr as u32, r, CellMapping::SameColumn, shifted(st, n))),
            }
        } else {
            keep_raw(xml, r, acc, st)
        },
        StructureEdit::DeleteRows { start, count } => {
            let end = start + count - 1;
            if start <= r.row && r.row <= end {
                Some(
                    Ok(
                        (
                            acc,
                            StructureMutationStats {
                                removed_rows: st.removed_rows.wrapping_add(1),
                                removed_cells: st.removed_cells.wrapping_add(n),
                                ..st
                            },
                        ),
                    ),
                )
            } else if r.row > end {
                match offset_spec(r.row as int, -(count as int), max_row()) {
                    None => Some(Err(ErrorKind::InvalidArgs)),
                    Some(nr) => if r.cells.len() > 0 {
                        put_row(acc, nr as u32, structure_row_spec(prefix, nr as u32, r, CellMapping::SameColumn, shifted(st, n)))
                    } else {
                        Some(Ok((acc, shifted(st, n))))
                    },
                }
            } else if r.cells.len() > 0 {
                keep_raw(xml, r, acc, st)
            } else {
                Some(Ok((acc, st)))
            }
        },
        StructureEdit::InsertCols { at, count } => put_row(
            acc,
            r.row,
            structure_row_spec(prefix, r.row, r, CellMapping::InsertColumns { at, count }, st),
        ),
        StructureEdit::DeleteCols { start, count } => match structure_row_spec(
            prefix,
            r.row,
            r,
            CellMapping::DeleteColumns { start, end: (start + count - 1) as u32, count },
            st,
        ) {
            Err(k) => Some(Err(k)),
            Ok(v) => if has_element_spec(v.0, "c"@) {
                Some(Ok((keyed_insert(acc, r.row, v.0), v.1)))
            } else {
                Some(Ok((acc, v.1)))
            },
        },
    }
}

/// Deleting rows `start ..= start + count - 1` drops those rows and closes
/// the gap: a row below the deletion that has cells is written as row
/// `r - count`, its cells kept in their columns, and a row above it keeps
/// its place as it stands.
pub proof fn lemma_delete_rows_close_the_gap(
    xml: Seq<char>,
    r: RowView,
    start: u32,
    count: u32,
    prefix: Seq<char>,
    acc: Keyed,
    st: StructureMutationStats,
)
    requires
        start >= 1,
        count >= 1,
    ensures
        start <= r.row <= start + count - 1 ==> (edit_row_spec(xml, r, StructureEdit::DeleteRows { start, count }, prefix, acc, st)
            matches Some(Ok(v)) && v.0 == acc),
        r.row > start + count - 1 && r.row - count <= max_row() && r.cells.len() > 0 ==> edit_row_spec(
            xml,
            r,
            StructureEdit::DeleteRows { start, count },
            prefix,
            acc,
            st,
        ) == put_row(
            acc,
            (r.row - count) as u32,
            structure_row_spec(prefix, (r.row - count) as u32, r, CellMapping::SameColumn, shifted(st, r.cells.len() as u32)),
        ),
        r.row < start && r.cells.len() > 0 ==> edit_row_spec(xml, r, StructureEdit::DeleteRows { start, count }, prefix, acc, st)
            == keep_raw(xml, r, acc, st),
{
    reveal(edit_row_spec);
}

/// Inserting `count` rows at `at` moves every row at or below `at` down by
/// `count`, its cells kept in their columns, and keeps the rows above as
/// they stand.
pub proof fn lemma_insert_rows_open_a_gap(
    xml: Seq<char>,
    r: RowView,
    at: u32,
    count: u32,
    prefix: Seq<char>,
    acc: Keyed,
    st: StructureMutationStats,
)
    requires
        count >= 1,
    ensures
        r.row >= at && r.row + count <= max_row() ==> edit_row_spec(xml, r, StructureEdit::InsertRows { at, count }, prefix, acc, st)
            == put_row(
            acc,
            (r.row + count) as u32,
            structure_row_spec(prefix, (r.row + count) as u32, r, CellMapping::SameColumn, shifted(st, r.cells.len() as u32)),
        ),
        r.row < at ==> edit_row_spec(xml, r, StructureEdit::InsertRows { at, count }, prefix, acc, st) == keep_raw(xml, r, acc, st),
{
    reveal(edit_row_spec);
}

/// A row moved down by an insertion of `count` rows comes back to its own
/// number when the inserted rows are deleted again.
pub proof fn lemma_insert_then_delete_restores_row_number(
    xml: Seq<char>,
    r: RowView,
    moved: RowView,
    at: u32,
    count: u32,
    prefix: Seq<char>,
    acc: Keyed,
    st: StructureMutationStats,
)
    requires
        at >= 1,
        count >= 1,
        r.row >= at,
        r.row + count <= max_row(),
        r.cells.len() > 0,
        moved == (RowView { row: (r.row + count) as u32, ..r }),
    ensures
        edit_row_spec(xml, moved, StructureEdit::DeleteRows { start: at, count }, prefix, acc, st) == put_row(
            acc,
            r.row,
            structure_row_spec(prefix, r.row, moved, CellMapping::SameColumn, shifted(st, r.cells.len() as u32)),
        ),
{
    lemma_delete_rows_close_the_gap(xml, moved, at, count, prefix, acc, st);
}

/// The rows from the `i`-th on, one after another.
pub open spec fn edit_rows_fold(
    xml: Seq<char>,
    rows: Seq<RowView>,
    i: int,
    e: StructureEdit,
    prefix: Seq<char>,
    acc: Keyed,
    st: StructureMutationStats,
) -> Option<Result<(Keyed, StructureMutationStats), ErrorKind>>
    decreases rows.len() - i,
{
    if i < 0 || i >= rows.len() {
        Some(Ok((acc, st)))
    } else {
        match edit_row_spec(xml, rows[i], e, prefix, acc, st) {
            None => None,
            Some(Err(k)) => Some(Err(k)),
            Some(Ok(v)) => edit_rows_fold(xml, rows, i + 1, e, prefix, v.0, v.1),
        }
    }
}

/// The worksheet after a structural edit and the tallies: `sheetData`
/// ensured, its rows rewritten, and the dimension updated; `None` where the
/// running program panics.
pub open spec fn structure_edit_spec(xml: Seq<char>, e: StructureEdit) -> Option<Result<(Seq<char>, StructureMutationStats), ErrorKind>> {
    match ensure_sheet_data_spec(xml) {
        Err(k) => Some(Err(k)),
        Ok(x1) => match sheet_data_span_spec(x1) {
            Err(k) => Some(Err(k)),
            Ok(None) => None,
            Ok(Some(sd)) => match row_spans_spec(x1, Some(sd)) {
                Err(k) => Some(Err(k)),
                Ok(rows) => match root_bounds_spec(x1, false) {
                    None => Some(Err(ErrorKind::Unexpected)),
                    Some(root) => {
                        let prefix = prefix_of(root.4);
                        match edit_rows_fold(x1, rows, 0, e, prefix, Seq::empty(), zero_structure_stats()) {
                            None => None,
                            Some(Err(k)) => Some(Err(k)),
                            Some(Ok(res)) => match update_dimension_spec(splice(x1, sd.0, sd.3, sheet_data_block(prefix, res.0))) {
                                Err(k) => Some(Err(k)),
                                Ok(u) => Some(Ok((u, res.1))),
                            },
                        }
                    },
                },
            },
        },
    }
}

fn keep_raw_exec(xv: &Vec<char>, r: &XlsxRowSpan, acc: &mut Vec<(u32, String)>) -> (ok: bool)
    ensures
        ok <==> raw_row(xv@, r@) is Some,
        ok ==> keyed_view(final(acc)@) == keyed_insert(keyed_view(old(acc)@), r.row, raw_row(xv@, r@)->0),
        !ok ==> final(acc)@ == old(acc)@,
{
    if r.start <= r.end && r.end <= xv.len() {
        let x = crate::elements::vec_to_string_range(xv, r.start, r.end);
        keyed_put(acc, r.row, x);
        true
    } else {
        false
    }
}

fn put_row_exec(acc: &mut Vec<(u32, String)>, key: u32, piece: CliResult<String>) -> (r: CliResult<()>)
    ensures
        piece is Err ==> r is Err && r->Err_0.kind == piece->Err_0.kind && final(acc)@ == old(acc)@,
        piece is Ok ==> r is Ok && keyed_view(final(acc)@) == keyed_insert(keyed_view(old(acc)@), key, piece->Ok_0@),
{
    let x = piece?;
    keyed_put(acc, key, x);
    Ok(())
}

#[verifier::rlimit(60)]
fn edit_row_step(xv: &Vec<char>, r: &XlsxRowSpan, e: StructureEdit, prefix: &str, acc: &mut Vec<(u32, String)>, stats: &mut StructureMutationStats) -> (res:
    Option<CliResult<()>>)
    requires
        edit_ok(e),
    ensures
        match edit_row_spec(xv@, r@, e, prefix@, keyed_view(old(acc)@), *old(stats)) {
            None => res is None,
            Some(Err(k)) => res is Some && res->Some_0 is Err && res->Some_0->Err_0.kind == k,
            Some(Ok(v)) => res is Some && res->Some_0 is Ok && keyed_view(final(acc)@) == v.0 && *final(stats) == v.1,
        },
{
    proof {
        reveal(edit_row_spec);
    }
    let n = r.cells.len() as u32;
    proof {
        assert(r@.cells.len() == r.cells@.len());
    }
    match e {
        StructureEdit::InsertRows { at, count } => {
            if r.row >= at {
                let nr = match offset_row(r.row, count as i64) {
                    Ok(v) => v,
                    Err(err) => {
                        return Some(Err(err));
                    },
                };
                stats.shifted_rows = stats.shifted_rows.wrapping_add(1);
                stats.shifted_cells = stats.shifted_cells.wrapping_add(n);
                let piece = render_structure_row(prefix, nr, r, CellMapping::SameColumn, stats);
                Some(put_row_exec(acc, nr, piece))
            } else {
                if keep_raw_exec(xv, r, acc) {
                    Some(Ok(()))
                } else {
                    None
                }
            }
        },
        StructureEdit::DeleteRows { start, count } => {
            let end = start + (count - 1);
            if start <= r.row && r.row <= end {
                stats.removed_rows = stats.removed_rows.wrapping_add(1);
                stats.removed_cells = stats.removed_cells.wrapping_add(n);
                Some(Ok(()))
            } else if r.row > end {
                let nr = match offset_row(r.row, -(count as i64)) {
                    Ok(v) => v,
                    Err(err) => {
                        return Some(Err(err));
                    },
                };
                stats.shifted_rows = stats.shifted_rows.wrapping_add(1);
                stats.shifted_cells = stats.shifted_cells.wrapping_add(n);
                if r.cells.len() > 0 {
                    let piece = render_structure_row(prefix, nr, r, CellMapping::SameColumn, stats);
                    Some(put_row_exec(acc, nr, piece))
                } else {
                    Some(Ok(()))
                }
            } else if r.cells.len() > 0 {
                if keep_raw_exec(xv, r, acc) {
                    Some(Ok(()))
                } else {
                    None
                }
            } else {
                Some(Ok(()))
            }
        },
        StructureEdit::InsertCols { at, count } => {
            let piece = render_structure_row(prefix, r.row, r, CellMapping::InsertColumns { at, count }, stats);
            Some(put_row_exec(acc, r.row, piece))
        },
        StructureEdit::DeleteCols { start, count } => {
            let end = start + (count - 1);
            let piece = render_structure_row(prefix, r.row, r, CellMapping::DeleteColumns { start, end, count }, stats);
            match piece {
                Err(err) => Some(Err(err)),
                Ok(x) => {
                    if row_xml_has_cells(x.as_str()) {
                        keyed_put(acc, r.row, x);
                    }
                    Some(Ok(()))
                },
            }
        },
    }
}

fn structure_edit_impl(xml: &str, e: StructureEdit) -> (r: Option<CliResult<(String, StructureMutationStats)>>)
    requires
        edit_ok(e),
    ensures
        match structure_edit_spec(xml@, e) {
            None => r is None,
            Some(Err(k)) => r is Some && r->Some_0 is Err && r->Some_0->Err_0.kind == k,
            Some(Ok(v)) => r is Some && r->Some_0 is Ok && r->Some_0->Ok_0.0@ == v.0 && r->Some_0->Ok_0.1 == v.1,
        },
{
    let x1 = match ensure_sheet_data_xml(xml) {
        Ok(x) => x,
        Err(err) => {
            return Some(Err(err));
        },
    };
    let sd = match xlsx_sheet_data_span(x1.as_str()) {
        Err(err) => {
            return Some(Err(err));
        },
        Ok(None) => {
            return None;
        },
        Ok(Some(sd)) => sd,
    };
    let rows = match parse_xlsx_row_spans(x1.as_str(), Some(sd)) {
        Ok(v) => v,
        Err(err) => {
            return Some(Err(err));
        },
    };
    let root = match xlsx_worksheet_root_bounds_impl(x1.as_str(), false) {
        Ok(v) => v,
        Err(err) => {
            return Some(Err(err));
        },
    };
    let prefix = xml_tag_prefix(root.tag_name.as_str());
    let xv = str_chars(x1.as_str());
    let ghost rv = rows_view(rows@);
    let mut acc: Vec<(u32, String)> = Vec::new();
    let mut stats = StructureMutationStats { shifted_rows: 0, shifted_cells: 0, removed_rows: 0, removed_cells: 0 };
    proof {
        assert(keyed_view(acc@) =~= Seq::<(u32, Seq<char>)>::empty());
    }
    let mut i: usize = 0;
    while i < rows.len()
        invariant
            0 <= i <= rows.len(),
            edit_ok(e),
            xv@ == x1@,
            rv == rows_view(rows@),
            ensure_sheet_data_spec(xml@) == Ok::<Seq<char>, ErrorKind>(x1@),
            sheet_data_span_spec(x1@) == Ok::<Option<(int, int, int, int, bool)>, ErrorKind>(Some(crate::sheetxml::span_view(sd))),
            crate::sheetxml::span_ok(sd, x1@.len() as int),
            row_spans_spec(x1@, Some(crate::sheetxml::span_view(sd))) == Ok::<Seq<RowView>, ErrorKind>(rv),
            root_bounds_spec(x1@, false) == Some(root_view(root)),
            prefix@ == prefix_of(root.tag_name@),
            edit_rows_fold(x1@, rv, 0, e, prefix@, Seq::empty(), zero_structure_stats()) == edit_rows_fold(
                x1@,
                rv,
                i as int,
                e,
                prefix@,
                keyed_view(acc@),
                stats,
            ),
        decreases rows.len() - i,
    {
        let ghost a0 = keyed_view(acc@);
        let ghost s0 = stats;
        proof {
            assert(rv[i as int] == rows@[i as int]@);
        }
        match edit_row_step(&xv, &rows[i], e, prefix.as_str(), &mut acc, &mut stats) {
            None => {
                proof {
                    assert(edit_rows_fold(x1@, rv, i as int, e, prefix@, a0, s0) is None);
                }
                return None;
            },
            Some(Err(err)) => {
                proof {
                    assert(edit_rows_fold(x1@, rv, i as int, e, prefix@, a0, s0) == Some(
                        Err::<(Keyed, StructureMutationStats), ErrorKind>(err.kind),
                    ));
                }
                return Some(Err(err));
            },
            Some(Ok(())) => {},
        }
        i = i + 1;
    }
    let replaced = replace_sheet_data_with_rows(x1.as_str(), &sd, prefix.as_str(), &acc);
    match update_dimension_xml(replaced.as_str()) {
        Err(err) => Some(Err(err)),
        Ok(u) => Some(Ok((u, stats))),
    }
}

/// `insert_rows_xml`: the worksheet with `count` empty rows inserted at row
/// `at` (rows from `at` on move down), and the tallies.
pub fn insert_rows_xml(xml: &str, at: u32, count: u32) -> (r: CliResult<(String, StructureMutationStats)>)
    requires
        structure_edit_spec(xml@, StructureEdit::InsertRows { at, count }) is Some,
    ensures
        match structure_edit_spec(xml@, StructureEdit::InsertRows { at, count })->Some_0 {
            Err(k) => r is Err && r->Err_0.kind == k,
            Ok(v) => r is Ok && r->Ok_0.0@ == v.0 && r->Ok_0.1 == v.1,
        },
{
    match structure_edit_impl(xml, StructureEdit::InsertRows { at, count }) {
        Some(r) => r,
        None => Err(CliError::unexpected(to_string("sheetData not found"))),
    }
}

/// `delete_rows_xml`: the worksheet with rows `start..start+count-1`
/// removed (rows below move up), and the tallies.
pub fn delete_rows_xml(xml: &str, start: u32, count: u32) -> (r: CliResult<(String, StructureMutationStats)>)
    requires
        count >= 1,
        start + count - 1 <= u32::MAX,
        structure_edit_spec(xml@, StructureEdit::DeleteRows { start, count }) is Some,
    ensures
        match structure_edit_spec(xml@, StructureEdit::DeleteRows { start, count })->Some_0 {
            Err(k) => r is Err && r->Err_0.kind == k,
            Ok(v) => r is Ok && r->Ok_0.0@ == v.0 && r->Ok_0.1 == v.1,
        },
{
    match structure_edit_impl(xml, StructureEdit::DeleteRows { start, count }) {
        Some(r) => r,
        None => Err(CliError::unexpected(to_string("sheetData not found"))),
    }
}

/// `insert_cols_xml`: the worksheet with `count` empty columns inserted at
/// column `at` (cells from `at` on move right), and the tallies.
pub fn insert_cols_xml(xml: &str, at: u32, count: u32) -> (r: CliResult<(String, StructureMutationStats)>)
    requires
        structure_edit_spec(xml@, StructureEdit::InsertCols { at, count }) is Some,
    ensures
        match structure_edit_spec(xml@, StructureEdit::InsertCols { at, count })->Some_0 {
            Err(k) => r is Err && r->Err_0.kind == k,
            Ok(v) => r is Ok && r->Ok_0.0@ == v.0 && r->Ok_0.1 == v.1,
        },
{
    match structure_edit_impl(xml, StructureEdit::InsertCols { at, count }) {
        Some(r) => r,
        None => Err(CliError::unexpected(to_string("sheetData not found"))),
    }
}

/// `delete_cols_xml`: the worksheet with columns `start..start+count-1`
/// removed (cells right of them move left), and the tallies.
pub fn delete_cols_xml(xml: &str, start: u32, count: u32) -> (r: CliResult<(String, StructureMutationStats)>)
    requires
        count >= 1,
        start + count - 1 <= u32::MAX,
        structure_edit_spec(xml@, StructureEdit::DeleteCols { start, count }) is Some,
    ensures
        match structure_edit_spec(xml@, StructureEdit::DeleteCols { start, count })->Some_0 {
            Err(k) => r is Err && r->Err_0.kind == k,
            Ok(v) => r is Ok && r->Ok_0.0@ == v.0 && r->Ok_0.1 == v.1,
        },
{
    match structure_edit_impl(xml, StructureEdit::DeleteCols { start, count }) {
        Some(r) => r,
        None => Err(CliError::unexpected(to_string("sheetData not found"))),
    }
}

/// Any structural edit, or `None` where the running program would panic.
pub fn structure_edit_checked(xml: &str, e: StructureEdit) -> (r: Option<CliResult<(String, StructureMutationStats)>>)
    requires
        edit_ok(e),
    ensures
        match structure_edit_spec(xml@, e) {
            None => r is None,
            Some(Err(k)) => r is Some && r->Some_0 is Err && r->Some_0->Err_0.kind == k,
            Some(Ok(v)) => r is Some && r->Some_0 is Ok && r->Some_0->Ok_0.0@ == v.0 && r->Some_0->Ok_0.1 == v.1,
        },
{
    structure_edit_impl(xml, e)
}

// ---------------------------------------------------------------------------
// Row and cell references
// ---------------------------------------------------------------------------

/// A row's `r` attribute checked: present and not blank, a row number in
/// the sheet, and not seen before.
pub open spec fn row_ref_check(attrs: Seq<(Seq<char>, Seq<char>)>, seen: Seq<u32>) -> Result<u32, ErrorKind> {
    match attr_lookup(attrs, "r"@) {
        None => Err(ErrorKind::InvalidArgs),
        Some(t) => if trim(t).len() == 0 {
            Err(ErrorKind::InvalidArgs)
        } else {
            match crate::text::parse_u32_spec(trim(t)) {
                None => Err(ErrorKind::InvalidArgs),
                Some(n) => if n < 1 || n > max_row() || seen.contains(n) {
                    Err(ErrorKind::InvalidArgs)
                } else {
                    Ok(n)
                },
            }
        },
    }
}

/// A cell's `r` attribute checked: present and not blank, a reference in
/// the row it is stored in, and not seen before in that row; the reference
/// as written back.
pub open spec fn cell_ref_check(attrs: Seq<(Seq<char>, Seq<char>)>, row: u32, seen: Seq<Seq<char>>) -> Result<Seq<char>, ErrorKind> {
    match attr_lookup(attrs, "r"@) {
        None => Err(ErrorKind::InvalidArgs),
        Some(t) => if trim(t).len() == 0 {
            Err(ErrorKind::InvalidArgs)
        } else {
            match crate::cellref::cell_ref_spec(t) {
                None => Err(ErrorKind::InvalidArgs),
                Some(cr) => {
                    let norm = cell_text(cr.0, cr.1);
                    if cr.1 != row || seen.contains(norm) {
                        Err(ErrorKind::InvalidArgs)
                    } else {
                        Ok(norm)
                    }
                },
            }
        },
    }
}

/// Reading the rows of `sheetData` from token `i` on: inside a row, at
/// `depth`, the cells directly in it are checked against the row number.
pub open spec fn refs_walk(
    f: Seq<char>,
    toks: Seq<CharToken>,
    i: int,
    in_row: bool,
    depth: int,
    row: u32,
    rows: Seq<u32>,
    cells: Seq<Seq<char>>,
    failed: bool,
) -> Result<(), ErrorKind>
    decreases toks.len() - i,
{
    if i < 0 || i >= toks.len() {
        if failed {
            Err(ErrorKind::Unexpected)
        } else {
            Ok(())
        }
    } else {
        let t = toks[i];
        let a = tag_attrs(f, t);
        let is_row = crate::xml::local_name_of(t.name@) == "row"@;
        let is_c = crate::xml::local_name_of(t.name@) == "c"@;
        if !in_row {
            if (t.kind == XmlTokenKind::Start || t.kind == XmlTokenKind::Empty) && is_row {
                match row_ref_check(a, rows) {
                    Err(k) => Err(k),
                    Ok(n) => if t.kind == XmlTokenKind::Start {
                        refs_walk(f, toks, i + 1, true, 1, n, rows.push(n), Seq::empty(), failed)
                    } else {
                        refs_walk(f, toks, i + 1, false, depth, row, rows.push(n), cells, failed)
                    },
                }
            } else {
                refs_walk(f, toks, i + 1, in_row, depth, row, rows, cells, failed)
            }
        } else {
            match t.kind {
                XmlTokenKind::Start => if depth == 1 && is_c {
                    match cell_ref_check(a, row, cells) {
                        Err(k) => Err(k),
                        Ok(nm) => refs_walk(f, toks, i + 1, true, depth + 1, row, rows, cells.push(nm), failed),
                    }
                } else {
                    refs_walk(f, toks, i + 1, true, depth + 1, row, rows, cells, failed)
                },
                XmlTokenKind::Empty => if depth == 1 && is_c {
                    match cell_ref_check(a, row, cells) {
                        Err(k) => Err(k),
                        Ok(nm) => refs_walk(f, toks, i + 1, true, depth, row, rows, cells.push(nm), failed),
                    }
                } else {
                    refs_walk(f, toks, i + 1, true, depth, row, rows, cells, failed)
                },
                XmlTokenKind::End => if depth == 1 && is_row {
                    refs_walk(f, toks, i + 1, false, 0, row, rows, cells, failed)
                } else {
                    refs_walk(f, toks, i + 1, true, if depth > 0 { depth - 1 } else { 0 }, row, rows, cells, failed)
                },
                XmlTokenKind::Other => refs_walk(f, toks, i + 1, true, depth, row, rows, cells, failed),
            }
        }
    }
}

/// Whether every row and cell of `sheetData` has a sound reference.
pub open spec fn structure_refs_spec(xml: Seq<char>) -> Result<(), ErrorKind> {
    match sheet_data_span_spec(xml) {
        Err(k) => Err(k),
        Ok(None) => Ok(()),
        Ok(Some(d)) => if d.4 {
            Ok(())
        } else {
            let f = xml.subrange(d.1, d.2);
            match char_tokens_spec(f) {
                None => Err(ErrorKind::Unexpected),
                Some(p) => refs_walk(f, p.0, 0, false, 0, 0, Seq::empty(), Seq::empty(), p.1),
            }
        },
    }
}

fn contains_u32(v: &Vec<u32>, x: u32) -> (r: bool)
    ensures
        r == v@.contains(x),
{
    let mut i: usize = 0;
    while i < v.len()
        invariant
            0 <= i <= v.len(),
            forall|j: int| 0 <= j < i ==> v@[j] != x,
        decreases v.len() - i,
    {
        if v[i] == x {
            return true;
        }
        i = i + 1;
    }
    false
}

fn contains_text(v: &Vec<String>, x: &str) -> (r: bool)
    ensures
        r == v.deep_view().contains(x@),
{
    let ghost dv = v.deep_view();
    let mut i: usize = 0;
    while i < v.len()
        invariant
            0 <= i <= v.len(),
            dv == v.deep_view(),
            forall|j: int| 0 <= j < i ==> dv[j] != x@,
        decreases v.len() - i,
    {
        if crate::text::str_eq(v[i].as_str(), x) {
            proof {
                assert(dv[i as int] == x@);
            }
            return true;
        }
        i = i + 1;
    }
    false
}

fn invalid_reference(detail: &str) -> (r: CliError)
    ensures
        r.kind == ErrorKind::InvalidArgs,
{
    CliError::invalid_args(concat2("worksheet has missing or invalid row/cell references: ", detail))
}

/// `validate_row_reference`: a row's reference checked and recorded.
pub fn validate_row_reference(attrs: &Vec<(String, String)>, seen_rows: &mut Vec<u32>) -> (r: CliResult<u32>)
    ensures
        match row_ref_check(attrs.deep_view(), old(seen_rows)@) {
            Err(k) => r is Err && r->Err_0.kind == k,
            Ok(n) => r is Ok && r->Ok_0 == n && final(seen_rows)@ == old(seen_rows)@.push(n),
        },
{
    let text = match attr_get(attrs, "r") {
        None => {
            return Err(invalid_reference("row is missing r attribute"));
        },
        Some(t) => t,
    };
    let t = crate::text::trim_string(text.as_str());
    if str_chars(t.as_str()).len() == 0 {
        return Err(invalid_reference("row is missing r attribute"));
    }
    let n = match crate::text::parse_u32(t.as_str()) {
        Some(n) => n,
        None => {
            return Err(invalid_reference(concat2("invalid row reference ", crate::text::debug_quoted(text.as_str()).as_str()).as_str()));
        },
    };
    if n < 1 || n > 1048576 {
        return Err(invalid_reference(concat2("invalid row reference ", crate::text::debug_quoted(text.as_str()).as_str()).as_str()));
    }
    if contains_u32(seen_rows, n) {
        return Err(invalid_reference(concat2("duplicate row reference ", u32_to_string(n).as_str()).as_str()));
    }
    seen_rows.push(n);
    Ok(n)
}

/// `validate_cell_reference`: a cell's reference checked against its row and
/// recorded.
pub fn validate_cell_reference(attrs: &Vec<(String, String)>, row: u32, seen_cells: &mut Vec<String>) -> (r: CliResult<()>)
    ensures
        match cell_ref_check(attrs.deep_view(), row, old(seen_cells).deep_view()) {
            Err(k) => r is Err && r->Err_0.kind == k,
            Ok(nm) => r is Ok && final(seen_cells).deep_view() == old(seen_cells).deep_view().push(nm),
        },
{
    let text = match attr_get(attrs, "r") {
        None => {
            return Err(invalid_reference(concat3("cell in row ", u32_to_string(row).as_str(), " is missing r attribute").as_str()));
        },
        Some(t) => t,
    };
    if trim_chars(text.as_str()).len() == 0 {
        return Err(invalid_reference(concat3("cell in row ", u32_to_string(row).as_str(), " is missing r attribute").as_str()));
    }
    let (col, cell_row) = match crate::cellref::parse_cell_ref(text.as_str()) {
        Ok(p) => p,
        Err(_) => {
            return Err(invalid_reference(concat2("invalid cell reference ", crate::text::debug_quoted(text.as_str()).as_str()).as_str()));
        },
    };
    let cn = col_name(col);
    let norm = concat2(cn.as_str(), u32_to_string(cell_row).as_str());
    if cell_row != row {
        let a = concat4("cell ", norm.as_str(), " is stored in row ", u32_to_string(row).as_str());
        return Err(invalid_reference(a.as_str()));
    }
    if contains_text(seen_cells, norm.as_str()) {
        return Err(invalid_reference(concat2("duplicate cell reference ", norm.as_str()).as_str()));
    }
    let ghost before = seen_cells.deep_view();
    seen_cells.push(norm);
    proof {
        assert(seen_cells.deep_view() =~= before.push(cell_text(col, cell_row)));
    }
    Ok(())
}

/// `validate_structure_references`: every row of `sheetData` has a unique
/// row number in the sheet, and every cell directly in a row a unique
/// reference in that row.
pub fn validate_structure_references(xml: &str) -> (r: CliResult<()>)
    ensures
        match structure_refs_spec(xml@) {
            Err(k) => r is Err && r->Err_0.kind == k,
            Ok(_) => r is Ok,
        },
{
    let sd = match xlsx_sheet_data_span(xml)? {
        None => {
            return Ok(());
        },
        Some(d) => d,
    };
    if sd.empty {
        return Ok(());
    }
    let xv = str_chars(xml);
    let fragment = crate::elements::vec_to_string_range(&xv, sd.open_end, sd.close_start);
    let (toks, failed) = char_tokens(fragment.as_str())?;
    let fv = str_chars(fragment.as_str());
    let ghost f = fragment@;
    let mut seen_rows: Vec<u32> = Vec::new();
    let mut seen_cells: Vec<String> = Vec::new();
    let mut in_row = false;
    let mut depth: usize = 0;
    let mut current_row: u32 = 0;
    proof {
        assert(seen_cells.deep_view() =~= Seq::<Seq<char>>::empty());
        assert(seen_rows@ =~= Seq::<u32>::empty());
        assert(structure_refs_spec(xml@) == refs_walk(f, toks@, 0, false, 0, 0, Seq::empty(), Seq::empty(), failed));
    }
    let mut i: usize = 0;
    while i < toks.len()
        invariant
            0 <= i <= toks.len(),
            depth <= i,
            fv@ == f,
            structure_refs_spec(xml@) == refs_walk(f, toks@, 0, false, 0, 0, Seq::empty(), Seq::empty(), failed),
            tokens_well_formed(toks@, f.len() as int),
            refs_walk(f, toks@, 0, false, 0, 0, Seq::empty(), Seq::empty(), failed) == refs_walk(
                f,
                toks@,
                i as int,
                in_row,
                depth as int,
                current_row,
                seen_rows@,
                seen_cells.deep_view(),
                failed,
            ),
        decreases toks.len() - i,
    {
        let t = &toks[i];
        proof {
            crate::styles::lemma_tokens_monotone(toks@, f.len() as int, i as int, i as int);
        }
        let attrs = crate::sheetxml::token_attrs(&fv, t);
        let lname = local_name(t.name.as_str());
        let is_row = crate::text::str_eq(lname.as_str(), "row");
        let is_c = crate::text::str_eq(lname.as_str(), "c");
        if !in_row {
            if (t.kind == XmlTokenKind::Start || t.kind == XmlTokenKind::Empty) && is_row {
                let n = validate_row_reference(&attrs, &mut seen_rows)?;
                if t.kind == XmlTokenKind::Start {
                    current_row = n;
                    seen_cells = Vec::new();
                    proof {
                        assert(seen_cells.deep_view() =~= Seq::<Seq<char>>::empty());
                    }
                    in_row = true;
                    depth = 1;
                }
            }
        } else {
            match t.kind {
                XmlTokenKind::Start => {
                    if depth == 1 && is_c {
                        validate_cell_reference(&attrs, current_row, &mut seen_cells)?;
                    }
                    depth = depth + 1;
                },
                XmlTokenKind::Empty => {
                    if depth == 1 && is_c {
                        validate_cell_reference(&attrs, current_row, &mut seen_cells)?;
                    }
                },
                XmlTokenKind::End => {
                    if depth == 1 && is_row {
                        in_row = false;
                        depth = 0;
                    } else if depth > 0 {
                        depth = depth - 1;
                    }
                },
                XmlTokenKind::Other => {},
            }
        }
        i = i + 1;
    }
    if failed {
        return Err(CliError::unexpected(to_string("invalid worksheet XML")));
    }
    Ok(())
}

} // verus!
