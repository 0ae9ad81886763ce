//! Writing values into a worksheet's cells: normalizing a value to write,
//! rendering a cell element, and writing a matrix of values over a range.
use vstd::prelude::*;
use crate::attrmap::{remove_key, sorted_insert, AttrMap, Entries};
use crate::elements::{render_attrs_spec, render_xml_attrs, text_escape, xml_escape};
use crate::error::{CliError, CliResult, ErrorKind};
use crate::mutation::{
    normalize_xlsx_cell_value_type, value_type_spec,
    element_start_from, empty_cell_attrs, find_xlsx_element_start, null_policy_ok, render_empty_xlsx_cell_with_attrs_prefixed,
    replace_dimension_spec, replace_xlsx_dimension, XlsxMatrixCell,
};
use crate::cellref::{cell_text, col_name, RangeBounds};
use crate::sheetxml::{
    cells_keyed, cells_view, has_style, keyed_insert, keyed_put, keyed_remove, keyed_take, keyed_view,
    merge_check_spec, opt_span_view, parse_xlsx_row_spans, rebuild_spec, rebuild_xlsx_sheet_data,
    reject_xlsx_merged_cell_intersection, render_xlsx_row_with_prefix, row_spans_spec, row_xml_spec, rows_view,
    sheet_data_span_spec, used_range_spec, xlsx_sheet_data_span, xlsx_used_range_from_cell_refs, CellView, Keyed,
    RowView, XlsxCellSpan, XlsxRowSpan,
};
use crate::text::u32_to_string;
use crate::text::{
    ascii_lower_seq, chars_eq_str, concat2, concat3, concat4, concat5, is_white_space, push_all, str_chars,
    str_strip_all_prefix, string_from_chars, to_string, trim, trim_chars, trim_lower, vec_to_string,
    strip_all_prefix, char_is_white_space,
};

verus! {

/// The text of a formula as written: trimmed, leading `=` signs dropped.
pub open spec fn formula_text(f: Seq<char>) -> Seq<char> {
    strip_all_prefix(trim(f), "="@)
}

/// `1` or `0` for a boolean word (`true`/`1`, `false`/`0`, any case).
pub open spec fn bool_word(v: Seq<char>) -> Option<Seq<char>> {
    let l = ascii_lower_seq(trim(v));
    if l == "true"@ || l == "1"@ {
        Some("1"@)
    } else if l == "false"@ || l == "0"@ {
        Some("0"@)
    } else {
        None
    }
}

/// The kind and text a cell is written as, or `None` when the value does not
/// fit its type. `number_ok` says whether the trimmed value reads as a
/// finite floating-point number.
pub open spec fn normalize_spec(kind: Seq<char>, value: Seq<char>, formula: Seq<char>, number_ok: bool) -> Option<
    (Seq<char>, Seq<char>),
> {
    let k = if formula.len() > 0 {
        "formula"@
    } else {
        ascii_lower_seq(trim(kind))
    };
    let t = trim(value);
    if k == ""@ || k == "string"@ {
        Some(("string"@, value))
    } else if k == "number"@ {
        if !number_ok || t.len() == 0 {
            None
        } else {
            Some(("number"@, t))
        }
    } else if k == "bool"@ || k == "boolean"@ {
        match bool_word(value) {
            Some(b) => Some(("bool"@, b)),
            None => None,
        }
    } else if k == "formula"@ {
        let f = formula_text(
            if formula.len() == 0 {
                value
            } else {
                formula
            },
        );
        if f.len() == 0 {
            None
        } else {
            Some(("formula"@, f))
        }
    } else if k == "auto"@ {
        if t.len() > 0 && t[0] == '=' {
            if formula_text(t).len() == 0 {
                None
            } else {
                Some(("formula"@, formula_text(t)))
            }
        } else if ascii_lower_seq(t) == "true"@ {
            Some(("bool"@, "1"@))
        } else if ascii_lower_seq(t) == "false"@ {
            Some(("bool"@, "0"@))
        } else if number_ok {
            if t.len() == 0 {
                None
            } else {
                Some(("number"@, t))
            }
        } else {
            Some(("string"@, value))
        }
    } else {
        None
    }
}

fn formula_text_exec(f: &str) -> (r: String)
    ensures
        r@ == formula_text(f@),
{
    let t = trim_chars(f);
    let ts = vec_to_string(&t);
    proof {
        reveal_strlit("=");
    }
    let v = str_strip_all_prefix(ts.as_str(), "=");
    vec_to_string(&v)
}

/// `normalize_xlsx_write_cell`: the kind (`string`, `number`, `bool`,
/// `formula`) and text a cell is written as. `number_ok` is whether the
/// trimmed value reads as a finite floating-point number, which the caller
/// determines.
pub fn normalize_xlsx_write_cell(cell: &XlsxMatrixCell, number_ok: bool) -> (r: CliResult<(String, String)>)
    ensures
        r is Ok <==> normalize_spec(cell.kind@, cell.value@, cell.formula@, number_ok) is Some,
        r is Ok ==> (r->Ok_0.0@, r->Ok_0.1@) == normalize_spec(cell.kind@, cell.value@, cell.formula@, number_ok).unwrap(),
        r is Err ==> r->Err_0.kind == ErrorKind::InvalidArgs,
{
    proof {
        reveal_strlit("");
        reveal_strlit("formula");
    }
    let has_formula = str_chars(cell.formula.as_str()).len() > 0;
    let k = if has_formula {
        str_chars("formula")
    } else {
        trim_lower(cell.kind.as_str())
    };
    let t = trim_chars(cell.value.as_str());
    let ts = vec_to_string(&t);
    if chars_eq_str(&k, "") || chars_eq_str(&k, "string") {
        return Ok((to_string("string"), cell.value.clone()));
    }
    if chars_eq_str(&k, "number") {
        if !number_ok || t.len() == 0 {
            return Err(CliError::invalid_args(concat3("invalid number value \"", cell.value.as_str(), "\"")));
        }
        return Ok((to_string("number"), ts));
    }
    if chars_eq_str(&k, "bool") || chars_eq_str(&k, "boolean") {
        let l = trim_lower(cell.value.as_str());
        if chars_eq_str(&l, "true") || chars_eq_str(&l, "1") {
            return Ok((to_string("bool"), to_string("1")));
        }
        if chars_eq_str(&l, "false") || chars_eq_str(&l, "0") {
            return Ok((to_string("bool"), to_string("0")));
        }
        return Err(CliError::invalid_args(concat3("invalid bool value \"", cell.value.as_str(), "\"")));
    }
    if chars_eq_str(&k, "formula") {
        let src = if has_formula {
            cell.formula.as_str()
        } else {
            cell.value.as_str()
        };
        let f = formula_text_exec(src);
        if str_chars(f.as_str()).len() == 0 {
            return Err(CliError::invalid_args(to_string("formula value cannot be empty")));
        }
        return Ok((to_string("formula"), f));
    }
    if chars_eq_str(&k, "auto") {
        if t.len() > 0 && t[0] == '=' {
            let f = formula_text_exec(ts.as_str());
            if str_chars(f.as_str()).len() == 0 {
                return Err(CliError::invalid_args(to_string("formula value cannot be empty")));
            }
            return Ok((to_string("formula"), f));
        }
        let l = trim_lower(ts.as_str());
        proof {
            crate::cellref::lemma_trim_idempotent(cell.value@);
        }
        if chars_eq_str(&l, "true") {
            return Ok((to_string("bool"), to_string("1")));
        }
        if chars_eq_str(&l, "false") {
            return Ok((to_string("bool"), to_string("0")));
        }
        if number_ok {
            if t.len() == 0 {
                return Err(CliError::invalid_args(concat3("invalid number value \"", ts.as_str(), "\"")));
            }
            return Ok((to_string("number"), ts));
        }
        return Ok((to_string("string"), cell.value.clone()));
    }
    Err(CliError::invalid_args(concat3(
        "invalid cell value type \"",
        cell.kind.as_str(),
        "\" (must be string, number, bool, formula, or auto)",
    )))
}

/// Whether a text needs `xml:space="preserve"` to keep its white space: it
/// starts or ends with a white-space character.
pub open spec fn needs_space_spec(s: Seq<char>) -> bool {
    s.len() > 0 && (is_white_space(s[0]) || is_white_space(s.last()))
}

/// `needs_xml_space_preserve`: whether a text starts or ends with white space.
pub fn needs_xml_space_preserve(value: &str) -> (r: bool)
    ensures
        r == needs_space_spec(value@),
{
    let v = str_chars(value);
    v.len() > 0 && (char_is_white_space(v[0]) || char_is_white_space(v[v.len() - 1]))
}

/// The start tag of a cell element.
pub open spec fn cell_open(a: Entries, p: Seq<char>) -> Seq<char> {
    "<"@ + p + "c"@ + render_attrs_spec(a) + ">"@
}

/// The attributes of a written cell of a kind: `t` set for a string
/// (`inlineStr`) or a boolean (`b`).
pub open spec fn cell_attrs_for(kind: Seq<char>, a0: Entries) -> Entries {
    if kind == "string"@ {
        sorted_insert(a0, "t"@, "inlineStr"@)
    } else if kind == "bool"@ {
        sorted_insert(a0, "t"@, "b"@)
    } else {
        a0
    }
}

/// The content of a written cell: an inline string, a value, or a formula.
pub open spec fn cell_content(kind: Seq<char>, value: Seq<char>, p: Seq<char>) -> Seq<char> {
    if kind == "string"@ {
        let sp = if needs_space_spec(value) {
            " xml:space=\"preserve\""@
        } else {
            Seq::empty()
        };
        "<"@ + p + "is><"@ + p + "t"@ + sp + ">"@ + text_escape(value) + "</"@ + p + "t></"@ + p + "is>"@
    } else if kind == "number"@ {
        "<"@ + p + "v>"@ + text_escape(value) + "</"@ + p + "v>"@
    } else if kind == "bool"@ {
        "<"@ + p + "v>"@ + value + "</"@ + p + "v>"@
    } else {
        "<"@ + p + "f>"@ + text_escape(value) + "</"@ + p + "f>"@
    }
}

/// A cell element holding a normalized value, keeping the existing cell's
/// other attributes, and whether it holds a formula.
pub open spec fn render_cell_spec(addr: Seq<char>, kind: Seq<char>, value: Seq<char>, attrs: Entries, p: Seq<char>) -> (
    Seq<char>,
    bool,
) {
    let a0 = remove_key(sorted_insert(attrs, "r"@, addr), "t"@);
    (
        cell_open(cell_attrs_for(kind, a0), p) + cell_content(kind, value, p) + "</"@ + p + "c>"@,
        kind != "string"@ && kind != "number"@ && kind != "bool"@,
    )
}

pub open spec fn opt_entries(attrs: Option<&AttrMap>) -> Entries {
    match attrs {
        Some(a) => a.view(),
        None => Seq::empty(),
    }
}

/// `render_xlsx_cell_with_attrs`: the cell element that writes a value,
/// after normalizing it, and whether it holds a formula.
pub fn render_xlsx_cell_with_attrs(
    addr: &str,
    cell: &XlsxMatrixCell,
    number_ok: bool,
    attrs: Option<&AttrMap>,
    prefix: &str,
) -> (r: CliResult<(String, bool)>)
    ensures
        match normalize_spec(cell.kind@, cell.value@, cell.formula@, number_ok) {
            None => r is Err && r->Err_0.kind == ErrorKind::InvalidArgs,
            Some(n) => r is Ok && (r->Ok_0.0@, r->Ok_0.1) == render_cell_spec(addr@, n.0, n.1, opt_entries(attrs), prefix@),
        },
{
    let (kind, value) = normalize_xlsx_write_cell(cell, number_ok)?;
    Ok(render_normalized_cell(addr, kind.as_str(), value.as_str(), attrs, prefix))
}

/// The cell element for a normalized kind and text.
pub fn render_normalized_cell(addr: &str, kind: &str, value: &str, attrs: Option<&AttrMap>, prefix: &str) -> (r: (
    String,
    bool,
))
    ensures
        (r.0@, r.1) == render_cell_spec(addr@, kind@, value@, opt_entries(attrs), prefix@),
{
    let mut m = match attrs {
        Some(a) => a.clone_map(),
        None => AttrMap::new(),
    };
    m.insert(to_string("r"), to_string(addr));
    m.remove("t");
    let kv = str_chars(kind);
    let is_string = chars_eq_str(&kv, "string");
    let is_number = chars_eq_str(&kv, "number");
    let is_bool = chars_eq_str(&kv, "bool");
    if is_string {
        m.insert(to_string("t"), to_string("inlineStr"));
    } else if is_bool {
        m.insert(to_string("t"), to_string("b"));
    }
    let content = cell_content_exec(kind, value, prefix);
    (cell_element(&m, prefix, content.as_str()), !is_string && !is_number && !is_bool)
}

fn cell_content_exec(kind: &str, value: &str, p: &str) -> (r: String)
    ensures
        r@ == cell_content(kind@, value@, p@),
{
    let kv = str_chars(kind);
    if chars_eq_str(&kv, "string") {
        let sp = if needs_xml_space_preserve(value) {
            " xml:space=\"preserve\""
        } else {
            ""
        };
        proof {
            reveal_strlit("");
        }
        let esc = xml_escape(value);
        let a = concat5("<", p, "is><", p, "t");
        let b = concat3(a.as_str(), sp, ">");
        let c = concat4(b.as_str(), esc.as_str(), "</", p);
        let r = concat4(c.as_str(), "t></", p, "is>");
        proof {
            assert(r@ =~= cell_content(kind@, value@, p@));
        }
        r
    } else if chars_eq_str(&kv, "number") {
        let esc = xml_escape(value);
        let a = concat5("<", p, "v>", esc.as_str(), "</");
        concat3(a.as_str(), p, "v>")
    } else if chars_eq_str(&kv, "bool") {
        let a = concat5("<", p, "v>", value, "</");
        concat3(a.as_str(), p, "v>")
    } else {
        let esc = xml_escape(value);
        let a = concat5("<", p, "f>", esc.as_str(), "</");
        concat3(a.as_str(), p, "f>")
    }
}

/// A cell element with the given attributes and content.
fn cell_element(m: &AttrMap, p: &str, content: &str) -> (r: String)
    ensures
        r@ == cell_open(m.view(), p@) + content@ + "</"@ + p@ + "c>"@,
{
    let rendered = render_xml_attrs(&m.entries);
    let head = concat5("<", p, "c", rendered.as_str(), ">");
    let tail = concat3("</", p, "c>");
    let out = concat3(head.as_str(), content, tail.as_str());
    proof {
        assert(out@ =~= cell_open(m.view(), p@) + content@ + "</"@ + p@ + "c>"@);
    }
    out
}

/// The four kind words differ from each other.
proof fn lemma_kind_words()
    ensures
        "string"@ != "number"@,
        "string"@ != "bool"@,
        "string"@ != "formula"@,
        "number"@ != "bool"@,
        "number"@ != "formula"@,
        "bool"@ != "formula"@,
{
    reveal_strlit("string");
    reveal_strlit("number");
    reveal_strlit("bool");
    reveal_strlit("formula");
    assert("string"@[0] != "number"@[0]);
    assert("string"@.len() != "bool"@.len());
    assert("string"@.len() != "formula"@.len());
    assert("number"@.len() != "bool"@.len());
    assert("number"@.len() != "formula"@.len());
    assert("bool"@.len() != "formula"@.len());
}


// ---------------------------------------------------------------------------
// Writing a matrix over a range
// ---------------------------------------------------------------------------

/// What a range write reports.
#[derive(Debug)]
pub struct XlsxRangeSetStats {
    pub updated: usize,
    pub created: usize,
    pub cleared: usize,
    pub skipped: usize,
    pub formula_count: usize,
    pub formula_seen: bool,
    pub formula_invalidated: bool,
}

pub ghost struct SetStats {
    pub updated: nat,
    pub created: nat,
    pub cleared: nat,
    pub skipped: nat,
    pub formula_count: nat,
    pub formula_seen: bool,
    pub formula_invalidated: bool,
}

pub open spec fn stats_view(s: XlsxRangeSetStats) -> SetStats {
    SetStats {
        updated: s.updated as nat,
        created: s.created as nat,
        cleared: s.cleared as nat,
        skipped: s.skipped as nat,
        formula_count: s.formula_count as nat,
        formula_seen: s.formula_seen,
        formula_invalidated: s.formula_invalidated,
    }
}

pub open spec fn zero_stats() -> SetStats {
    SetStats {
        updated: 0,
        created: 0,
        cleared: 0,
        skipped: 0,
        formula_count: 0,
        formula_seen: false,
        formula_invalidated: false,
    }
}

/// The first row of a number.
pub open spec fn row_lookup(rows: Seq<RowView>, n: u32, i: int) -> Option<RowView>
    decreases rows.len() - i,
{
    if i < 0 || i >= rows.len() {
        None
    } else if rows[i].row == n {
        Some(rows[i])
    } else {
        row_lookup(rows, n, i + 1)
    }
}

/// The first cell of a column.
pub open spec fn cell_lookup(cells: Seq<CellView>, c: u32, i: int) -> Option<CellView>
    decreases cells.len() - i,
{
    if i < 0 || i >= cells.len() {
        None
    } else if cells[i].col == c {
        Some(cells[i])
    } else {
        cell_lookup(cells, c, i + 1)
    }
}

pub open spec fn opt_attrs(c: Option<CellView>) -> Entries {
    match c {
        Some(x) => x.attrs,
        None => Seq::empty(),
    }
}

/// An emptied cell with a prefix, keeping its other attributes.
pub open spec fn empty_prefixed(addr: Seq<char>, attrs: Entries, prefix: Seq<char>) -> Seq<char> {
    seq!['<'] + prefix + seq!['c'] + render_attrs_spec(empty_cell_attrs(addr, Some(attrs))) + "/>"@
}

/// Writing the cells of one matrix row from the `j`-th on into worksheet row
/// `row`: a cell over an existing formula is refused unless formulas may be
/// overwritten (a skipped null does not touch it); a null cell is skipped,
/// clears the existing cell (an empty styled cell stays), or is written as
/// an empty string, as the null policy says; any other cell is normalized and
/// written keeping the existing cell's attributes.
pub open spec fn set_cells(
    row: u32,
    existing: Option<RowView>,
    cells: Seq<XlsxMatrixCell>,
    oks: Seq<bool>,
    lo_col: u32,
    j: int,
    rendered: Keyed,
    changed: bool,
    st: SetStats,
    pw: Seq<char>,
    overwrite: bool,
    prefix: Seq<char>,
) -> Result<(Keyed, bool, SetStats), ErrorKind>
    decreases cells.len() - j,
{
    if j < 0 || j >= cells.len() {
        Ok((rendered, changed, st))
    } else {
        let c = cells[j];
        let col = (lo_col + j) as u32;
        let addr = cell_text(col, row);
        let ex = match existing {
            Some(r) => cell_lookup(r.cells, col, 0),
            None => None,
        };
        let ex_formula = ex is Some && ex->0.has_formula;
        let touches = !(c.null && pw == "skip"@);
        if !overwrite && ex_formula && touches {
            Err(ErrorKind::InvalidArgs)
        } else if c.null {
            if pw == "skip"@ {
                set_cells(row, existing, cells, oks, lo_col, j + 1, rendered, changed, SetStats { skipped: st.skipped + 1, ..st }, pw, overwrite, prefix)
            } else if pw == "clear"@ {
                match ex {
                    Some(e) => {
                        let r2 = if has_style(e.attrs) {
                            keyed_insert(rendered, col, empty_prefixed(addr, e.attrs, prefix))
                        } else {
                            keyed_remove(rendered, col)
                        };
                        set_cells(
                            row,
                            existing,
                            cells,
                            oks,
                            lo_col,
                            j + 1,
                            r2,
                            true,
                            SetStats { cleared: st.cleared + 1, formula_invalidated: st.formula_invalidated || e.has_formula, ..st },
                            pw,
                            overwrite,
                            prefix,
                        )
                    },
                    None => set_cells(row, existing, cells, oks, lo_col, j + 1, keyed_remove(rendered, col), changed, st, pw, overwrite, prefix),
                }
            } else {
                let x = render_cell_spec(addr, "string"@, Seq::empty(), opt_attrs(ex), prefix);
                set_cells(
                    row,
                    existing,
                    cells,
                    oks,
                    lo_col,
                    j + 1,
                    keyed_insert(rendered, col, x.0),
                    true,
                    SetStats { updated: st.updated + 1, created: st.created + if ex is None { 1nat } else { 0nat }, ..st },
                    pw,
                    overwrite,
                    prefix,
                )
            }
        } else {
            match normalize_spec(c.kind@, c.value@, c.formula@, oks[j]) {
                None => Err(ErrorKind::InvalidArgs),
                Some(n) => {
                    let x = render_cell_spec(addr, n.0, n.1, opt_attrs(ex), prefix);
                    set_cells(
                        row,
                        existing,
                        cells,
                        oks,
                        lo_col,
                        j + 1,
                        keyed_insert(rendered, col, x.0),
                        true,
                        SetStats {
                            updated: st.updated + 1,
                            created: st.created + if ex is None { 1nat } else { 0nat },
                            formula_count: st.formula_count + if x.1 { 1nat } else { 0nat },
                            formula_seen: st.formula_seen || x.1,
                            formula_invalidated: st.formula_invalidated || ex_formula,
                            ..st
                        },
                        pw,
                        overwrite,
                        prefix,
                    )
                },
            }
        }
    }
}

/// Writing the matrix rows from the `k`-th on: the rewritten rows by number
/// and the tallies.
pub open spec fn set_rows(
    rows: Seq<RowView>,
    mrows: Seq<Vec<XlsxMatrixCell>>,
    oks: Seq<Vec<bool>>,
    lo_row: u32,
    lo_col: u32,
    k: int,
    changed_rows: Keyed,
    st: SetStats,
    pw: Seq<char>,
    overwrite: bool,
    prefix: Seq<char>,
) -> Result<(Keyed, SetStats), ErrorKind>
    decreases mrows.len() - k,
{
    if k < 0 || k >= mrows.len() {
        Ok((changed_rows, st))
    } else {
        let row = (lo_row + k) as u32;
        let existing = row_lookup(rows, row, 0);
        let start = match existing {
            Some(r) => cells_keyed(r.cells),
            None => Seq::empty(),
        };
        match set_cells(row, existing, mrows[k]@, oks[k]@, lo_col, 0, start, false, st, pw, overwrite, prefix) {
            Err(e) => Err(e),
            Ok(res) => {
                let attrs = match existing {
                    Some(r) => r.attrs,
                    None => Seq::empty(),
                };
                let cr = if res.1 {
                    keyed_insert(changed_rows, row, row_xml_spec(row, attrs, res.0, prefix))
                } else {
                    changed_rows
                };
                set_rows(rows, mrows, oks, lo_row, lo_col, k + 1, cr, res.2, pw, overwrite, prefix)
            },
        }
    }
}

/// The element prefix written cells use: that of `sheetData`, else of
/// `worksheet`, else none.
pub open spec fn sheet_prefix_spec(xml: Seq<char>) -> Seq<char> {
    match element_start_from(xml, "sheetData"@, 0) {
        Some(e) => e.1,
        None => match element_start_from(xml, "worksheet"@, 0) {
            Some(e) => e.1,
            None => Seq::empty(),
        },
    }
}

/// The worksheet after writing a matrix over a range, and the tallies.
pub open spec fn set_range_spec(
    xml: Seq<char>,
    bounds: RangeBounds,
    mrows: Seq<Vec<XlsxMatrixCell>>,
    oks: Seq<Vec<bool>>,
    policy: Seq<char>,
    overwrite: bool,
) -> Result<(Seq<char>, SetStats), ErrorKind> {
    match merge_check_spec(xml, bounds) {
        Err(k) => Err(k),
        Ok(_) => match sheet_data_span_spec(xml) {
            Err(k) => Err(k),
            Ok(sd) => match row_spans_spec(xml, sd) {
                Err(k) => Err(k),
                Ok(rows) => match set_rows(
                    rows,
                    mrows,
                    oks,
                    bounds.lo_row(),
                    bounds.lo_col(),
                    0,
                    Seq::empty(),
                    zero_stats(),
                    ascii_lower_seq(trim(policy)),
                    overwrite,
                    sheet_prefix_spec(xml),
                ) {
                    Err(k) => Err(k),
                    Ok(res) => match rebuild_spec(xml, sd, rows, res.0) {
                        Err(k) => Err(k),
                        Ok(u) => Ok((replace_dimension_spec(u, used_range_spec(u)), res.1)),
                    },
                },
            },
        },
    }
}

/// The number of cells in the first `k` matrix rows.
pub open spec fn cells_total(mrows: Seq<Vec<XlsxMatrixCell>>, k: int) -> nat
    decreases k,
{
    if k <= 0 || k > mrows.len() {
        0
    } else {
        cells_total(mrows, k - 1) + mrows[k - 1]@.len()
    }
}

/// A matrix that fits the sheet from the range's top-left corner, with a
/// number check for each cell, and whose cell count fits a counter.
pub open spec fn matrix_fits(mrows: Seq<Vec<XlsxMatrixCell>>, oks: Seq<Vec<bool>>, bounds: RangeBounds) -> bool {
    &&& oks.len() == mrows.len()
    &&& forall|k: int| 0 <= k < mrows.len() ==> (#[trigger] oks[k])@.len() == mrows[k]@.len()
    &&& bounds.lo_row() + mrows.len() <= u32::MAX + 1
    &&& forall|k: int| 0 <= k < mrows.len() ==> bounds.lo_col() + (#[trigger] mrows[k])@.len() <= u32::MAX + 1
    &&& cells_total(mrows, mrows.len() as int) <= usize::MAX
}

/// The counts stay within the cells seen.
pub open spec fn stats_bounded(st: SetStats, seen: nat) -> bool {
    st.updated + st.skipped + st.cleared <= seen && st.created <= st.updated && st.formula_count <= st.updated
}

proof fn lemma_cells_total_mono(mrows: Seq<Vec<XlsxMatrixCell>>, a: int, b: int)
    requires
        0 <= a <= b <= mrows.len(),
    ensures
        cells_total(mrows, a) <= cells_total(mrows, b),
    decreases b - a,
{
    if a < b {
        lemma_cells_total_mono(mrows, a, b - 1);
    }
}

pub(crate) fn find_row(rows: &Vec<XlsxRowSpan>, n: u32) -> (r: Option<usize>)
    ensures
        match r {
            Some(i) => i < rows@.len() && row_lookup(rows_view(rows@), n, 0) == Some(rows_view(rows@)[i as int]),
            None => row_lookup(rows_view(rows@), n, 0) is None,
        },
{
    let ghost rv = rows_view(rows@);
    let mut i: usize = 0;
    while i < rows.len()
        invariant
            0 <= i <= rows.len(),
            rv == rows_view(rows@),
            row_lookup(rv, n, 0) == row_lookup(rv, n, i as int),
        decreases rows.len() - i,
    {
        if rows[i].row == n {
            return Some(i);
        }
        i = i + 1;
    }
    None
}

pub(crate) fn find_cell(cells: &Vec<XlsxCellSpan>, c: u32) -> (r: Option<usize>)
    ensures
        match r {
            Some(i) => i < cells@.len() && cell_lookup(cells_view(cells@), c, 0) == Some(cells_view(cells@)[i as int]),
            None => cell_lookup(cells_view(cells@), c, 0) is None,
        },
{
    let ghost cv = cells_view(cells@);
    let mut i: usize = 0;
    while i < cells.len()
        invariant
            0 <= i <= cells.len(),
            cv == cells_view(cells@),
            cell_lookup(cv, c, 0) == cell_lookup(cv, c, i as int),
        decreases cells.len() - i,
    {
        if cells[i].col == c {
            return Some(i);
        }
        i = i + 1;
    }
    None
}

pub open spec fn opt_row_view(rows: Seq<XlsxRowSpan>, i: Option<usize>) -> Option<RowView> {
    match i {
        Some(k) => Some(rows[k as int]@),
        None => None,
    }
}

/// Writes one matrix row into worksheet row `row`.
#[verifier::rlimit(60)]
fn set_row_cells(
    rows: &Vec<XlsxRowSpan>,
    existing: Option<usize>,
    row: u32,
    cells: &Vec<XlsxMatrixCell>,
    oks: &Vec<bool>,
    lo_col: u32,
    rendered: &mut Vec<(u32, String)>,
    stats: &mut XlsxRangeSetStats,
    pw: &Vec<char>,
    overwrite: bool,
    prefix: &str,
    seen: Ghost<nat>,
) -> (r: CliResult<bool>)
    requires
        existing is Some ==> existing->0 < rows@.len(),
        oks@.len() == cells@.len(),
        lo_col + cells@.len() <= u32::MAX + 1,
        stats_bounded(stats_view(*old(stats)), seen@),
        seen@ + cells@.len() <= usize::MAX,
    ensures
        match set_cells(
            row,
            opt_row_view(rows@, existing),
            cells@,
            oks@,
            lo_col,
            0,
            keyed_view(old(rendered)@),
            false,
            stats_view(*old(stats)),
            pw@,
            overwrite,
            prefix@,
        ) {
            Err(k) => r is Err && r->Err_0.kind == k,
            Ok(res) => r is Ok && keyed_view(final(rendered)@) == res.0 && r->Ok_0 == res.1 && stats_view(*final(stats)) == res.2
                && stats_bounded(res.2, (seen@ + cells@.len()) as nat),
        },
{
    let ghost ex_row = opt_row_view(rows@, existing);
    let ghost start = (keyed_view(rendered@), stats_view(*stats));
    let mut changed = false;
    let mut j: usize = 0;
    while j < cells.len()
        invariant
            0 <= j <= cells.len(),
            existing is Some ==> existing->0 < rows@.len(),
            ex_row == opt_row_view(rows@, existing),
            start.0 == keyed_view(old(rendered)@),
            start.1 == stats_view(*old(stats)),
            oks@.len() == cells@.len(),
            lo_col + cells@.len() <= u32::MAX + 1,
            seen@ + cells@.len() <= usize::MAX,
            stats_bounded(stats_view(*stats), (seen@ + j) as nat),
            set_cells(row, ex_row, cells@, oks@, lo_col, 0, start.0, false, start.1, pw@, overwrite, prefix@)
                == set_cells(row, ex_row, cells@, oks@, lo_col, j as int, keyed_view(rendered@), changed, stats_view(*stats), pw@, overwrite, prefix@),
        decreases cells.len() - j,
    {
        let c = &cells[j];
        let col = lo_col + (j as u32);
        let cn = col_name(col);
        let rn = u32_to_string(row);
        let addr = concat2(cn.as_str(), rn.as_str());
        let ex: Option<&XlsxCellSpan> = match existing {
            Some(ri) => match find_cell(&rows[ri].cells, col) {
                Some(ci) => Some(&rows[ri].cells[ci]),
                None => None,
            },
            None => None,
        };
        let ghost exv: Option<CellView> = match ex {
            Some(x) => Some(x@),
            None => None,
        };
        proof {
            let want = match ex_row {
                Some(rr) => cell_lookup(rr.cells, col, 0),
                None => None,
            };
            assert(col == (lo_col + j) as u32);
            assert(addr@ == cell_text(col, row));
            match existing {
                Some(ri) => {
                    assert(ex_row == Some(rows@[ri as int]@));
                    assert(rows@[ri as int]@.cells == cells_view(rows@[ri as int].cells@));
                },
                None => {},
            }
            assert(exv == want);
        }
        let ex_formula = match ex {
            Some(x) => x.has_formula,
            None => false,
        };
        let is_skip = chars_eq_str(pw, "skip");
        let touches = !(c.null && is_skip);
        if !overwrite && ex_formula && touches {
            proof {
                let ex_spec = match ex_row {
                    Some(rr) => cell_lookup(rr.cells, col, 0),
                    None => None,
                };
                assert(ex_spec is Some && ex_spec->0.has_formula);
            }
            return Err(CliError::invalid_args(concat2("range write would overwrite existing formula: ", addr.as_str())));
        }
        let ex_attrs: Option<&AttrMap> = match ex {
            Some(x) => Some(&x.attrs),
            None => None,
        };
        if c.null {
            if is_skip {
                stats.skipped = stats.skipped + 1;
            } else if chars_eq_str(pw, "clear") {
                match ex {
                    Some(e) => {
                        stats.cleared = stats.cleared + 1;
                        changed = true;
                        if e.has_formula {
                            stats.formula_invalidated = true;
                        }
                        let styled = match e.attrs.get("s") {
                            Some(v) => str_chars(v.as_str()).len() > 0,
                            None => false,
                        };
                        if styled {
                            let x = render_empty_xlsx_cell_with_attrs_prefixed(addr.as_str(), Some(&e.attrs), prefix);
                            keyed_put(rendered, col, x);
                        } else {
                            keyed_take(rendered, col);
                        }
                    },
                    None => {
                        keyed_take(rendered, col);
                    },
                }
            } else {
                let (x, _f) = render_normalized_cell(addr.as_str(), "string", "", ex_attrs, prefix);
                keyed_put(rendered, col, x);
                changed = true;
                stats.updated = stats.updated + 1;
                if ex.is_none() {
                    stats.created = stats.created + 1;
                }
                proof {
                    reveal_strlit("");
                }
            }
        } else {
            let (x, wrote_formula) = render_xlsx_cell_with_attrs(addr.as_str(), c, oks[j], ex_attrs, prefix)?;
            keyed_put(rendered, col, x);
            changed = true;
            if ex_formula {
                stats.formula_invalidated = true;
            }
            if ex.is_none() {
                stats.created = stats.created + 1;
            }
            if wrote_formula {
                stats.formula_count = stats.formula_count + 1;
                stats.formula_seen = true;
            }
            stats.updated = stats.updated + 1;
        }
        j = j + 1;
    }
    Ok(changed)
}

/// Whether some cell of the matrix is null.
pub open spec fn matrix_has_null(rows: Seq<Vec<XlsxMatrixCell>>) -> bool {
    exists|k: int, j: int| 0 <= k < rows.len() && 0 <= j < rows[k]@.len() && (#[trigger] rows[k]@[j]).null
}

/// `set_xlsx_range_in_sheet_xml`: writes a matrix of values over a range of
/// a worksheet (from its top-left corner), refusing a range that meets
/// merged cells, and updates the dimension. `number_ok` holds, for each
/// cell, whether its trimmed value reads as a finite floating-point number.
/// The null policy (`skip`, `clear` or `empty-string`) is only read for
/// null cells, and must be one of those when the matrix holds one.
#[verifier::rlimit(40)]
pub fn set_xlsx_range_in_sheet_xml(
    xml: &str,
    bounds: RangeBounds,
    rows: &Vec<Vec<XlsxMatrixCell>>,
    number_ok: &Vec<Vec<bool>>,
    null_policy: &str,
    overwrite_formulas: bool,
) -> (r: CliResult<(String, XlsxRangeSetStats)>)
    requires
        null_policy_ok(null_policy@) || !matrix_has_null(rows@),
        matrix_fits(rows@, number_ok@, bounds),
    ensures
        match set_range_spec(xml@, bounds, rows@, number_ok@, null_policy@, overwrite_formulas) {
            Err(k) => r is Err && r->Err_0.kind == k,
            Ok(v) => r is Ok && r->Ok_0.0@ == v.0 && stats_view(r->Ok_0.1) == v.1,
        },
{
    reject_xlsx_merged_cell_intersection(xml, bounds)?;
    let sd = xlsx_sheet_data_span(xml)?;
    let existing = parse_xlsx_row_spans(xml, sd)?;
    let prefix = match find_xlsx_element_start(xml, "sheetData") {
        Some((_, p)) => p,
        None => match find_xlsx_element_start(xml, "worksheet") {
            Some((_, p)) => p,
            None => String::new(),
        },
    };
    let pw = trim_lower(null_policy);
    let lo_row = bounds.min_row();
    let lo_col = bounds.min_col();
    let ghost rv = rows_view(existing@);
    proof {
        assert(sheet_data_span_spec(xml@) == Ok::<Option<(int, int, int, int, bool)>, ErrorKind>(opt_span_view(sd)));
    }
    let mut stats = XlsxRangeSetStats {
        updated: 0,
        created: 0,
        cleared: 0,
        skipped: 0,
        formula_count: 0,
        formula_seen: false,
        formula_invalidated: false,
    };
    let mut changed_rows: Vec<(u32, String)> = Vec::new();
    proof {
        assert(keyed_view(changed_rows@) =~= Seq::<(u32, Seq<char>)>::empty());
        assert(stats_view(stats) == zero_stats());
    }
    let mut k: usize = 0;
    while k < rows.len()
        invariant
            0 <= k <= rows.len(),
            rv == rows_view(existing@),
            matrix_fits(rows@, number_ok@, bounds),
            lo_row == bounds.lo_row(),
            lo_col == bounds.lo_col(),
            merge_check_spec(xml@, bounds) is Ok,
            sheet_data_span_spec(xml@) == Ok::<Option<(int, int, int, int, bool)>, ErrorKind>(opt_span_view(sd)),
            row_spans_spec(xml@, opt_span_view(sd)) == Ok::<Seq<RowView>, ErrorKind>(rv),
            sheet_prefix_spec(xml@) == prefix@,
            pw@ == ascii_lower_seq(trim(null_policy@)),
            stats_bounded(stats_view(stats), cells_total(rows@, k as int)),
            set_rows(rv, rows@, number_ok@, lo_row, lo_col, 0, Seq::empty(), zero_stats(), pw@, overwrite_formulas, prefix@)
                == set_rows(rv, rows@, number_ok@, lo_row, lo_col, k as int, keyed_view(changed_rows@), stats_view(stats), pw@, overwrite_formulas, prefix@),
        decreases rows.len() - k,
    {
        let row = lo_row + (k as u32);
        let ex = find_row(&existing, row);
        let mut rendered: Vec<(u32, String)> = match ex {
            Some(i) => crate::sheetxml::cells_to_keyed_pub(&existing[i].cells),
            None => Vec::new(),
        };
        proof {
            assert(number_ok@[k as int]@.len() == rows@[k as int]@.len());
            lemma_cells_total_mono(rows@, k + 1, rows@.len() as int);
            assert(cells_total(rows@, k + 1) == cells_total(rows@, k as int) + rows@[k as int]@.len());
            if ex is None {
                assert(keyed_view(rendered@) =~= Seq::<(u32, Seq<char>)>::empty());
            }
        }
        let ch = set_row_cells(
            &existing,
            ex,
            row,
            &rows[k],
            &number_ok[k],
            lo_col,
            &mut rendered,
            &mut stats,
            &pw,
            overwrite_formulas,
            prefix.as_str(),
            Ghost(cells_total(rows@, k as int)),
        )?;
        if ch {
            let ex_span: Option<&XlsxRowSpan> = match ex {
                Some(i) => Some(&existing[i]),
                None => None,
            };
            let x = render_xlsx_row_with_prefix(row, ex_span, &rendered, prefix.as_str());
            keyed_put(&mut changed_rows, row, x);
        }
        k = k + 1;
    }
    let updated = rebuild_xlsx_sheet_data(xml, sd, &existing, &changed_rows)?;
    let used = xlsx_used_range_from_cell_refs(updated.as_str());
    let out = match used {
        Some(u) => replace_xlsx_dimension(updated.as_str(), Some(u.as_str())),
        None => replace_xlsx_dimension(updated.as_str(), None),
    };
    Ok((out, stats))
}


/// The kind and text `cells set` writes from its `--value`, `--formula` and
/// `--type` flags, or `None` when they are refused. `number_ok` says whether
/// the trimmed value reads as a finite floating-point number.
pub open spec fn cells_set_value_spec(value: Option<&str>, formula: Option<&str>, value_type: Option<&str>, number_ok: bool) -> Option<
    (Seq<char>, Seq<char>),
> {
    let vt = value_type_spec(
        match value_type {
            Some(t) => t@,
            None => "string"@,
        },
    );
    if formula is Some && value is Some {
        None
    } else if vt is None {
        None
    } else {
        match formula {
            Some(f) => if trim(f@).len() == 0 {
                None
            } else {
                match normalize_spec("formula"@, f@, f@, number_ok) {
                    Some(n) => Some(("formula"@, n.1)),
                    None => None,
                }
            },
            None => match value {
                None => None,
                Some(v) => if v@.len() == 0 {
                    None
                } else {
                    normalize_spec(
                        vt.unwrap(),
                        v@,
                        if vt.unwrap() == "formula"@ {
                            v@
                        } else {
                            Seq::empty()
                        },
                        number_ok,
                    )
                },
            },
        }
    }
}

/// `resolve_xlsx_cells_set_value`: the kind and text `cells set` writes.
pub fn resolve_xlsx_cells_set_value(value: Option<&str>, formula: Option<&str>, value_type: Option<&str>, number_ok: bool) -> (r:
    CliResult<(String, String)>)
    ensures
        match cells_set_value_spec(value, formula, value_type, number_ok) {
            Some(v) => r is Ok && (r->Ok_0.0@, r->Ok_0.1@) == v,
            None => r is Err && r->Err_0.kind == ErrorKind::InvalidArgs,
        },
{
    proof {
        reveal_strlit("");
    }
    if formula.is_some() && value.is_some() {
        return Err(CliError::invalid_args(to_string("cannot specify both --value and --formula")));
    }
    let vt = match value_type {
        Some(t) => normalize_xlsx_cell_value_type(t)?,
        None => normalize_xlsx_cell_value_type("string")?,
    };
    if let Some(f) = formula {
        if trim_chars(f).len() == 0 {
            return Err(CliError::invalid_args(to_string("--formula cannot be empty")));
        }
        let cell = XlsxMatrixCell { kind: to_string("formula"), value: to_string(f), formula: to_string(f), null: false };
        let (_, normalized) = normalize_xlsx_write_cell(&cell, number_ok)?;
        return Ok((to_string("formula"), normalized));
    }
    let v = match value {
        Some(v) => v,
        None => {
            return Err(CliError::invalid_args(to_string("must specify --value or --formula")));
        },
    };
    if str_chars(v).len() == 0 {
        return Err(CliError::invalid_args(to_string("--value cannot be empty; use xlsx cells clear")));
    }
    let is_formula = chars_eq_str(&str_chars(vt.as_str()), "formula");
    let cell = XlsxMatrixCell {
        kind: vt,
        value: to_string(v),
        formula: if is_formula {
            to_string(v)
        } else {
            String::new()
        },
        null: false,
    };
    normalize_xlsx_write_cell(&cell, number_ok)
}

} // verus!
