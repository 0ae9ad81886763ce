//! Frozen panes of a worksheet: reading the `pane` of the first sheet view,
//! writing one, and removing it.
use vstd::prelude::*;
use crate::cellref::{cell_text, col_name, column_letters, lemma_cell_text_roundtrip, cell_ref_spec};
use crate::elements::{
    attr_lookup, attr_get, child_named, child_spans, direct_child_range, direct_child_ranges,
    element_name, element_name_spec, first_attrs_spec, first_element_attrs, first_with_kind,
    fragment_bounds_spec, lemma_first_with_kind, open_tag_spec, prefix_of, render_attrs_spec,
    render_xml_attrs, xml_fragment_bounds, xml_open_tag_from_start, xml_tag_prefix,
    close_tag_chars,
};
use crate::error::{CliError, CliResult, ErrorKind};
use crate::orders::{
    sheet_view_child_order, sheet_view_child_order_spec, worksheet_child_order,
    worksheet_child_order_spec,
};
use crate::sheets::{sheet_id_selector, WorkbookSheet, freeze_sheet_selector};
use crate::text::{
    concat2, concat3, concat4, concat5, decimal_int, find_from, has_suffix, i64_to_string,
    parse_i64, parse_i64_spec, replace_all, replace_str, slice_vec, str_chars, string_from_chars,
    to_string, trim, trim_chars, trim_end, lemma_parse_decimal_i64,
};
use crate::xml::{
    close_tag_of, insert_text, remove_xml_span, replace_xml_span, rfind_seq, root_bounds_spec,
    root_bounds_valid, root_view, span_of, spans_of, spans_ordered, splice, vec_rfind,
    lemma_rfind_from, matches_at, xlsx_worksheet_root_bounds, XlsxWorksheetRootBounds,
    XmlNamedRange,
};

verus! {

/// The frozen panes of a sheet view: how many rows and columns are frozen and
/// the first cell of the scrolling pane.
#[derive(Debug)]
pub struct XlsxFreezeState {
    pub rows: i64,
    pub cols: i64,
    pub top_left_cell: String,
    pub frozen: bool,
}

pub open spec fn freeze_view(s: XlsxFreezeState) -> (i64, i64, Seq<char>, bool) {
    (s.rows, s.cols, s.top_left_cell@, s.frozen)
}

// ---------------------------------------------------------------------------
// The top-left cell of the scrolling pane
// ---------------------------------------------------------------------------

/// The first cell below and right of `rows` frozen rows and `cols` frozen
/// columns (the additions wrap, and the column is taken as a `u32`).
pub open spec fn top_left_spec(rows: i64, cols: i64) -> Seq<char> {
    column_letters(cols.wrapping_add(1) as u32 as nat) + decimal_int(rows.wrapping_add(1) as int)
}

/// `freeze_top_left_cell`: the first cell of the scrolling pane.
pub fn freeze_top_left_cell(rows: i64, cols: i64) -> (r: String)
    ensures
        r@ == top_left_spec(rows, cols),
{
    let c = cols.wrapping_add(1) as u32;
    let name = col_name(c);
    let rs = i64_to_string(rows.wrapping_add(1));
    concat2(name.as_str(), rs.as_str())
}

/// For a freeze within the sheet's limits, the top-left cell is the cell at
/// column `cols + 1` and row `rows + 1`, and reading it back gives them.
pub proof fn lemma_freeze_top_left_cell(rows: i64, cols: i64)
    requires
        0 <= rows < 1048576,
        0 <= cols < 16384,
    ensures
        top_left_spec(rows, cols) == cell_text((cols + 1) as u32, (rows + 1) as u32),
        cell_ref_spec(top_left_spec(rows, cols)) == Some(((cols + 1) as u32, (rows + 1) as u32)),
{
    assert(cols.wrapping_add(1) == cols + 1);
    assert(rows.wrapping_add(1) == rows + 1);
    lemma_cell_text_roundtrip((cols + 1) as u32, (rows + 1) as u32);
}

// ---------------------------------------------------------------------------
// State from attributes
// ---------------------------------------------------------------------------

/// An attribute read as an `i64`, 0 when absent or not a number.
pub open spec fn i64_or_zero(v: Option<Seq<char>>) -> i64 {
    match v {
        Some(x) => match parse_i64_spec(x) {
            Some(n) => n,
            None => 0,
        },
        None => 0,
    }
}

/// The freeze state a `pane` element's attributes describe.
pub open spec fn state_from_attrs_spec(attrs: Seq<(Seq<char>, Seq<char>)>) -> (i64, i64, Seq<char>, bool) {
    let cols = i64_or_zero(attr_lookup(attrs, "xSplit"@));
    let rows = i64_or_zero(attr_lookup(attrs, "ySplit"@));
    let tlc = match attr_lookup(attrs, "topLeftCell"@) {
        Some(v) => if trim(v).len() > 0 {
            v
        } else {
            top_left_spec(rows, cols)
        },
        None => top_left_spec(rows, cols),
    };
    (rows, cols, tlc, true)
}

fn attr_i64_or_zero(attrs: &Vec<(String, String)>, key: &str) -> (r: i64)
    ensures
        r == i64_or_zero(attr_lookup(attrs.deep_view(), key@)),
{
    match attr_get(attrs, key) {
        Some(v) => match parse_i64(v.as_str()) {
            Some(n) => n,
            None => 0,
        },
        None => 0,
    }
}

/// `freeze_state_from_attrs`: the freeze state of a `pane` element.
pub fn freeze_state_from_attrs(attrs: &Vec<(String, String)>) -> (r: XlsxFreezeState)
    ensures
        freeze_view(r) == state_from_attrs_spec(attrs.deep_view()),
{
    let cols = attr_i64_or_zero(attrs, "xSplit");
    let rows = attr_i64_or_zero(attrs, "ySplit");
    let top_left_cell = match attr_get(attrs, "topLeftCell") {
        Some(v) => {
            let t = trim_chars(v.as_str());
            if t.len() > 0 {
                v
            } else {
                freeze_top_left_cell(rows, cols)
            }
        },
        None => freeze_top_left_cell(rows, cols),
    };
    XlsxFreezeState { rows, cols, top_left_cell, frozen: true }
}

// ---------------------------------------------------------------------------
// Rendering a pane
// ---------------------------------------------------------------------------

/// The attributes of a frozen pane, in name order.
pub open spec fn pane_attrs(rows: i64, cols: i64, tlc: Seq<char>) -> Seq<(Seq<char>, Seq<char>)> {
    seq![("state"@, "frozen"@), ("topLeftCell"@, tlc)] + (if cols > 0 {
        seq![("xSplit"@, decimal_int(cols as int))]
    } else {
        Seq::empty()
    }) + (if rows > 0 {
        seq![("ySplit"@, decimal_int(rows as int))]
    } else {
        Seq::empty()
    })
}

proof fn lemma_pane_keys_differ()
    ensures
        "xSplit"@ != "ySplit"@,
        "xSplit"@ != "state"@,
        "xSplit"@ != "topLeftCell"@,
        "ySplit"@ != "state"@,
        "ySplit"@ != "topLeftCell"@,
        "topLeftCell"@ != "state"@,
{
    reveal_strlit("xSplit");
    reveal_strlit("ySplit");
    reveal_strlit("state");
    reveal_strlit("topLeftCell");
    assert("xSplit"@[0] == 'x' && "ySplit"@[0] == 'y');
    assert("xSplit"@.len() == 6 && "ySplit"@.len() == 6 && "state"@.len() == 5 && "topLeftCell"@.len() == 11);
}

/// A rendered pane reads back as the state it froze: `xSplit` carries the
/// frozen columns and `ySplit` the frozen rows, each present only when not
/// zero, and reading the attributes back gives the same rows, columns and
/// top-left cell.
pub proof fn lemma_pane_reads_back(rows: i64, cols: i64, tlc: Seq<char>)
    requires
        rows >= 0,
        cols >= 0,
        trim(tlc).len() > 0,
    ensures
        attr_lookup(pane_attrs(rows, cols, tlc), "xSplit"@) == (if cols > 0 {
            Some(decimal_int(cols as int))
        } else {
            None::<Seq<char>>
        }),
        attr_lookup(pane_attrs(rows, cols, tlc), "ySplit"@) == (if rows > 0 {
            Some(decimal_int(rows as int))
        } else {
            None::<Seq<char>>
        }),
        state_from_attrs_spec(pane_attrs(rows, cols, tlc)) == (rows, cols, tlc, true),
{
    lemma_pane_keys_differ();
    lemma_parse_decimal_i64(rows);
    lemma_parse_decimal_i64(cols);
    reveal_with_fuel(attr_lookup, 5);
    let a = pane_attrs(rows, cols, tlc);
    let base = seq![("state"@, "frozen"@), ("topLeftCell"@, tlc)];
    if cols > 0 && rows > 0 {
        assert(a =~= base.push(("xSplit"@, decimal_int(cols as int))).push(("ySplit"@, decimal_int(rows as int))));
    } else if cols > 0 {
        assert(a =~= base.push(("xSplit"@, decimal_int(cols as int))));
    } else if rows > 0 {
        assert(a =~= base.push(("ySplit"@, decimal_int(rows as int))));
    } else {
        assert(a =~= base);
    }
}

/// The `pane` element of a freeze state.
pub open spec fn render_pane_spec(prefix: Seq<char>, rows: i64, cols: i64, tlc: Seq<char>) -> Seq<char> {
    replace_all(
        seq!['<'] + element_name_spec(prefix, "pane"@) + render_attrs_spec(pane_attrs(rows, cols, tlc))
            + " />"@,
        " />"@,
        "/>"@,
    )
}

fn pair(a: &str, b: &str) -> (r: (String, String))
    ensures
        r.0@ == a@,
        r.1@ == b@,
{
    (to_string(a), to_string(b))
}

/// `render_freeze_pane`: the `pane` element that freezes a state.
pub fn render_freeze_pane(prefix: &str, state: &XlsxFreezeState) -> (r: String)
    ensures
        r@ == render_pane_spec(prefix@, state.rows, state.cols, state.top_left_cell@),
{
    let mut attrs: Vec<(String, String)> = Vec::new();
    attrs.push(pair("state", "frozen"));
    attrs.push(pair("topLeftCell", state.top_left_cell.as_str()));
    if state.cols > 0 {
        let c = i64_to_string(state.cols);
        attrs.push(pair("xSplit", c.as_str()));
    }
    if state.rows > 0 {
        let rr = i64_to_string(state.rows);
        attrs.push(pair("ySplit", rr.as_str()));
    }
    proof {
        assert(attrs.deep_view() =~= pane_attrs(state.rows, state.cols, state.top_left_cell@));
    }
    let name = element_name(prefix, "pane");
    let rendered = render_xml_attrs(&attrs);
    let text = concat4("<", name.as_str(), rendered.as_str(), " />");
    proof {
        reveal_strlit(" />");
        reveal_strlit("<");
        assert(text@ =~= seq!['<'] + element_name_spec(prefix@, "pane"@) + render_attrs_spec(
            pane_attrs(state.rows, state.cols, state.top_left_cell@),
        ) + " />"@);
    }
    replace_str(text.as_str(), " />", "/>")
}


// ---------------------------------------------------------------------------
// Finding the pane
// ---------------------------------------------------------------------------

/// The first child named `kind` of the element a fragment starts with; none
/// when that element is empty. `Err` when the fragment cannot be read.
pub open spec fn fragment_child(frag: Seq<char>, kind: Seq<char>) -> Result<Option<(int, int, Seq<char>)>, ()> {
    match fragment_bounds_spec(frag) {
        None => Err(()),
        Some(b) => if b.3 {
            Ok(None)
        } else {
            match child_named(frag, b.0 + 1, b.2, kind) {
                None => Err(()),
                Some(x) => Ok(x),
            }
        },
    }
}

fn fragment_child_range(frag: &str, kind: &str) -> (r: CliResult<Option<XmlNamedRange>>)
    ensures
        r is Ok <==> fragment_child(frag@, kind@) is Ok,
        r is Ok ==> match r->Ok_0 {
            None => fragment_child(frag@, kind@)->Ok_0 is None,
            Some(x) => fragment_child(frag@, kind@)->Ok_0 == Some(span_of(x)) && x.start <= x.end
                <= frag@.len(),
        },
        r is Err ==> r->Err_0.kind == ErrorKind::Unexpected,
{
    let (open_end, _name, close_start, self_closing) = xml_fragment_bounds(frag)?;
    if self_closing {
        return Ok(None);
    }
    direct_child_range(frag, open_end + 1, close_start, kind)
}

/// The `pane` of the first `sheetView` of the `sheetViews` of a worksheet, as
/// a span of the worksheet text.
pub open spec fn pane_range_spec(xml: Seq<char>) -> Result<Option<(int, int, Seq<char>)>, ()> {
    match root_bounds_spec(xml, true) {
        None => Err(()),
        Some(root) => match child_named(xml, root.1, root.2, "sheetViews"@) {
            None => Err(()),
            Some(None) => Ok(None),
            Some(Some(sv)) => {
                let f1 = xml.subrange(sv.0, sv.1);
                match fragment_child(f1, "sheetView"@) {
                    Err(_) => Err(()),
                    Ok(None) => Ok(None),
                    Ok(Some(v)) => {
                        let f2 = f1.subrange(v.0, v.1);
                        match fragment_child(f2, "pane"@) {
                            Err(_) => Err(()),
                            Ok(None) => Ok(None),
                            Ok(Some(p)) => Ok(Some((sv.0 + v.0 + p.0, sv.0 + v.0 + p.1, p.2))),
                        }
                    },
                }
            },
        },
    }
}

fn sub_str(s: &str, a: usize, b: usize) -> (r: String)
    requires
        a <= b <= s@.len(),
    ensures
        r@ == s@.subrange(a as int, b as int),
{
    let v = str_chars(s);
    let w = slice_vec(&v, a, b);
    string_from_chars(w.as_slice())
}

/// `find_freeze_pane_range`: where the worksheet's frozen-pane element lies.
pub fn find_freeze_pane_range(xml: &str) -> (r: CliResult<Option<XmlNamedRange>>)
    ensures
        r is Ok <==> pane_range_spec(xml@) is Ok,
        r is Ok ==> match r->Ok_0 {
            None => pane_range_spec(xml@)->Ok_0 is None,
            Some(x) => pane_range_spec(xml@)->Ok_0 == Some(span_of(x)) && x.start <= x.end
                <= xml@.len(),
        },
        r is Err ==> r->Err_0.kind == ErrorKind::Unexpected,
{
    let root = xlsx_worksheet_root_bounds(xml)?;
    let sv = match direct_child_range(xml, root.open_end, root.close_start, "sheetViews")? {
        None => {
            return Ok(None);
        },
        Some(x) => x,
    };
    let f1 = sub_str(xml, sv.start, sv.end);
    let v = match fragment_child_range(f1.as_str(), "sheetView")? {
        None => {
            return Ok(None);
        },
        Some(x) => x,
    };
    let f2 = sub_str(f1.as_str(), v.start, v.end);
    let p = match fragment_child_range(f2.as_str(), "pane")? {
        None => {
            return Ok(None);
        },
        Some(x) => x,
    };
    Ok(Some(XmlNamedRange { start: sv.start + v.start + p.start, end: sv.start + v.start + p.end, kind: p.kind }))
}

/// The freeze state of a worksheet: `None` without a pane in the `frozen` state.
pub open spec fn read_state_spec(xml: Seq<char>) -> Result<Option<(i64, i64, Seq<char>, bool)>, ()> {
    match pane_range_spec(xml) {
        Err(_) => Err(()),
        Ok(None) => Ok(None),
        Ok(Some(p)) => match first_attrs_spec(xml.subrange(p.0, p.1)) {
            None => Err(()),
            Some(a) => if attr_lookup(a, "state"@) == Some("frozen"@) {
                Ok(Some(state_from_attrs_spec(a)))
            } else {
                Ok(None)
            },
        },
    }
}

fn pane_attrs_of(xml: &str, pane: &XmlNamedRange) -> (r: CliResult<Vec<(String, String)>>)
    requires
        pane.start <= pane.end <= xml@.len(),
    ensures
        r is Ok <==> first_attrs_spec(xml@.subrange(pane.start as int, pane.end as int)) is Some,
        r is Ok ==> r->Ok_0.deep_view() == first_attrs_spec(
            xml@.subrange(pane.start as int, pane.end as int),
        ).unwrap(),
        r is Err ==> r->Err_0.kind == ErrorKind::Unexpected,
{
    let frag = sub_str(xml, pane.start, pane.end);
    first_element_attrs(frag.as_str())
}

fn is_frozen(attrs: &Vec<(String, String)>) -> (r: bool)
    ensures
        r == (attr_lookup(attrs.deep_view(), "state"@) == Some("frozen"@)),
{
    match attr_get(attrs, "state") {
        Some(v) => crate::text::str_eq(v.as_str(), "frozen"),
        None => false,
    }
}

/// `read_freeze_state`: the worksheet's frozen panes, if any.
pub fn read_freeze_state(xml: &str) -> (r: CliResult<Option<XlsxFreezeState>>)
    ensures
        r is Ok <==> read_state_spec(xml@) is Ok,
        r is Ok ==> match r->Ok_0 {
            None => read_state_spec(xml@)->Ok_0 is None,
            Some(s) => read_state_spec(xml@)->Ok_0 == Some(freeze_view(s)),
        },
        r is Err ==> r->Err_0.kind == ErrorKind::Unexpected,
{
    let pane = match find_freeze_pane_range(xml)? {
        None => {
            return Ok(None);
        },
        Some(p) => p,
    };
    let attrs = pane_attrs_of(xml, &pane)?;
    if !is_frozen(&attrs) {
        return Ok(None);
    }
    Ok(Some(freeze_state_from_attrs(&attrs)))
}

/// What removing the frozen panes does: the text without the pane, or the
/// kind of the error.
pub open spec fn clear_spec(xml: Seq<char>) -> Result<Seq<char>, ErrorKind> {
    match pane_range_spec(xml) {
        Err(_) => Err(ErrorKind::Unexpected),
        Ok(None) => Err(ErrorKind::InvalidArgs),
        Ok(Some(p)) => match first_attrs_spec(xml.subrange(p.0, p.1)) {
            None => Err(ErrorKind::Unexpected),
            Some(a) => if attr_lookup(a, "state"@) == Some("frozen"@) {
                Ok(splice(xml, p.0, p.1, Seq::empty()))
            } else {
                Err(ErrorKind::InvalidArgs)
            },
        },
    }
}

/// Clearing the panes agrees with reading them: it refuses as invalid
/// exactly a worksheet that reads as not frozen, fails as unexpected exactly
/// where the reading fails, and otherwise removes the pane the reading found.
pub proof fn lemma_clear_matches_read(xml: Seq<char>)
    ensures
        clear_spec(xml) == Err::<Seq<char>, ErrorKind>(ErrorKind::InvalidArgs) <==> read_state_spec(xml) == Ok::<
            Option<(i64, i64, Seq<char>, bool)>,
            (),
        >(None),
        clear_spec(xml) == Err::<Seq<char>, ErrorKind>(ErrorKind::Unexpected) <==> read_state_spec(xml) is Err,
        clear_spec(xml) is Ok <==> read_state_spec(xml) matches Ok(Some(_)),
        clear_spec(xml) is Ok ==> clear_spec(xml)->Ok_0 == splice(
            xml,
            pane_range_spec(xml)->Ok_0->Some_0.0,
            pane_range_spec(xml)->Ok_0->Some_0.1,
            Seq::empty(),
        ),
{
}

/// `clear_freeze`: the worksheet without its frozen pane; an error when it
/// has none.
pub fn clear_freeze(xml: &str) -> (r: CliResult<(String, Option<XlsxFreezeState>)>)
    ensures
        r is Ok <==> clear_spec(xml@) is Ok,
        r is Ok ==> r->Ok_0.0@ == clear_spec(xml@)->Ok_0 && r->Ok_0.1 is None,
        r is Err ==> clear_spec(xml@) == Err::<Seq<char>, ErrorKind>(r->Err_0.kind),
        r is Err && r->Err_0.kind == ErrorKind::InvalidArgs ==> r->Err_0.message@
            == "worksheet has no frozen pane"@,
{
    let pane = match find_freeze_pane_range(xml)? {
        None => {
            return Err(CliError::invalid_args(to_string("worksheet has no frozen pane")));
        },
        Some(p) => p,
    };
    let attrs = pane_attrs_of(xml, &pane)?;
    if !is_frozen(&attrs) {
        return Err(CliError::invalid_args(to_string("worksheet has no frozen pane")));
    }
    Ok((remove_xml_span(xml, pane.start, pane.end), None))
}

/// The outcome of checking an expected freeze state (`none` or `frozen`).
pub open spec fn guard_spec(xml: Seq<char>, has_expect: bool, expect: Option<Seq<char>>) -> Result<(), ErrorKind> {
    if !has_expect {
        Ok(())
    } else {
        let e = trim(match expect {
            Some(x) => x,
            None => Seq::empty(),
        });
        if e != "none"@ && e != "frozen"@ {
            Err(ErrorKind::InvalidArgs)
        } else {
            match read_state_spec(xml) {
                Err(_) => Err(ErrorKind::Unexpected),
                Ok(s) => {
                    let current = if s is Some {
                        "frozen"@
                    } else {
                        "none"@
                    };
                    if current != e {
                        Err(ErrorKind::InvalidArgs)
                    } else {
                        Ok(())
                    }
                },
            }
        }
    }
}

/// The message of an invalid-arguments outcome of [`guard_spec`]: an
/// expected state other than `none` or `frozen`, or a state that differs,
/// each value quoted as `{:?}` writes it.
pub open spec fn guard_message(xml: Seq<char>, expect: Option<Seq<char>>) -> Seq<char> {
    let e = trim(match expect {
        Some(x) => x,
        None => Seq::empty(),
    });
    if e != "none"@ && e != "frozen"@ {
        "invalid --expect-state "@ + crate::text::str_debug_text(e) + " (use none|frozen)"@
    } else {
        let current = if read_state_spec(xml) matches Ok(Some(_)) {
            "frozen"@
        } else {
            "none"@
        };
        "freeze state mismatch: expected "@ + crate::text::str_debug_text(e) + ", found "@
            + crate::text::str_debug_text(current)
    }
}

pub open spec fn opt_str_view(o: Option<&str>) -> Option<Seq<char>> {
    match o {
        Some(s) => Some(s@),
        None => None,
    }
}

/// `guard_expect_state`: with an expected state given, it must be `none` or
/// `frozen` and match the worksheet.
pub fn guard_expect_state(xml: &str, has_expect: bool, expect: Option<&str>) -> (r: CliResult<()>)
    ensures
        r is Ok <==> guard_spec(xml@, has_expect, opt_str_view(expect)) is Ok,
        r is Err ==> guard_spec(xml@, has_expect, opt_str_view(expect)) == Err::<(), ErrorKind>(
            r->Err_0.kind,
        ),
        r is Err && r->Err_0.kind == ErrorKind::InvalidArgs ==> r->Err_0.message@ == guard_message(
            xml@,
            opt_str_view(expect),
        ),
{
    if !has_expect {
        return Ok(());
    }
    let e = match expect {
        Some(x) => trim_string_of(x),
        None => {
            let s = String::new();
            proof {
                assert(s@ =~= trim(Seq::<char>::empty()));
            }
            s
        },
    };
    let is_none = crate::text::str_eq(e.as_str(), "none");
    let is_frozen_word = crate::text::str_eq(e.as_str(), "frozen");
    if !is_none && !is_frozen_word {
        let q = crate::text::debug_quoted(e.as_str());
        return Err(CliError::invalid_args(concat3("invalid --expect-state ", q.as_str(), " (use none|frozen)")));
    }
    let state = read_freeze_state(xml)?;
    let current = if state.is_some() {
        "frozen"
    } else {
        "none"
    };
    if !crate::text::str_eq(current, e.as_str()) {
        let qe = crate::text::debug_quoted(e.as_str());
        let qc = crate::text::debug_quoted(current);
        return Err(CliError::invalid_args(concat4("freeze state mismatch: expected ", qe.as_str(), ", found ", qc.as_str())));
    }
    Ok(())
}

fn trim_string_of(x: &str) -> (r: String)
    ensures
        r@ == trim(x@),
{
    crate::text::trim_string(x)
}


// ---------------------------------------------------------------------------
// Writing the pane
// ---------------------------------------------------------------------------

/// The attribute every written sheet view carries.
pub open spec fn wvid_attr() -> Seq<char> {
    " workbookViewId=\"0\""@
}

/// A sheet view with `workbookViewId` added to its start tag when missing.
pub open spec fn ensure_wvid_spec(frag: Seq<char>) -> Result<Seq<char>, ()> {
    match first_attrs_spec(frag) {
        None => Err(()),
        Some(a) => if attr_lookup(a, "workbookViewId"@) is Some {
            Ok(frag)
        } else {
            let oe = find_from(frag, '>', 0);
            if oe == -1 {
                Err(())
            } else if has_suffix(trim_end(frag.subrange(0, oe + 1)), "/>"@) {
                let sl = rfind_seq(frag.subrange(0, oe), seq!['/']);
                if sl < 0 {
                    Err(())
                } else {
                    Ok(splice(frag, sl, sl, wvid_attr()))
                }
            } else {
                Ok(splice(frag, oe, oe, wvid_attr()))
            }
        },
    }
}

/// `ensure_workbook_view_id`: a sheet view whose start tag carries `workbookViewId`.
pub fn ensure_workbook_view_id(fragment: &str) -> (r: CliResult<String>)
    ensures
        r is Ok <==> ensure_wvid_spec(fragment@) is Ok,
        r is Ok ==> r->Ok_0@ == ensure_wvid_spec(fragment@)->Ok_0,
        r is Err ==> r->Err_0.kind == ErrorKind::Unexpected,
{
    let attrs = first_element_attrs(fragment)?;
    if attr_get(&attrs, "workbookViewId").is_some() {
        return Ok(to_string(fragment));
    }
    let v = str_chars(fragment);
    proof {
        crate::text::lemma_find_from(v@, '>', 0);
        reveal_strlit(" workbookViewId=\"0\"");
    }
    let oe = match crate::text::vec_find_char(&v, '>', 0) {
        None => {
            return Err(CliError::unexpected(to_string("invalid sheetView XML")));
        },
        Some(k) => k,
    };
    let head = slice_vec(&v, 0, oe + 1);
    let hb = crate::text::trim_end_len(&head);
    let trimmed = slice_vec(&head, 0, hb);
    let suffix = str_chars("/>");
    proof {
        reveal_strlit("/>");
    }
    if crate::text::vec_ends_with(&trimmed, &suffix) {
        let before = slice_vec(&v, 0, oe);
        let mut slash: Vec<char> = Vec::new();
        slash.push('/');
        match vec_rfind(&before, &slash) {
            None => Err(CliError::unexpected(to_string("invalid sheetView XML"))),
            Some(sl) => {
                proof {
                    lemma_rfind_from(before@, slash@, before@.len() - slash@.len());
                    assert(slash@ =~= seq!['/']);
                }
                Ok(crate::xml::insert_text(fragment, sl, " workbookViewId=\"0\""))
            },
        }
    } else {
        Ok(crate::xml::insert_text(fragment, oe, " workbookViewId=\"0\""))
    }
}

/// The index of the first span from `i` on whose name orders after `pane`
/// among a sheet view's children, or -1.
pub open spec fn first_after_pane(sp: Seq<(int, int, Seq<char>)>, i: int) -> int
    decreases sp.len() - i,
{
    if i < 0 || i >= sp.len() {
        -1
    } else if sheet_view_child_order_spec(sp[i].2) > 10 {
        i
    } else {
        first_after_pane(sp, i + 1)
    }
}

/// The index of the first span from `i` on whose name orders after `order`
/// among a worksheet's children, or -1.
pub open spec fn first_after_order(sp: Seq<(int, int, Seq<char>)>, order: i32, i: int) -> int
    decreases sp.len() - i,
{
    if i < 0 || i >= sp.len() {
        -1
    } else if worksheet_child_order_spec(sp[i].2) > order {
        i
    } else {
        first_after_order(sp, order, i + 1)
    }
}

/// A sheet view with the pane written into it: replacing its `pane`, or
/// inserted before the first child that the schema puts after it.
pub open spec fn view_with_pane_spec(frag: Seq<char>, pane: Seq<char>) -> Result<Seq<char>, ()> {
    match ensure_wvid_spec(frag) {
        Err(_) => Err(()),
        Ok(f) => match fragment_bounds_spec(f) {
            None => Err(()),
            Some(b) => if b.3 {
                Ok(open_tag_spec(f.subrange(0, b.0 + 1)) + pane + close_tag_of(b.1))
            } else {
                match child_spans(f, b.0 + 1, b.2) {
                    None => Err(()),
                    Some(sp) => {
                        let j = first_with_kind(sp, "pane"@, 0);
                        if j != -1 {
                            Ok(splice(f, sp[j].0, sp[j].1, pane))
                        } else {
                            let k = first_after_pane(sp, 0);
                            let at = if k == -1 {
                                b.2
                            } else {
                                sp[k].0
                            };
                            Ok(splice(f, at, at, pane))
                        }
                    },
                }
            },
        },
    }
}

fn close_tag_string(name: &str) -> (r: String)
    ensures
        r@ == close_tag_of(name@),
{
    let v = close_tag_chars(name);
    string_from_chars(v.as_slice())
}

/// `set_freeze_pane_in_sheet_view`: the sheet view with the pane written in.
pub fn set_freeze_pane_in_sheet_view(fragment: &str, pane_xml: &str) -> (r: CliResult<String>)
    ensures
        r is Ok <==> view_with_pane_spec(fragment@, pane_xml@) is Ok,
        r is Ok ==> r->Ok_0@ == view_with_pane_spec(fragment@, pane_xml@)->Ok_0,
        r is Err ==> r->Err_0.kind == ErrorKind::Unexpected,
{
    let f = ensure_workbook_view_id(fragment)?;
    let (open_end, tag_name, close_start, self_closing) = xml_fragment_bounds(f.as_str())?;
    if self_closing {
        let head = sub_str(f.as_str(), 0, open_end + 1);
        let start_tag = xml_open_tag_from_start(head.as_str());
        let close = close_tag_string(tag_name.as_str());
        return Ok(concat3(start_tag.as_str(), pane_xml, close.as_str()));
    }
    let children = direct_child_ranges(f.as_str(), open_end + 1, close_start)?;
    let ghost sp = spans_of(children@);
    match find_kind(&children, "pane") {
        Some(i) => {
            proof {
                assert(sp[i as int] == span_of(children@[i as int]));
                assert(open_end + 1 <= sp[i as int].0 <= sp[i as int].1 <= close_start);
            }
            return Ok(replace_xml_span(f.as_str(), children[i].start, children[i].end, pane_xml));
        },
        None => {},
    }
    let at = match find_after_pane(&children) {
        Some(k) => {
            proof {
                assert(sp[k as int] == span_of(children@[k as int]));
                assert(open_end + 1 <= sp[k as int].0 <= close_start);
            }
            children[k].start
        },
        None => close_start,
    };
    Ok(insert_text(f.as_str(), at, pane_xml))
}

fn find_kind(children: &Vec<XmlNamedRange>, kind: &str) -> (r: Option<usize>)
    ensures
        r is Some ==> r.unwrap() < children.len() && r.unwrap() as int == first_with_kind(spans_of(children@), kind@, 0),
        r is None ==> first_with_kind(spans_of(children@), kind@, 0) == -1,
{
    let ghost sp = spans_of(children@);
    let k = str_chars(kind);
    let mut i: usize = 0;
    while i < children.len()
        invariant
            0 <= i <= children.len(),
            sp == spans_of(children@),
            k@ == kind@,
            first_with_kind(sp, kind@, i as int) == first_with_kind(sp, kind@, 0),
        decreases children.len() - i,
    {
        proof {
            assert(sp[i as int] == span_of(children@[i as int]));
        }
        let c = str_chars(children[i].kind.as_str());
        if crate::text::vec_eq(&c, &k) {
            return Some(i);
        }
        i = i + 1;
    }
    None
}

fn find_after_pane(children: &Vec<XmlNamedRange>) -> (r: Option<usize>)
    ensures
        r is Some ==> r.unwrap() < children.len() && r.unwrap() as int == first_after_pane(spans_of(children@), 0),
        r is None ==> first_after_pane(spans_of(children@), 0) == -1,
{
    let ghost sp = spans_of(children@);
    let mut i: usize = 0;
    while i < children.len()
        invariant
            0 <= i <= children.len(),
            sp == spans_of(children@),
            first_after_pane(sp, i as int) == first_after_pane(sp, 0),
        decreases children.len() - i,
    {
        proof {
            assert(sp[i as int] == span_of(children@[i as int]));
        }
        if sheet_view_child_order(children[i].kind.as_str()) > 10 {
            return Some(i);
        }
        i = i + 1;
    }
    None
}

fn find_after_order(children: &Vec<XmlNamedRange>, order: i32) -> (r: Option<usize>)
    ensures
        r is Some ==> r.unwrap() < children.len() && r.unwrap() as int == first_after_order(spans_of(children@), order, 0),
        r is None ==> first_after_order(spans_of(children@), order, 0) == -1,
{
    let ghost sp = spans_of(children@);
    let mut i: usize = 0;
    while i < children.len()
        invariant
            0 <= i <= children.len(),
            sp == spans_of(children@),
            first_after_order(sp, order, i as int) == first_after_order(sp, order, 0),
        decreases children.len() - i,
    {
        proof {
            assert(sp[i as int] == span_of(children@[i as int]));
        }
        if worksheet_child_order(children[i].kind.as_str()) > order {
            return Some(i);
        }
        i = i + 1;
    }
    None
}


/// A new sheet view holding only the pane.
pub open spec fn new_view_spec(prefix: Seq<char>, pane: Seq<char>) -> Seq<char> {
    let v = element_name_spec(prefix, "sheetView"@);
    seq!['<'] + v + wvid_attr() + seq!['>'] + pane + close_tag_of(v)
}

fn new_view(prefix: &str, pane_xml: &str) -> (r: String)
    ensures
        r@ == new_view_spec(prefix@, pane_xml@),
{
    let v = element_name(prefix, "sheetView");
    let close = close_tag_string(v.as_str());
    let open = concat4("<", v.as_str(), " workbookViewId=\"0\"", ">");
    proof {
        reveal_strlit("<");
        reveal_strlit(">");
        reveal_strlit(" workbookViewId=\"0\"");
    }
    concat3(open.as_str(), pane_xml, close.as_str())
}

/// The `sheetViews` element with the pane written into its first sheet view,
/// or a new sheet view when it has none.
pub open spec fn views_with_pane_spec(frag: Seq<char>, prefix: Seq<char>, pane: Seq<char>) -> Result<Seq<char>, ()> {
    match fragment_bounds_spec(frag) {
        None => Err(()),
        Some(b) => if b.3 {
            Ok(open_tag_spec(frag.subrange(0, b.0 + 1)) + new_view_spec(prefix, pane) + close_tag_of(b.1))
        } else {
            match child_named(frag, b.0 + 1, b.2, "sheetView"@) {
                None => Err(()),
                Some(None) => Ok(splice(frag, b.2, b.2, new_view_spec(prefix, pane))),
                Some(Some(v)) => match view_with_pane_spec(frag.subrange(v.0, v.1), pane) {
                    Err(_) => Err(()),
                    Ok(u) => Ok(splice(frag, v.0, v.1, u)),
                },
            }
        },
    }
}

/// `set_freeze_pane_in_sheet_views`: the `sheetViews` element with the pane written in.
pub fn set_freeze_pane_in_sheet_views(fragment: &str, prefix: &str, pane_xml: &str) -> (r: CliResult<String>)
    ensures
        r is Ok <==> views_with_pane_spec(fragment@, prefix@, pane_xml@) is Ok,
        r is Ok ==> r->Ok_0@ == views_with_pane_spec(fragment@, prefix@, pane_xml@)->Ok_0,
        r is Err ==> r->Err_0.kind == ErrorKind::Unexpected,
{
    let (open_end, tag_name, close_start, self_closing) = xml_fragment_bounds(fragment)?;
    let nv = new_view(prefix, pane_xml);
    if self_closing {
        let head = sub_str(fragment, 0, open_end + 1);
        let start_tag = xml_open_tag_from_start(head.as_str());
        let close = close_tag_string(tag_name.as_str());
        return Ok(concat3(start_tag.as_str(), nv.as_str(), close.as_str()));
    }
    match direct_child_range(fragment, open_end + 1, close_start, "sheetView")? {
        None => Ok(insert_text(fragment, close_start, nv.as_str())),
        Some(v) => {
            let frag = sub_str(fragment, v.start, v.end);
            let updated = set_freeze_pane_in_sheet_view(frag.as_str(), pane_xml)?;
            Ok(replace_xml_span(fragment, v.start, v.end, updated.as_str()))
        },
    }
}

/// A worksheet with a new child element inserted where the schema orders it
/// (into an empty-element root, which then gets an end tag).
pub open spec fn insert_child_spec(
    xml: Seq<char>,
    root: (int, int, int, int, Seq<char>, bool),
    local: Seq<char>,
    child: Seq<char>,
) -> Result<Seq<char>, ()> {
    if root.5 {
        Ok(xml.subrange(0, root.0) + open_tag_spec(xml.subrange(root.0, root.1)) + child + close_tag_of(
            root.4,
        ) + xml.subrange(root.3, xml.len() as int))
    } else {
        match child_spans(xml, root.1, root.2) {
            None => Err(()),
            Some(sp) => {
                let k = first_after_order(sp, worksheet_child_order_spec(local), 0);
                let at = if k == -1 {
                    root.2
                } else {
                    sp[k].0
                };
                Ok(splice(xml, at, at, child))
            },
        }
    }
}

/// `insert_worksheet_child`: the worksheet with a child inserted in schema order.
pub fn insert_worksheet_child(
    xml: &str,
    root: &XlsxWorksheetRootBounds,
    local_name: &str,
    child_xml: &str,
) -> (r: CliResult<String>)
    requires
        root_bounds_valid(root_view(*root), xml@.len() as int),
    ensures
        r is Ok <==> insert_child_spec(xml@, root_view(*root), local_name@, child_xml@) is Ok,
        r is Ok ==> r->Ok_0@ == insert_child_spec(xml@, root_view(*root), local_name@, child_xml@)->Ok_0,
        r is Err ==> r->Err_0.kind == ErrorKind::Unexpected,
{
    if root.self_closing {
        let tag = sub_str(xml, root.start, root.open_end);
        let start_tag = xml_open_tag_from_start(tag.as_str());
        let before = sub_str(xml, 0, root.start);
        let after = sub_str(xml, root.end, xml.unicode_len());
        let close = close_tag_string(root.tag_name.as_str());
        return Ok(concat5(before.as_str(), start_tag.as_str(), child_xml, close.as_str(), after.as_str()));
    }
    let order = worksheet_child_order(local_name);
    let children = direct_child_ranges(xml, root.open_end, root.close_start)?;
    let ghost sp = spans_of(children@);
    let at = match find_after_order(&children, order) {
        Some(k) => {
            proof {
                assert(sp[k as int] == span_of(children@[k as int]));
                assert(root.open_end <= sp[k as int].0 <= root.close_start);
            }
            children[k].start
        },
        None => root.close_start,
    };
    Ok(insert_text(xml, at, child_xml))
}

/// A new `sheetViews` element holding one sheet view with the pane.
pub open spec fn new_views_spec(prefix: Seq<char>, pane: Seq<char>) -> Seq<char> {
    let vs = element_name_spec(prefix, "sheetViews"@);
    seq!['<'] + vs + seq!['>'] + new_view_spec(prefix, pane) + close_tag_of(vs)
}

/// A worksheet with the pane written into its first sheet view, creating the
/// `sheetViews` element when there is none.
pub open spec fn set_pane_spec(
    xml: Seq<char>,
    root: (int, int, int, int, Seq<char>, bool),
    prefix: Seq<char>,
    pane: Seq<char>,
) -> Result<Seq<char>, ()> {
    match child_named(xml, root.1, root.2, "sheetViews"@) {
        None => Err(()),
        Some(None) => insert_child_spec(xml, root, "sheetViews"@, new_views_spec(prefix, pane)),
        Some(Some(s)) => match views_with_pane_spec(xml.subrange(s.0, s.1), prefix, pane) {
            Err(_) => Err(()),
            Ok(u) => Ok(splice(xml, s.0, s.1, u)),
        },
    }
}

/// `set_freeze_pane`: the worksheet with the pane written into its first sheet view.
pub fn set_freeze_pane(xml: &str, root: &XlsxWorksheetRootBounds, prefix: &str, pane_xml: &str) -> (r:
    CliResult<String>)
    requires
        root_bounds_valid(root_view(*root), xml@.len() as int),
    ensures
        r is Ok <==> set_pane_spec(xml@, root_view(*root), prefix@, pane_xml@) is Ok,
        r is Ok ==> r->Ok_0@ == set_pane_spec(xml@, root_view(*root), prefix@, pane_xml@)->Ok_0,
        r is Err ==> r->Err_0.kind == ErrorKind::Unexpected,
{
    match direct_child_range(xml, root.open_end, root.close_start, "sheetViews")? {
        None => {
            let vs = element_name(prefix, "sheetViews");
            let nv = new_view(prefix, pane_xml);
            let close = close_tag_string(vs.as_str());
            let views = concat5("<", vs.as_str(), ">", nv.as_str(), close.as_str());
            proof {
                reveal_strlit("<");
                reveal_strlit(">");
                assert(views@ =~= new_views_spec(prefix@, pane_xml@));
            }
            insert_worksheet_child(xml, root, "sheetViews", views.as_str())
        },
        Some(s) => {
            let frag = sub_str(xml, s.start, s.end);
            let updated = set_freeze_pane_in_sheet_views(frag.as_str(), prefix, pane_xml)?;
            Ok(replace_xml_span(xml, s.start, s.end, updated.as_str()))
        },
    }
}

/// What freezing `rows` rows and `cols` columns does to a worksheet.
pub open spec fn apply_spec(xml: Seq<char>, rows: i64, cols: i64) -> Result<Seq<char>, ()> {
    match root_bounds_spec(xml, true) {
        None => Err(()),
        Some(root) => {
            let p = prefix_of(root.4);
            set_pane_spec(xml, root, p, render_pane_spec(p, rows, cols, top_left_spec(rows, cols)))
        },
    }
}

/// `apply_freeze`: the worksheet with `rows` rows and `cols` columns frozen,
/// and the state written.
pub fn apply_freeze(xml: &str, rows: i64, cols: i64) -> (r: CliResult<(String, Option<XlsxFreezeState>)>)
    ensures
        r is Ok <==> apply_spec(xml@, rows, cols) is Ok,
        r is Ok ==> r->Ok_0.0@ == apply_spec(xml@, rows, cols)->Ok_0,
        r is Ok ==> r->Ok_0.1 is Some && freeze_view(r->Ok_0.1.unwrap()) == (
            rows,
            cols,
            top_left_spec(rows, cols),
            true,
        ),
        r is Err ==> r->Err_0.kind == ErrorKind::Unexpected,
{
    let state = XlsxFreezeState { rows, cols, top_left_cell: freeze_top_left_cell(rows, cols), frozen: true };
    let root = xlsx_worksheet_root_bounds(xml)?;
    let prefix = xml_tag_prefix(root.tag_name.as_str());
    let pane_xml = render_freeze_pane(prefix.as_str(), &state);
    let updated = set_freeze_pane(xml, &root, prefix.as_str(), pane_xml.as_str())?;
    Ok((updated, Some(state)))
}


/// `map_freeze_error`: a freeze failure as an argument error naming the action.
pub fn map_freeze_error(action: &str, message: String) -> (r: CliError)
    ensures
        r.kind == ErrorKind::InvalidArgs,
        r.message@ == "failed to "@ + action@ + " freeze panes: "@ + message@,
{
    CliError::invalid_args(concat4("failed to ", action, " freeze panes: ", message.as_str()))
}

} // verus!
