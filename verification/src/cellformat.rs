//! Cell formats of a range: a cell format record written out, the number
//! format it names, and an existing cell given another format.
use vstd::prelude::*;
use crate::attrmap::{map_get, sorted_insert, AttrMap, Entries};
use crate::elements::render_attrs_spec;
use crate::error::{CliError, CliResult, ErrorKind};
use crate::mutation::{empty_cell_attrs, render_empty_xlsx_cell_with_attrs};
use crate::sheetxml::XlsxCellSpan;
use crate::style::{
    attr_u32_spec, collection_entries, collection_spec, default_xf_spec, default_xlsx_xf_entry, find_sig, first_sig,
    plan_view, render_style_element, render_style_spec, style_view, styles_view, RecordPlan, StyleElement,
};
use crate::cellref::{cell_text, col_name, RangeBounds};
use crate::rangeset::{cell_lookup, find_cell, find_row, opt_attrs, opt_row_view, row_lookup};
use crate::sheetxml::{
    cells_keyed, keyed_insert, keyed_put, keyed_view, opt_span_view, parse_xlsx_row_spans, rebuild_spec,
    rebuild_xlsx_sheet_data, render_xlsx_row, row_spans_spec, row_xml_spec, rows_view, sheet_data_span_spec,
    used_range_spec, xlsx_sheet_data_span, xlsx_used_range_from_cell_refs, CellView, Keyed, RowView, XlsxRowSpan,
};
use crate::mutation::{replace_dimension_spec, replace_xlsx_dimension};
use crate::cellstyle::{apply_style_spec, apply_xlsx_style_to_styles_xml_checked, CellStyleSpec};
use crate::styles::{content_span_ok, element_span_by_local_name, element_span_spec, ensure_defaults_spec, set_count_spec};
use crate::text::{
    concat3, decimal, find_from, has_suffix, parse_u32, str_chars, string_from_chars, to_string, trim_end,
    trim_end_len, u32_to_string, vec_find_char,
};

verus! {

/// `render_xlsx_xf`: a cell format record written out as an `xf` element.
pub fn render_xlsx_xf(xf: &StyleElement) -> (r: String)
    ensures
        r@ == render_style_spec("xf"@, style_view(*xf)),
{
    render_style_element("xf", xf)
}

/// `xlsx_xf_num_fmt_id`: the number format a cell format record names (0
/// when absent or not a number).
pub fn xlsx_xf_num_fmt_id(attrs: &AttrMap) -> (r: u32)
    ensures
        r == attr_u32_spec(attrs.view(), "numFmtId"@),
{
    match attrs.get("numFmtId") {
        Some(v) => match parse_u32(v.as_str()) {
            Some(n) => n,
            None => 0,
        },
        None => 0,
    }
}

/// The attributes of a cell given a style: its own, with `r` and `s` set.
pub open spec fn styled_attrs(attrs: Entries, addr: Seq<char>, style_index: u32) -> Entries {
    sorted_insert(sorted_insert(attrs, "r"@, addr), "s"@, decimal(style_index as nat))
}

/// An existing cell with a style: an empty cell stays empty; otherwise its
/// start tag is rewritten and its content kept.
pub open spec fn restyled_cell_spec(addr: Seq<char>, xml: Seq<char>, attrs: Entries, style_index: u32) -> Seq<char> {
    let a = styled_attrs(attrs, addr, style_index);
    let empty = seq!['<', 'c'] + render_attrs_spec(empty_cell_attrs(addr, Some(a))) + "/>"@;
    let p = find_from(xml, '>', 0);
    if has_suffix(trim_end(xml), "/>"@) {
        empty
    } else if p != -1 {
        "<c"@ + render_attrs_spec(a) + ">"@ + xml.subrange(p + 1, xml.len() as int)
    } else {
        empty
    }
}

/// `render_xlsx_existing_cell_with_style`: an existing cell with another
/// style index.
pub fn render_xlsx_existing_cell_with_style(addr: &str, cell: &XlsxCellSpan, style_index: u32) -> (r: String)
    ensures
        r@ == restyled_cell_spec(addr@, cell.xml@, cell.attrs.view(), style_index),
{
    let mut attrs = cell.attrs.clone_map();
    attrs.insert(to_string("r"), to_string(addr));
    attrs.insert(to_string("s"), u32_to_string(style_index));
    let v = str_chars(cell.xml.as_str());
    let n = trim_end_len(&v);
    let ghost t = v@.subrange(0, n as int);
    let ends = n >= 2 && v[n - 2] == '/' && v[n - 1] == '>';
    proof {
        reveal_strlit("/>");
        assert(t == trim_end(cell.xml@));
        if ends {
            assert(t.subrange(t.len() - 2, t.len() as int) =~= "/>"@);
        } else if t.len() >= 2 {
            if t.subrange(t.len() - 2, t.len() as int) == "/>"@ {
                assert(t.subrange(t.len() - 2, t.len() as int)[0] == t[t.len() - 2]);
                assert(t.subrange(t.len() - 2, t.len() as int)[1] == t[t.len() - 1]);
                assert("/>"@[0] == '/');
            }
        }
    }
    if ends {
        return render_empty_xlsx_cell_with_attrs(addr, Some(&attrs));
    }
    proof {
        crate::text::lemma_find_from(v@, '>', 0);
    }
    match vec_find_char(&v, '>', 0) {
        Some(p) => {
            let rest = crate::elements::vec_to_string_range(&v, p + 1, v.len());
            let rendered = crate::elements::render_xml_attrs(&attrs.entries);
            let out = concat3("<c", rendered.as_str(), ">");
            let r = crate::text::concat2(out.as_str(), rest.as_str());
            proof {
                assert(r@ =~= restyled_cell_spec(addr@, cell.xml@, cell.attrs.view(), style_index));
            }
            r
        },
        None => render_empty_xlsx_cell_with_attrs(addr, Some(&attrs)),
    }
}

// ---------------------------------------------------------------------------
// A cell format with a number format
// ---------------------------------------------------------------------------

/// An attribute given the value `0` when absent.
pub open spec fn default_attr(a: Entries, key: Seq<char>) -> Entries {
    if map_get(a, key) is Some {
        a
    } else {
        sorted_insert(a, key, "0"@)
    }
}

/// The attributes of a cell format built on another to name a number
/// format: font, fill, border and parent format default to `0`, and the
/// number format is set and applied.
pub open spec fn xf_candidate_attrs(a: Entries, id: u32) -> Entries {
    let a1 = default_attr(default_attr(default_attr(default_attr(a, "fontId"@), "fillId"@), "borderId"@), "xfId"@);
    sorted_insert(sorted_insert(a1, "numFmtId"@, decimal(id as nat)), "applyNumberFormat"@, "1"@)
}

/// The plan for a cell format with number format `id` built on the format at
/// `base_style` (the first when out of range, the default record when there
/// is none): the base itself when it already names `id`, an equal record,
/// or the styles part with the new record before the end of `cellXfs` and
/// the index it gets.
pub open spec fn cell_style_plan_spec(xml: Seq<char>, base_style: u32, id: u32) -> Result<Result<u32, (Seq<char>, u32)>, ErrorKind> {
    match collection_spec(xml, "cellXfs"@, "xf"@) {
        Err(_) => Err(ErrorKind::Unexpected),
        Ok(xfs) => {
            let bi: u32 = if base_style < xfs.len() { base_style } else { 0 };
            let base = if bi < xfs.len() { xfs[bi as int] } else { default_xf_spec() };
            if attr_u32_spec(base.1, "numFmtId"@) == id {
                Ok(Ok(bi))
            } else {
                let sig = render_style_spec("xf"@, ("xf"@, xf_candidate_attrs(base.1, id), base.2));
                let k = first_sig(xfs, "xf"@, sig, 0);
                if k != -1 {
                    Ok(Ok(k as u32))
                } else {
                    match element_span_spec(xml, "cellXfs"@) {
                        None => Err(ErrorKind::Unexpected),
                        Some(sp) => Ok(Err((crate::xml::splice(xml, sp.2, sp.2, sig), xfs.len() as u32))),
                    }
                }
            }
        },
    }
}

/// What `ensure_xlsx_cell_style` gives: the styles part, the format's index
/// and whether it was added; `None` where the running program reads an
/// inverted `cellXfs` content span (an empty-element `cellXfs`) and panics.
pub open spec fn cell_style_spec(xml0: Seq<char>, base_style: u32, id: u32) -> Option<Result<(Seq<char>, u32, bool), ErrorKind>> {
    let xml = ensure_defaults_spec(xml0);
    if !content_span_ok(xml, "cellXfs"@) {
        None
    } else {
        match cell_style_plan_spec(xml, base_style, id) {
            Err(e) => Some(Err(e)),
            Ok(Ok(k)) => Some(Ok((xml, k, false))),
            Ok(Err(p)) => if content_span_ok(p.0, "cellXfs"@) {
                Some(Ok((set_count_spec(p.0, "cellXfs"@, "xf"@), p.1, true)))
            } else {
                None
            },
        }
    }
}

pub(crate) fn default_attr_exec(attrs: &mut AttrMap, key: &str)
    ensures
        final(attrs).view() == default_attr(old(attrs).view(), key@),
{
    if attrs.get(key).is_none() {
        attrs.insert(to_string(key), to_string("0"));
        proof {
            reveal_strlit("0");
        }
    }
}

fn plan_cell_style(styles_xml: &str, base_style: u32, id: u32) -> (r: CliResult<RecordPlan>)
    ensures
        r is Ok <==> cell_style_plan_spec(styles_xml@, base_style, id) is Ok,
        r is Ok ==> plan_view(r->Ok_0) == cell_style_plan_spec(styles_xml@, base_style, id)->Ok_0,
        r is Err ==> cell_style_plan_spec(styles_xml@, base_style, id) == Err::<Result<u32, (Seq<char>, u32)>, ErrorKind>(r->Err_0.kind),
{
    let xfs = collection_entries(styles_xml, "cellXfs", "xf")?;
    let ghost xv = styles_view(xfs@);
    let bi: u32 = if (base_style as usize) < xfs.len() { base_style } else { 0 };
    let base = if (bi as usize) < xfs.len() {
        proof {
            assert(xv[bi as int] == style_view(xfs@[bi as int]));
        }
        xfs[bi as usize].clone_element()
    } else {
        default_xlsx_xf_entry()
    };
    proof {
        assert(style_view(base) == (if bi < xv.len() { xv[bi as int] } else { default_xf_spec() }));
    }
    if xlsx_xf_num_fmt_id(&base.attrs) == id {
        return Ok(RecordPlan::Found(bi));
    }
    let mut attrs = base.attrs;
    default_attr_exec(&mut attrs, "fontId");
    default_attr_exec(&mut attrs, "fillId");
    default_attr_exec(&mut attrs, "borderId");
    default_attr_exec(&mut attrs, "xfId");
    attrs.insert(to_string("numFmtId"), u32_to_string(id));
    attrs.insert(to_string("applyNumberFormat"), to_string("1"));
    let candidate = StyleElement { name: to_string("xf"), attrs, inner_xml: base.inner_xml };
    let sig = render_xlsx_xf(&candidate);
    match find_sig(&xfs, "xf", sig.as_str()) {
        Some(k) => Ok(RecordPlan::Found(k as u32)),
        None => match element_span_by_local_name(styles_xml, "cellXfs") {
            None => Err(CliError::unexpected(to_string("styles cellXfs not found"))),
            Some(sp) => {
                let x2 = crate::xml::insert_text(styles_xml, sp.close_start, sig.as_str());
                Ok(RecordPlan::Appended(x2, xfs.len() as u32))
            },
        },
    }
}

fn cell_xfs_span_ok(xml: &str) -> (r: bool)
    ensures
        r == content_span_ok(xml@, "cellXfs"@),
{
    match element_span_by_local_name(xml, "cellXfs") {
        None => true,
        Some(sp) => sp.open_end <= sp.close_start,
    }
}

/// `ensure_xlsx_cell_style`, or `None` where the running program would
/// panic on an inverted `cellXfs` content span.
pub fn ensure_xlsx_cell_style_checked(styles_xml: String, base_style_index: u32, number_format_id: u32) -> (r: Option<CliResult<(String, u32, bool)>>)
    ensures
        r is Some <==> cell_style_spec(styles_xml@, base_style_index, number_format_id) is Some,
        r is Some ==> match cell_style_spec(styles_xml@, base_style_index, number_format_id)->Some_0 {
            Err(k) => r->Some_0 is Err && r->Some_0->Err_0.kind == k,
            Ok(v) => r->Some_0 is Ok && (r->Some_0->Ok_0.0@, r->Some_0->Ok_0.1, r->Some_0->Ok_0.2) == v,
        },
{
    let xml = crate::styles::ensure_xlsx_style_defaults(styles_xml);
    if !cell_xfs_span_ok(xml.as_str()) {
        return None;
    }
    match plan_cell_style(xml.as_str(), base_style_index, number_format_id) {
        Err(e) => Some(Err(e)),
        Ok(RecordPlan::Found(k)) => Some(Ok((xml, k, false))),
        Ok(RecordPlan::Appended(x2, n)) => {
            if !cell_xfs_span_ok(x2.as_str()) {
                return None;
            }
            Some(Ok((crate::styles::set_collection_count(x2, "cellXfs", "xf"), n, true)))
        },
    }
}

/// `ensure_xlsx_cell_style`: the index of a cell format that is the format
/// at `base_style_index` naming number format `number_format_id`, added to
/// `cellXfs` when no equal record exists; the styles part first gets every
/// default collection.
pub fn ensure_xlsx_cell_style(styles_xml: String, base_style_index: u32, number_format_id: u32) -> (r: CliResult<(String, u32, bool)>)
    requires
        cell_style_spec(styles_xml@, base_style_index, number_format_id) is Some,
    ensures
        match cell_style_spec(styles_xml@, base_style_index, number_format_id)->Some_0 {
            Err(k) => r is Err && r->Err_0.kind == k,
            Ok(v) => r is Ok && (r->Ok_0.0@, r->Ok_0.1, r->Ok_0.2) == v,
        },
{
    match ensure_xlsx_cell_style_checked(styles_xml, base_style_index, number_format_id) {
        Some(r) => r,
        None => Err(CliError::unexpected(to_string("styles cellXfs has no content"))),
    }
}

// ---------------------------------------------------------------------------
// Giving a range a number format or a style
// ---------------------------------------------------------------------------

/// The change a range command makes to each cell's format: a number format,
/// or a style.
#[derive(Clone, Copy)]
pub enum RangeFormatChange<'a> {
    NumberFormat(u32),
    Style(&'a CellStyleSpec),
}

/// The cell format a cell with base style `base` gets.
#[verifier::opaque]
pub open spec fn change_step_spec(change: RangeFormatChange, styles: Seq<char>, base: u32) -> Option<Result<(Seq<char>, u32, bool), ErrorKind>> {
    match change {
        RangeFormatChange::NumberFormat(id) => cell_style_spec(styles, base, id),
        RangeFormatChange::Style(s) => apply_style_spec(styles, base, *s),
    }
}

fn change_step(change: &RangeFormatChange, styles: String, base: u32) -> (r: Option<CliResult<(String, u32, bool)>>)
    ensures
        match change_step_spec(*change, styles@, base) {
            None => r is None,
            Some(Err(k)) => r is Some && r->Some_0 is Err && r->Some_0->Err_0.kind == k,
            Some(Ok(v)) => r is Some && r->Some_0 is Ok && (r->Some_0->Ok_0.0@, r->Some_0->Ok_0.1, r->Some_0->Ok_0.2) == v,
        },
{
    proof {
        reveal(change_step_spec);
    }
    match change {
        RangeFormatChange::NumberFormat(id) => ensure_xlsx_cell_style_checked(styles, base, *id),
        RangeFormatChange::Style(s) => apply_xlsx_style_to_styles_xml_checked(styles, base, s),
    }
}

/// What giving a range a number format reports; the style indexes used are
/// kept ascending and distinct.
#[derive(Debug)]
pub struct XlsxRangeFormatStats {
    pub updated: usize,
    pub created: usize,
    pub created_styles: usize,
    pub style_indexes: Vec<u32>,
}

pub ghost struct FormatStats {
    pub updated: nat,
    pub created: nat,
    pub created_styles: nat,
    pub style_indexes: Seq<u32>,
}

pub open spec fn format_stats_view(s: XlsxRangeFormatStats) -> FormatStats {
    FormatStats {
        updated: s.updated as nat,
        created: s.created as nat,
        created_styles: s.created_styles as nat,
        style_indexes: s.style_indexes@,
    }
}

pub open spec fn zero_format_stats() -> FormatStats {
    FormatStats { updated: 0, created: 0, created_styles: 0, style_indexes: Seq::empty() }
}

/// The first position from `i` on whose index is not below `x`.
pub open spec fn first_not_below(s: Seq<u32>, x: u32, i: int) -> int
    decreases s.len() - i,
{
    if i < 0 || i >= s.len() {
        s.len() as int
    } else if s[i] >= x {
        i
    } else {
        first_not_below(s, x, i + 1)
    }
}

/// An ascending list of indexes with `x` added where it belongs (unchanged
/// when already there).
pub open spec fn index_set_insert(s: Seq<u32>, x: u32) -> Seq<u32> {
    let p = first_not_below(s, x, 0);
    if p < s.len() && s[p] == x {
        s
    } else {
        s.insert(p, x)
    }
}

fn insert_style_index(v: &mut Vec<u32>, x: u32)
    ensures
        final(v)@ == index_set_insert(old(v)@, x),
{
    let mut i: usize = 0;
    while i < v.len() && v[i] < x
        invariant
            0 <= i <= v.len(),
            v@ == old(v)@,
            first_not_below(v@, x, i as int) == first_not_below(v@, x, 0),
        decreases v.len() - i,
    {
        i = i + 1;
    }
    if i < v.len() && v[i] == x {
        return;
    }
    v.insert(i, x);
}

/// The style index a base style was first given, from entry `i` on.
pub open spec fn cache_get(c: Seq<(u32, u32)>, k: u32, i: int) -> Option<u32>
    decreases c.len() - i,
{
    if i < 0 || i >= c.len() {
        None
    } else if c[i].0 == k {
        Some(c[i].1)
    } else {
        cache_get(c, k, i + 1)
    }
}

fn cache_find(c: &Vec<(u32, u32)>, k: u32) -> (r: Option<u32>)
    ensures
        r == cache_get(c@, k, 0),
{
    let mut i: usize = 0;
    while i < c.len()
        invariant
            0 <= i <= c.len(),
            cache_get(c@, k, i as int) == cache_get(c@, k, 0),
        decreases c.len() - i,
    {
        if c[i].0 == k {
            return Some(c[i].1);
        }
        i = i + 1;
    }
    None
}

/// A new cell with only a reference and a style.
pub open spec fn new_styled_cell(addr: Seq<char>, style_index: u32) -> Seq<char> {
    seq!['<', 'c'] + render_attrs_spec(empty_cell_attrs(addr, Some(styled_attrs(Seq::empty(), addr, style_index)))) + "/>"@
}

/// Giving the cells of row `row` from column `col` to `hi_col` the change:
/// each cell's style (0 when it has none) is mapped once to a cell format
/// with the change made (later cells with the same style reuse it), an
/// existing cell is rewritten with that style and a missing one created
/// with it. `None` where the running program panics.
pub open spec fn format_cells<'a>(
    row: u32,
    existing: Option<RowView>,
    col: int,
    hi_col: u32,
    change: RangeFormatChange<'a>,
    styles: Seq<char>,
    cache: Seq<(u32, u32)>,
    rendered: Keyed,
    st: FormatStats,
) -> Option<Result<(Seq<char>, Seq<(u32, u32)>, Keyed, FormatStats), ErrorKind>>
    decreases hi_col + 1 - col,
{
    if col < 0 || col > hi_col {
        Some(Ok((styles, cache, rendered, st)))
    } else {
        let c = col as u32;
        let addr = cell_text(c, row);
        let ex = match existing {
            Some(r) => cell_lookup(r.cells, c, 0),
            None => None,
        };
        let base = attr_u32_spec(opt_attrs(ex), "s"@);
        let step = match cache_get(cache, base, 0) {
            Some(ix) => Some(Ok((styles, ix, false))),
            None => change_step_spec(change, styles, base),
        };
        match step {
            None => None,
            Some(Err(k)) => Some(Err(k)),
            Some(Ok(v)) => {
                let cache2 = if cache_get(cache, base, 0) is Some { cache } else { cache.push((base, v.1)) };
                let x = match ex {
                    Some(e) => restyled_cell_spec(addr, e.xml, e.attrs, v.1),
                    None => new_styled_cell(addr, v.1),
                };
                format_cells(
                    row,
                    existing,
                    col + 1,
                    hi_col,
                    change,
                    v.0,
                    cache2,
                    keyed_insert(rendered, c, x),
                    FormatStats {
                        updated: st.updated + 1,
                        created: st.created + if ex is None { 1nat } else { 0nat },
                        created_styles: st.created_styles + if v.2 { 1nat } else { 0nat },
                        style_indexes: index_set_insert(st.style_indexes, v.1),
                    },
                )
            },
        }
    }
}

/// Giving row `r` the number format over the range's columns: the row is
/// rewritten with its cells.
pub open spec fn format_row_step<'a>(
    rows: Seq<RowView>,
    r: u32,
    lo_col: u32,
    hi_col: u32,
    change: RangeFormatChange<'a>,
    styles: Seq<char>,
    cache: Seq<(u32, u32)>,
    changed: Keyed,
    st: FormatStats,
) -> Option<Result<(Seq<char>, Seq<(u32, u32)>, Keyed, FormatStats), ErrorKind>> {
    let existing = row_lookup(rows, r, 0);
    let start = match existing {
        Some(e) => cells_keyed(e.cells),
        None => Seq::empty(),
    };
    match format_cells(r, existing, lo_col as int, hi_col, change, styles, cache, start, st) {
        None => None,
        Some(Err(k)) => Some(Err(k)),
        Some(Ok(res)) => {
            let attrs = match existing {
                Some(e) => e.attrs,
                None => Seq::empty(),
            };
            Some(Ok((res.0, res.1, keyed_insert(changed, r, row_xml_spec(r, attrs, res.2, Seq::empty())), res.3)))
        },
    }
}

/// Giving rows `row` to `hi_row` the number format, one row after another.
pub open spec fn format_rows<'a>(
    rows: Seq<RowView>,
    row: int,
    hi_row: u32,
    lo_col: u32,
    hi_col: u32,
    change: RangeFormatChange<'a>,
    styles: Seq<char>,
    cache: Seq<(u32, u32)>,
    changed: Keyed,
    st: FormatStats,
) -> Option<Result<(Seq<char>, Keyed, FormatStats), ErrorKind>>
    decreases hi_row + 1 - row,
{
    if row < 0 || row > hi_row {
        Some(Ok((styles, changed, st)))
    } else {
        match format_row_step(rows, row as u32, lo_col, hi_col, change, styles, cache, changed, st) {
            None => None,
            Some(Err(k)) => Some(Err(k)),
            Some(Ok(x)) => format_rows(rows, row + 1, hi_row, lo_col, hi_col, change, x.0, x.1, x.2, x.3),
        }
    }
}

/// The worksheet and styles part after giving a range a number format, and
/// the tallies; `None` where the running program panics.
pub open spec fn format_range_spec(xml: Seq<char>, styles: Seq<char>, bounds: RangeBounds, change: RangeFormatChange) -> Option<
    Result<(Seq<char>, Seq<char>, FormatStats), ErrorKind>,
> {
    match sheet_data_span_spec(xml) {
        Err(k) => Some(Err(k)),
        Ok(sd) => match row_spans_spec(xml, sd) {
            Err(k) => Some(Err(k)),
            Ok(rows) => match format_rows(
                rows,
                bounds.lo_row() as int,
                bounds.hi_row(),
                bounds.lo_col(),
                bounds.hi_col(),
                change,
                styles,
                Seq::empty(),
                Seq::empty(),
                zero_format_stats(),
            ) {
                None => None,
                Some(Err(k)) => Some(Err(k)),
                Some(Ok(res)) => match rebuild_spec(xml, sd, rows, res.1) {
                    Err(k) => Some(Err(k)),
                    Ok(u) => Some(Ok((replace_dimension_spec(u, used_range_spec(u)), res.0, res.2))),
                },
            },
        },
    }
}

/// The number of cells in a range.
pub open spec fn range_cell_count(b: RangeBounds) -> int {
    (b.hi_row() - b.lo_row() + 1) * (b.hi_col() - b.lo_col() + 1)
}

proof fn lemma_rows_times_cols(k: int, n: int, m: int)
    by (nonlinear_arith)
    requires
        0 <= k < n,
        0 <= m,
    ensures
        k * m + m == (k + 1) * m,
        (k + 1) * m <= n * m,
{
}

fn format_row_cells<'a>(
    rows: &Vec<XlsxRowSpan>,
    existing: Option<usize>,
    row: u32,
    lo_col: u32,
    hi_col: u32,
    change: RangeFormatChange<'a>,
    styles: &mut String,
    cache: &mut Vec<(u32, u32)>,
    rendered: &mut Vec<(u32, String)>,
    stats: &mut XlsxRangeFormatStats,
) -> (r: Option<CliResult<()>>)
    requires
        existing is Some ==> existing->0 < rows@.len(),
        lo_col <= hi_col,
        old(stats).updated + (hi_col - lo_col + 1) <= usize::MAX,
        old(stats).created <= old(stats).updated,
        old(stats).created_styles <= old(stats).updated,
    ensures
        match format_cells(
            row,
            opt_row_view(rows@, existing),
            lo_col as int,
            hi_col,
            change,
            old(styles)@,
            old(cache)@,
            keyed_view(old(rendered)@),
            format_stats_view(*old(stats)),
        ) {
            None => r is None,
            Some(Err(k)) => r is Some && r->Some_0 is Err && r->Some_0->Err_0.kind == k,
            Some(Ok(res)) => r is Some && r->Some_0 is Ok && final(styles)@ == res.0 && final(cache)@ == res.1
                && keyed_view(final(rendered)@) == res.2 && format_stats_view(*final(stats)) == res.3
                && final(stats).updated == old(stats).updated + (hi_col - lo_col + 1)
                && final(stats).created <= final(stats).updated
                && final(stats).created_styles <= final(stats).updated,
        },
{
    let ghost ex_row = opt_row_view(rows@, existing);
    let ghost start = (old(styles)@, old(cache)@, keyed_view(old(rendered)@), format_stats_view(*old(stats)));
    let ghost u0 = old(stats).updated;
    let mut k: u64 = lo_col as u64;
    while k <= hi_col as u64
        invariant
            lo_col <= k <= hi_col as int + 1,
            existing is Some ==> existing->0 < rows@.len(),
            ex_row == opt_row_view(rows@, existing),
            start == (old(styles)@, old(cache)@, keyed_view(old(rendered)@), format_stats_view(*old(stats))),
            u0 == old(stats).updated,
            u0 + (hi_col - lo_col + 1) <= usize::MAX,
            stats.updated == u0 + (k - lo_col),
            stats.created <= stats.updated,
            stats.created_styles <= stats.updated,
            format_cells(row, ex_row, lo_col as int, hi_col, change, start.0, start.1, start.2, start.3)
                == format_cells(row, ex_row, k as int, hi_col, change, styles@, cache@, keyed_view(rendered@), format_stats_view(*stats)),
        decreases hi_col as int + 1 - k,
    {
        let col = k as u32;
        let ghost s0 = styles@;
        let ghost c0 = cache@;
        let ghost r0 = keyed_view(rendered@);
        let ghost st0 = format_stats_view(*stats);
        let cn = col_name(col);
        let rn = u32_to_string(row);
        let addr = crate::text::concat2(cn.as_str(), rn.as_str());
        let ex: Option<&crate::sheetxml::XlsxCellSpan> = match existing {
            Some(ri) => match find_cell(&rows[ri].cells, col) {
                Some(ci) => Some(&rows[ri].cells[ci]),
                None => None,
            },
            None => None,
        };
        let ghost exv: Option<CellView> = match ex {
            Some(x) => Some(x@),
            None => None,
        };
        proof {
            let want = match ex_row {
                Some(rr) => cell_lookup(rr.cells, col, 0),
                None => None,
            };
            assert(addr@ == cell_text(col, row));
            match existing {
                Some(ri) => {
                    assert(ex_row == Some(rows@[ri as int]@));
                    assert(rows@[ri as int]@.cells == crate::sheetxml::cells_view(rows@[ri as int].cells@));
                },
                None => {},
            }
            assert(exv == want);
        }
        let base: u32 = match ex {
            Some(x) => match x.attrs.get("s") {
                Some(v) => match crate::text::parse_u32(v.as_str()) {
                    Some(n) => n,
                    None => 0,
                },
                None => 0,
            },
            None => 0,
        };
        proof {
            assert(base == attr_u32_spec(opt_attrs(exv), "s"@));
        }
        let cached = cache_find(cache, base);
        let (ix, created) = match cached {
            Some(ix) => (ix, false),
            None => {
                let mut cur = String::new();
                std::mem::swap(&mut cur, styles);
                proof {
                    assert(cur@ == s0);
                }
                match change_step(&change, cur, base) {
                    None => {
                        proof {
                            assert(format_cells(row, ex_row, k as int, hi_col, change, s0, c0, r0, st0) is None);
                        }
                        return None;
                    },
                    Some(Err(e)) => {
                        proof {
                            assert(format_cells(row, ex_row, k as int, hi_col, change, s0, c0, r0, st0) == Some(
                                Err::<(Seq<char>, Seq<(u32, u32)>, Keyed, FormatStats), ErrorKind>(e.kind),
                            ));
                        }
                        return Some(Err(e));
                    },
                    Some(Ok((s2, ix, created))) => {
                        *styles = s2;
                        cache.push((base, ix));
                        (ix, created)
                    },
                }
            },
        };
        let x = match ex {
            Some(e) => render_xlsx_existing_cell_with_style(addr.as_str(), e, ix),
            None => {
                let mut attrs = AttrMap::new();
                attrs.insert(to_string("r"), to_string(addr.as_str()));
                attrs.insert(to_string("s"), u32_to_string(ix));
                stats.created = stats.created + 1;
                render_empty_xlsx_cell_with_attrs(addr.as_str(), Some(&attrs))
            },
        };
        keyed_put(rendered, col, x);
        stats.updated = stats.updated + 1;
        if created {
            stats.created_styles = stats.created_styles + 1;
        }
        insert_style_index(&mut stats.style_indexes, ix);
        k = k + 1;
    }
    Some(Ok(()))
}

fn format_one_row<'a>(
    existing: &Vec<XlsxRowSpan>,
    row: u32,
    lo_col: u32,
    hi_col: u32,
    change: RangeFormatChange<'a>,
    styles: &mut String,
    cache: &mut Vec<(u32, u32)>,
    changed_rows: &mut Vec<(u32, String)>,
    stats: &mut XlsxRangeFormatStats,
) -> (r: Option<CliResult<()>>)
    requires
        lo_col <= hi_col,
        old(stats).updated + (hi_col - lo_col + 1) <= usize::MAX,
        old(stats).created <= old(stats).updated,
        old(stats).created_styles <= old(stats).updated,
    ensures
        match format_row_step(
            rows_view(existing@),
            row,
            lo_col,
            hi_col,
            change,
            old(styles)@,
            old(cache)@,
            keyed_view(old(changed_rows)@),
            format_stats_view(*old(stats)),
        ) {
            None => r is None,
            Some(Err(k)) => r is Some && r->Some_0 is Err && r->Some_0->Err_0.kind == k,
            Some(Ok(res)) => r is Some && r->Some_0 is Ok && final(styles)@ == res.0 && final(cache)@ == res.1
                && keyed_view(final(changed_rows)@) == res.2 && format_stats_view(*final(stats)) == res.3
                && final(stats).updated == old(stats).updated + (hi_col - lo_col + 1)
                && final(stats).created <= final(stats).updated
                && final(stats).created_styles <= final(stats).updated,
        },
{
    let ghost rv = rows_view(existing@);
    let ex = find_row(existing, row);
    let mut rendered: Vec<(u32, String)> = match ex {
        Some(i) => crate::sheetxml::cells_to_keyed_pub(&existing[i].cells),
        None => Vec::new(),
    };
    proof {
        match ex {
            Some(i) => {
                assert(rv[i as int] == existing@[i as int]@);
                assert(opt_row_view(existing@, ex) == row_lookup(rv, row, 0));
            },
            None => {
                assert(keyed_view(rendered@) =~= Seq::<(u32, Seq<char>)>::empty());
            },
        }
    }
    match format_row_cells(existing, ex, row, lo_col, hi_col, change, styles, cache, &mut rendered, stats) {
        None => {
            return None;
        },
        Some(Err(e)) => {
            return Some(Err(e));
        },
        Some(Ok(())) => {},
    }
    let ex_span: Option<&XlsxRowSpan> = match ex {
        Some(i) => Some(&existing[i]),
        None => None,
    };
    let x = render_xlsx_row(row, ex_span, &rendered);
    keyed_put(changed_rows, row, x);
    Some(Ok(()))
}

#[verifier::rlimit(40)]
fn format_range_impl<'a>(sheet_xml: &str, styles_xml: String, bounds: RangeBounds, change: RangeFormatChange<'a>) -> (r: Option<
    CliResult<(String, String, XlsxRangeFormatStats)>,
>)
    requires
        range_cell_count(bounds) <= usize::MAX,
    ensures
        match format_range_spec(sheet_xml@, styles_xml@, bounds, change) {
            None => r is None,
            Some(Err(k)) => r is Some && r->Some_0 is Err && r->Some_0->Err_0.kind == k,
            Some(Ok(v)) => r is Some && r->Some_0 is Ok && r->Some_0->Ok_0.0@ == v.0 && r->Some_0->Ok_0.1@ == v.1
                && format_stats_view(r->Some_0->Ok_0.2) == v.2,
        },
{
    let sd = match xlsx_sheet_data_span(sheet_xml) {
        Ok(x) => x,
        Err(e) => {
            return Some(Err(e));
        },
    };
    let existing = match parse_xlsx_row_spans(sheet_xml, sd) {
        Ok(x) => x,
        Err(e) => {
            return Some(Err(e));
        },
    };
    let ghost rv = rows_view(existing@);
    proof {
        assert(sheet_data_span_spec(sheet_xml@) == Ok::<Option<(int, int, int, int, bool)>, ErrorKind>(opt_span_view(sd)));
    }
    let lo_row = bounds.min_row();
    let hi_row = bounds.max_row();
    let lo_col = bounds.min_col();
    let hi_col = bounds.max_col();
    let ghost ncols: int = hi_col - lo_col + 1;
    let ghost nrows: int = hi_row - lo_row + 1;
    let mut styles = styles_xml;
    let mut cache: Vec<(u32, u32)> = Vec::new();
    let mut changed_rows: Vec<(u32, String)> = Vec::new();
    let mut stats = XlsxRangeFormatStats { updated: 0, created: 0, created_styles: 0, style_indexes: Vec::new() };
    let ghost start_styles = styles@;
    proof {
        assert(keyed_view(changed_rows@) =~= Seq::<(u32, Seq<char>)>::empty());
        assert(format_stats_view(stats) == zero_format_stats());
        assert(cache@ =~= Seq::<(u32, u32)>::empty());
    }
    let mut k: u64 = lo_row as u64;
    while k <= hi_row as u64
        invariant
            lo_row <= k <= hi_row as int + 1,
            lo_row == bounds.lo_row(),
            hi_row == bounds.hi_row(),
            lo_col == bounds.lo_col(),
            hi_col == bounds.hi_col(),
            lo_col <= hi_col,
            ncols == hi_col - lo_col + 1,
            nrows == hi_row - lo_row + 1,
            nrows * ncols <= usize::MAX,
            rv == rows_view(existing@),
            start_styles == styles_xml@,
            sheet_data_span_spec(sheet_xml@) == Ok::<Option<(int, int, int, int, bool)>, ErrorKind>(opt_span_view(sd)),
            row_spans_spec(sheet_xml@, opt_span_view(sd)) == Ok::<Seq<RowView>, ErrorKind>(rv),
            stats.updated == (k - lo_row) * ncols,
            stats.created <= stats.updated,
            stats.created_styles <= stats.updated,
            format_rows(rv, lo_row as int, hi_row, lo_col, hi_col, change, start_styles, Seq::empty(), Seq::empty(), zero_format_stats())
                == format_rows(rv, k as int, hi_row, lo_col, hi_col, change, styles@, cache@, keyed_view(changed_rows@), format_stats_view(stats)),
        decreases hi_row as int + 1 - k,
    {
        let row = k as u32;
        let ghost s0 = styles@;
        let ghost c0 = cache@;
        let ghost ch0 = keyed_view(changed_rows@);
        let ghost st0 = format_stats_view(stats);
        proof {
            lemma_rows_times_cols(k - lo_row, nrows, ncols);
        }
        match format_one_row(&existing, row, lo_col, hi_col, change, &mut styles, &mut cache, &mut changed_rows, &mut stats) {
            None => {
                proof {
                    assert(format_rows(rv, k as int, hi_row, lo_col, hi_col, change, s0, c0, ch0, st0) is None);
                }
                return None;
            },
            Some(Err(e)) => {
                proof {
                    assert(format_rows(rv, k as int, hi_row, lo_col, hi_col, change, s0, c0, ch0, st0) == Some(
                        Err::<(Seq<char>, Keyed, FormatStats), ErrorKind>(e.kind),
                    ));
                }
                return Some(Err(e));
            },
            Some(Ok(())) => {},
        }
        k = k + 1;
    }
    let updated = match rebuild_xlsx_sheet_data(sheet_xml, sd, &existing, &changed_rows) {
        Ok(u) => u,
        Err(e) => {
            return Some(Err(e));
        },
    };
    let used = xlsx_used_range_from_cell_refs(updated.as_str());
    let out = match used {
        Some(u) => replace_xlsx_dimension(updated.as_str(), Some(u.as_str())),
        None => replace_xlsx_dimension(updated.as_str(), None),
    };
    Some(Ok((out, styles, stats)))
}

/// `set_xlsx_range_number_format_xml`: gives every cell of a range the
/// number format `number_format_id`, creating missing cells and the cell
/// formats needed, and updates the dimension.
pub fn set_xlsx_range_number_format_xml(sheet_xml: &str, styles_xml: String, bounds: RangeBounds, number_format_id: u32) -> (r: CliResult<
    (String, String, XlsxRangeFormatStats),
>)
    requires
        range_cell_count(bounds) <= usize::MAX,
        format_range_spec(sheet_xml@, styles_xml@, bounds, RangeFormatChange::NumberFormat(number_format_id)) is Some,
    ensures
        match format_range_spec(sheet_xml@, styles_xml@, bounds, RangeFormatChange::NumberFormat(number_format_id))->Some_0 {
            Err(k) => r is Err && r->Err_0.kind == k,
            Ok(v) => r is Ok && r->Ok_0.0@ == v.0 && r->Ok_0.1@ == v.1 && format_stats_view(r->Ok_0.2) == v.2,
        },
{
    match format_range_impl(sheet_xml, styles_xml, bounds, RangeFormatChange::NumberFormat(number_format_id)) {
        Some(r) => r,
        None => Err(CliError::unexpected(to_string("styles cellXfs has no content"))),
    }
}

/// The same, or `None` where the running program would panic on an inverted
/// `cellXfs` content span.
pub fn set_xlsx_range_number_format_xml_checked(sheet_xml: &str, styles_xml: String, bounds: RangeBounds, number_format_id: u32) -> (r: Option<
    CliResult<(String, String, XlsxRangeFormatStats)>,
>)
    requires
        range_cell_count(bounds) <= usize::MAX,
    ensures
        r is Some <==> format_range_spec(sheet_xml@, styles_xml@, bounds, RangeFormatChange::NumberFormat(number_format_id)) is Some,
        r is Some ==> match format_range_spec(sheet_xml@, styles_xml@, bounds, RangeFormatChange::NumberFormat(number_format_id))->Some_0 {
            Err(k) => r->Some_0 is Err && r->Some_0->Err_0.kind == k,
            Ok(v) => r->Some_0 is Ok && r->Some_0->Ok_0.0@ == v.0 && r->Some_0->Ok_0.1@ == v.1
                && format_stats_view(r->Some_0->Ok_0.2) == v.2,
        },
{
    format_range_impl(sheet_xml, styles_xml, bounds, RangeFormatChange::NumberFormat(number_format_id))
}

/// `set_xlsx_range_style_xml`: gives every cell of a range the style,
/// creating missing cells and the cell formats (and fonts, fills and
/// borders) needed, and updates the dimension.
pub fn set_xlsx_range_style_xml(sheet_xml: &str, styles_xml: String, bounds: RangeBounds, spec: &CellStyleSpec) -> (r: CliResult<
    (String, String, XlsxRangeFormatStats),
>)
    requires
        range_cell_count(bounds) <= usize::MAX,
        format_range_spec(sheet_xml@, styles_xml@, bounds, RangeFormatChange::Style(spec)) is Some,
    ensures
        match format_range_spec(sheet_xml@, styles_xml@, bounds, RangeFormatChange::Style(spec))->Some_0 {
            Err(k) => r is Err && r->Err_0.kind == k,
            Ok(v) => r is Ok && r->Ok_0.0@ == v.0 && r->Ok_0.1@ == v.1 && format_stats_view(r->Ok_0.2) == v.2,
        },
{
    match format_range_impl(sheet_xml, styles_xml, bounds, RangeFormatChange::Style(spec)) {
        Some(r) => r,
        None => Err(CliError::unexpected(to_string("styles collection has no content"))),
    }
}

/// The same, or `None` where the running program would panic on an inverted
/// content span of the styles part.
pub fn set_xlsx_range_style_xml_checked(sheet_xml: &str, styles_xml: String, bounds: RangeBounds, spec: &CellStyleSpec) -> (r: Option<
    CliResult<(String, String, XlsxRangeFormatStats)>,
>)
    requires
        range_cell_count(bounds) <= usize::MAX,
    ensures
        r is Some <==> format_range_spec(sheet_xml@, styles_xml@, bounds, RangeFormatChange::Style(spec)) is Some,
        r is Some ==> match format_range_spec(sheet_xml@, styles_xml@, bounds, RangeFormatChange::Style(spec))->Some_0 {
            Err(k) => r->Some_0 is Err && r->Some_0->Err_0.kind == k,
            Ok(v) => r->Some_0 is Ok && r->Some_0->Ok_0.0@ == v.0 && r->Some_0->Ok_0.1@ == v.1
                && format_stats_view(r->Some_0->Ok_0.2) == v.2,
        },
{
    format_range_impl(sheet_xml, styles_xml, bounds, RangeFormatChange::Style(spec))
}

} // verus!
