//! The rows and cells of a worksheet's `sheetData`, read from its XML and
//! written back: where the block is, which rows and cells it holds, and how
//! changed rows are spliced in.
use vstd::prelude::*;
use crate::attrmap::{map_from_pairs, map_get, remove_key, sorted_insert, AttrMap, Entries};
use crate::cellref::cell_text;
use crate::mutation::{empty_cell_attrs, render_empty_xlsx_cell_with_attrs, replace_dimension_spec, replace_xlsx_dimension};
use crate::cellref::{cell_ref_spec, column_letters, col_name, parse_cell_ref, parse_range, range_bounds_ref, range_spec, range_text, ranges_intersect, RangeBounds};
use crate::elements::{attr_get, attr_lookup, render_attrs_spec, render_xml_attrs, vec_to_string_range};
use crate::error::{CliError, CliResult, ErrorKind};
use crate::text::{find_seq_from, vec_find_seq, concat3, concat5, decimal, parse_u32, parse_u32_spec, push_all, str_chars, str_eq, string_from_chars, to_string, u32_to_string};
use crate::xml::{
    char_tokens, char_tokens_spec, local_name, local_name_of, quick_xml_scan, quick_xml_tag_attributes, scan_xml,
    tag_attributes, tokens_well_formed, CharToken, XmlToken, XmlTokenKind,
};

verus! {

/// Where a worksheet's `sheetData` element stands (character positions):
/// its start, the end of its start tag, the start of its end tag and its
/// end; an empty element has no content.
#[derive(Clone, Copy, Debug)]
pub struct XlsxSheetDataSpan {
    pub start: usize,
    pub open_end: usize,
    pub close_start: usize,
    pub end: usize,
    pub empty: bool,
}

/// One cell element of a row: its column, its XML, its attributes, and
/// whether it holds a formula.
#[derive(Debug)]
pub struct XlsxCellSpan {
    pub col: u32,
    pub xml: String,
    pub attrs: AttrMap,
    pub has_formula: bool,
}

/// One row element of `sheetData`: its number, where it stands, its
/// attributes and its cells by column.
#[derive(Debug)]
pub struct XlsxRowSpan {
    pub row: u32,
    pub start: usize,
    pub end: usize,
    pub attrs: AttrMap,
    pub cells: Vec<XlsxCellSpan>,
}

pub ghost struct CellView {
    pub col: u32,
    pub xml: Seq<char>,
    pub attrs: Entries,
    pub has_formula: bool,
}

pub ghost struct RowView {
    pub row: u32,
    pub start: int,
    pub end: int,
    pub attrs: Entries,
    pub cells: Seq<CellView>,
}

impl View for XlsxCellSpan {
    type V = CellView;

    open spec fn view(&self) -> CellView {
        CellView { col: self.col, xml: self.xml@, attrs: self.attrs.view(), has_formula: self.has_formula }
    }
}

pub open spec fn cells_view(v: Seq<XlsxCellSpan>) -> Seq<CellView> {
    Seq::new(v.len(), |i: int| v[i]@)
}

impl View for XlsxRowSpan {
    type V = RowView;

    open spec fn view(&self) -> RowView {
        RowView {
            row: self.row,
            start: self.start as int,
            end: self.end as int,
            attrs: self.attrs.view(),
            cells: cells_view(self.cells@),
        }
    }
}

pub open spec fn rows_view(v: Seq<XlsxRowSpan>) -> Seq<RowView> {
    Seq::new(v.len(), |i: int| v[i]@)
}

/// A list of cells with `x` put in its column's place: replacing the cell of
/// that column, else before the first cell of a greater column.
pub open spec fn cell_insert(s: Seq<CellView>, x: CellView) -> Seq<CellView>
    decreases s.len(),
{
    if s.len() == 0 {
        seq![x]
    } else if s[0].col == x.col {
        seq![x] + s.drop_first()
    } else if x.col < s[0].col {
        seq![x] + s
    } else {
        seq![s[0]] + cell_insert(s.drop_first(), x)
    }
}

/// A list of rows with `x` put in its row number's place.
pub open spec fn row_insert(s: Seq<RowView>, x: RowView) -> Seq<RowView>
    decreases s.len(),
{
    if s.len() == 0 {
        seq![x]
    } else if s[0].row == x.row {
        seq![x] + s.drop_first()
    } else if x.row < s[0].row {
        seq![x] + s
    } else {
        seq![s[0]] + row_insert(s.drop_first(), x)
    }
}

/// The cells that inserting each in order gives (a later cell of the same
/// column replaces an earlier one), ordered by column.
pub open spec fn cells_map(occ: Seq<CellView>) -> Seq<CellView>
    decreases occ.len(),
{
    if occ.len() == 0 {
        Seq::empty()
    } else {
        cell_insert(cells_map(occ.drop_last()), occ.last())
    }
}

/// The rows that inserting each in order gives, ordered by row number.
pub open spec fn rows_map(occ: Seq<RowView>) -> Seq<RowView>
    decreases occ.len(),
{
    if occ.len() == 0 {
        Seq::empty()
    } else {
        row_insert(rows_map(occ.drop_last()), occ.last())
    }
}

proof fn lemma_cell_insert_prefix(s: Seq<CellView>, x: CellView, i: int)
    requires
        0 <= i <= s.len(),
        forall|j: int| 0 <= j < i ==> (#[trigger] s[j]).col < x.col,
    ensures
        cell_insert(s, x) == s.subrange(0, i) + cell_insert(s.subrange(i, s.len() as int), x),
    decreases i,
{
    if i == 0 {
        assert(s.subrange(0, s.len() as int) =~= s);
        assert(s.subrange(0, 0) + cell_insert(s, x) =~= cell_insert(s, x));
    } else {
        let t = s.drop_first();
        assert forall|j: int| 0 <= j < i - 1 implies (#[trigger] t[j]).col < x.col by {
            assert(t[j] == s[j + 1]);
        }
        lemma_cell_insert_prefix(t, x, i - 1);
        assert(t.subrange(i - 1, t.len() as int) =~= s.subrange(i, s.len() as int));
        assert(s.subrange(0, i) =~= seq![s[0]] + t.subrange(0, i - 1));
    }
}

proof fn lemma_row_insert_prefix(s: Seq<RowView>, x: RowView, i: int)
    requires
        0 <= i <= s.len(),
        forall|j: int| 0 <= j < i ==> (#[trigger] s[j]).row < x.row,
    ensures
        row_insert(s, x) == s.subrange(0, i) + row_insert(s.subrange(i, s.len() as int), x),
    decreases i,
{
    if i == 0 {
        assert(s.subrange(0, s.len() as int) =~= s);
        assert(s.subrange(0, 0) + row_insert(s, x) =~= row_insert(s, x));
    } else {
        let t = s.drop_first();
        assert forall|j: int| 0 <= j < i - 1 implies (#[trigger] t[j]).row < x.row by {
            assert(t[j] == s[j + 1]);
        }
        lemma_row_insert_prefix(t, x, i - 1);
        assert(t.subrange(i - 1, t.len() as int) =~= s.subrange(i, s.len() as int));
        assert(s.subrange(0, i) =~= seq![s[0]] + t.subrange(0, i - 1));
    }
}

/// Puts a cell under its column, in column order, replacing one already there.
pub fn insert_cell(cells: &mut Vec<XlsxCellSpan>, x: XlsxCellSpan)
    ensures
        cells_view(final(cells)@) == cell_insert(cells_view(old(cells)@), x@),
{
    let ghost s = cells_view(cells@);
    let mut i: usize = 0;
    while i < cells.len() && cells[i].col < x.col
        invariant
            0 <= i <= cells.len(),
            s == cells_view(cells@),
            forall|j: int| 0 <= j < i ==> (#[trigger] s[j]).col < x.col,
        decreases cells.len() - i,
    {
        i = i + 1;
    }
    proof {
        lemma_cell_insert_prefix(s, x@, i as int);
    }
    let ghost rest = s.subrange(i as int, s.len() as int);
    let ghost xv = x@;
    if i < cells.len() && cells[i].col == x.col {
        proof {
            assert(rest[0] == s[i as int]);
        }
        cells.set(i, x);
        proof {
            assert(cells_view(cells@) =~= s.subrange(0, i as int) + (seq![xv] + rest.drop_first()));
        }
    } else {
        proof {
            if i < s.len() {
                assert(rest[0] == s[i as int]);
            } else {
                assert(rest =~= Seq::<CellView>::empty());
            }
        }
        cells.insert(i, x);
        proof {
            assert(cells_view(cells@) =~= s.subrange(0, i as int) + (seq![xv] + rest));
        }
    }
}

/// Puts a row under its number, in row order, replacing one already there.
pub fn insert_row(rows: &mut Vec<XlsxRowSpan>, x: XlsxRowSpan)
    ensures
        rows_view(final(rows)@) == row_insert(rows_view(old(rows)@), x@),
{
    let ghost s = rows_view(rows@);
    let mut i: usize = 0;
    while i < rows.len() && rows[i].row < x.row
        invariant
            0 <= i <= rows.len(),
            s == rows_view(rows@),
            forall|j: int| 0 <= j < i ==> (#[trigger] s[j]).row < x.row,
        decreases rows.len() - i,
    {
        i = i + 1;
    }
    proof {
        lemma_row_insert_prefix(s, x@, i as int);
    }
    let ghost rest = s.subrange(i as int, s.len() as int);
    let ghost xv = x@;
    if i < rows.len() && rows[i].row == x.row {
        proof {
            assert(rest[0] == s[i as int]);
        }
        rows.set(i, x);
        proof {
            assert(rows_view(rows@) =~= s.subrange(0, i as int) + (seq![xv] + rest.drop_first()));
        }
    } else {
        proof {
            if i < s.len() {
                assert(rest[0] == s[i as int]);
            } else {
                assert(rest =~= Seq::<RowView>::empty());
            }
        }
        rows.insert(i, x);
        proof {
            assert(rows_view(rows@) =~= s.subrange(0, i as int) + (seq![xv] + rest));
        }
    }
}


// ---------------------------------------------------------------------------
// Finding tags
// ---------------------------------------------------------------------------

/// A tag of one of the chosen kinds with the given local name.
pub open spec fn tok_is(t: CharToken, start: bool, empty: bool, end: bool, local: Seq<char>) -> bool {
    ((start && t.kind == XmlTokenKind::Start) || (empty && t.kind == XmlTokenKind::Empty) || (end && t.kind
        == XmlTokenKind::End)) && local_name_of(t.name@) == local
}

/// The first index at or after `i` of such a tag, or -1.
pub open spec fn first_tok(toks: Seq<CharToken>, i: int, start: bool, empty: bool, end: bool, local: Seq<char>) -> int
    decreases toks.len() - i,
{
    if i < 0 || i >= toks.len() {
        -1
    } else if tok_is(toks[i], start, empty, end, local) {
        i
    } else {
        first_tok(toks, i + 1, start, empty, end, local)
    }
}

pub proof fn lemma_first_tok(toks: Seq<CharToken>, i: int, start: bool, empty: bool, end: bool, local: Seq<char>)
    requires
        0 <= i,
    ensures
        first_tok(toks, i, start, empty, end, local) == -1 || (i <= first_tok(toks, i, start, empty, end, local)
            < toks.len() && tok_is(toks[first_tok(toks, i, start, empty, end, local)], start, empty, end, local)),
    decreases toks.len() - i,
{
    if i < toks.len() && !tok_is(toks[i], start, empty, end, local) {
        lemma_first_tok(toks, i + 1, start, empty, end, local);
    }
}

/// The first index at or after `from` of a tag of the chosen kinds named `local`.
pub fn find_tok(toks: &Vec<CharToken>, from: usize, start: bool, empty: bool, end: bool, local: &str) -> (r: Option<usize>)
    ensures
        first_tok(toks@, from as int, start, empty, end, local@) == match r {
            Some(k) => k as int,
            None => -1,
        },
        r is Some ==> from <= r->0 < toks@.len() && tok_is(toks@[r->0 as int], start, empty, end, local@),
{
    proof {
        lemma_first_tok(toks@, from as int, start, empty, end, local@);
    }
    let mut i = from;
    while i < toks.len()
        invariant
            from <= i,
            first_tok(toks@, from as int, start, empty, end, local@) == first_tok(toks@, i as int, start, empty, end, local@),
        decreases toks.len() - i,
    {
        let t = &toks[i];
        let kind_ok = (start && t.kind == XmlTokenKind::Start) || (empty && t.kind == XmlTokenKind::Empty) || (end
            && t.kind == XmlTokenKind::End);
        if kind_ok {
            let ln = local_name(t.name.as_str());
            if str_eq(ln.as_str(), local) {
                return Some(i);
            }
        }
        i = i + 1;
    }
    None
}

// ---------------------------------------------------------------------------
// The sheetData block
// ---------------------------------------------------------------------------

/// Where `sheetData` stands in a worksheet: none when the text has no such
/// element; the start tag's bounds and the first `sheetData` end tag after
/// it for a full element.
pub open spec fn sheet_data_span_spec(xml: Seq<char>) -> Result<Option<(int, int, int, int, bool)>, ErrorKind> {
    match char_tokens_spec(xml) {
        None => Err(ErrorKind::Unexpected),
        Some(p) => {
            let toks = p.0;
            let i = first_tok(toks, 0, true, true, false, "sheetData"@);
            if i == -1 {
                if p.1 {
                    Err(ErrorKind::Unexpected)
                } else {
                    Ok(None)
                }
            } else if toks[i].kind == XmlTokenKind::Empty {
                Ok(Some((toks[i].start as int, toks[i].end as int, toks[i].end as int, toks[i].end as int, true)))
            } else {
                let j = first_tok(toks, i + 1, false, false, true, "sheetData"@);
                if j == -1 {
                    Err(ErrorKind::Unexpected)
                } else {
                    Ok(Some((toks[i].start as int, toks[i].end as int, toks[j].start as int, toks[j].end as int, false)))
                }
            }
        },
    }
}

pub open spec fn span_view(s: XlsxSheetDataSpan) -> (int, int, int, int, bool) {
    (s.start as int, s.open_end as int, s.close_start as int, s.end as int, s.empty)
}

/// A span within a text of length `n`, its parts in order.
pub open spec fn span_ok(s: XlsxSheetDataSpan, n: int) -> bool {
    s.start <= s.open_end <= s.close_start <= s.end <= n
}

/// `xlsx_sheet_data_span`: where the worksheet's `sheetData` element stands.
pub fn xlsx_sheet_data_span(xml: &str) -> (r: CliResult<Option<XlsxSheetDataSpan>>)
    ensures
        match sheet_data_span_spec(xml@) {
            Err(k) => r is Err && r->Err_0.kind == k,
            Ok(None) => r is Ok && r->Ok_0 is None,
            Ok(Some(v)) => r is Ok && r->Ok_0 is Some && span_view(r->Ok_0->0) == v && span_ok(r->Ok_0->0, xml@.len() as int),
        },
{
    let (toks, failed) = char_tokens(xml)?;
    match find_tok(&toks, 0, true, true, false, "sheetData") {
        None => {
            if failed {
                Err(CliError::unexpected(to_string("invalid worksheet XML")))
            } else {
                Ok(None)
            }
        },
        Some(i) => {
            proof {
                assert(toks@[i as int].start <= toks@[i as int].end <= xml@.len());
            }
            if toks[i].kind == XmlTokenKind::Empty {
                let e = toks[i].end;
                return Ok(Some(XlsxSheetDataSpan { start: toks[i].start, open_end: e, close_start: e, end: e, empty: true }));
            }
            match find_tok(&toks, i + 1, false, false, true, "sheetData") {
                None => Err(CliError::unexpected(to_string("sheetData has no closing tag"))),
                Some(j) => {
                    proof {
                        lemma_tokens_monotone(toks@, xml@.len() as int, i as int, j as int);
                    }
                    Ok(Some(XlsxSheetDataSpan {
                        start: toks[i].start,
                        open_end: toks[i].end,
                        close_start: toks[j].start,
                        end: toks[j].end,
                        empty: false,
                    }))
                },
            }
        },
    }
}

/// In a well-formed token stream, a later token starts where or after an
/// earlier one ends.
pub proof fn lemma_tokens_monotone(toks: Seq<CharToken>, n: int, i: int, j: int)
    requires
        tokens_well_formed(toks, n),
        0 <= i < j < toks.len(),
    ensures
        toks[i].end <= toks[j].start,
    decreases j - i,
{
    if j == i + 1 {
    } else {
        lemma_tokens_monotone(toks, n, i, j - 1);
        assert(toks[j - 1].end == toks[j].start);
    }
}

/// Whether a cell's XML holds an `f` element, among the events read before
/// any error.
pub open spec fn has_formula_spec(cell_xml: Seq<char>) -> bool {
    let toks = quick_xml_scan(cell_xml).0;
    exists|i: int|
        0 <= i < toks.len() && ((#[trigger] toks[i]).kind == XmlTokenKind::Start || toks[i].kind == XmlTokenKind::Empty)
            && local_name_of(toks[i].name@) == "f"@
}

/// `xlsx_cell_xml_has_formula`: whether a cell's XML holds a formula.
pub fn xlsx_cell_xml_has_formula(cell_xml: &str) -> (r: bool)
    ensures
        r == has_formula_spec(cell_xml@),
{
    let (toks, _failed) = scan_xml(cell_xml);
    let mut i: usize = 0;
    while i < toks.len()
        invariant
            0 <= i <= toks.len(),
            toks@ == quick_xml_scan(cell_xml@).0,
            forall|k: int|
                0 <= k < i ==> !(((#[trigger] toks@[k]).kind == XmlTokenKind::Start || toks@[k].kind == XmlTokenKind::Empty)
                    && local_name_of(toks@[k].name@) == "f"@),
        decreases toks.len() - i,
    {
        let t = &toks[i];
        if t.kind == XmlTokenKind::Start || t.kind == XmlTokenKind::Empty {
            let ln = local_name(t.name.as_str());
            if str_eq(ln.as_str(), "f") {
                return true;
            }
        }
        i = i + 1;
    }
    false
}


// ---------------------------------------------------------------------------
// Cells of a row
// ---------------------------------------------------------------------------

/// The text of a token.
pub open spec fn tag_text(s: Seq<char>, t: CharToken) -> Seq<char> {
    s.subrange(t.start as int, t.end as int)
}

/// The attributes of a tag token, as `quick_xml` reads them.
pub open spec fn tag_attrs(s: Seq<char>, t: CharToken) -> Seq<(Seq<char>, Seq<char>)> {
    quick_xml_tag_attributes(tag_text(s, t))
}

pub open spec fn cons_ok<T>(x: T, r: Result<Seq<T>, ErrorKind>) -> Result<Seq<T>, ErrorKind> {
    match r {
        Ok(v) => Ok(seq![x] + v),
        Err(e) => Err(e),
    }
}

pub open spec fn append_ok<T>(d: Seq<T>, r: Result<Seq<T>, ErrorKind>) -> Result<Seq<T>, ErrorKind> {
    match r {
        Ok(v) => Ok(d + v),
        Err(e) => Err(e),
    }
}

/// The cell elements of a row's XML from token `i` on, in document order: a
/// `c` element with an `r` reference becomes a cell of that reference's
/// column; an unreadable reference is an error.
pub open spec fn cell_walk(s: Seq<char>, toks: Seq<CharToken>, i: int) -> Result<Seq<CellView>, ErrorKind>
    decreases toks.len() - i,
{
    if i < 0 || i >= toks.len() {
        Ok(Seq::empty())
    } else {
        let t = toks[i];
        let a = tag_attrs(s, t);
        if tok_is(t, true, true, false, "c"@) {
            match attr_lookup(a, "r"@) {
                None => cell_walk(s, toks, i + 1),
                Some(addr) => match cell_ref_spec(addr) {
                    None => Err(ErrorKind::InvalidArgs),
                    Some(cr) => if t.kind == XmlTokenKind::Empty {
                        cons_ok(
                            CellView { col: cr.0, xml: tag_text(s, t), attrs: map_from_pairs(a), has_formula: false },
                            cell_walk(s, toks, i + 1),
                        )
                    } else {
                        let j = first_tok(toks, i + 1, false, false, true, "c"@);
                        if j == -1 {
                            Err(ErrorKind::Unexpected)
                        } else {
                            proof {
                                lemma_first_tok(toks, i + 1, false, false, true, "c"@);
                            }
                            let x = s.subrange(t.start as int, toks[j].end as int);
                            cons_ok(
                                CellView { col: cr.0, xml: x, attrs: map_from_pairs(a), has_formula: has_formula_spec(x) },
                                cell_walk(s, toks, j + 1),
                            )
                        }
                    },
                },
            }
        } else {
            cell_walk(s, toks, i + 1)
        }
    }
}

/// The cells of a row's XML by column (a later cell of a column replaces an
/// earlier one), or why they cannot be read.
pub open spec fn cell_spans_spec(row_xml: Seq<char>) -> Result<Seq<CellView>, ErrorKind> {
    match char_tokens_spec(row_xml) {
        None => Err(ErrorKind::Unexpected),
        Some(p) => match cell_walk(row_xml, p.0, 0) {
            Err(k) => Err(k),
            Ok(occ) => if p.1 {
                Err(ErrorKind::Unexpected)
            } else {
                Ok(cells_map(occ))
            },
        },
    }
}

/// The attributes of a token of a text, as read by `quick_xml`.
pub(crate) fn token_attrs(sv: &Vec<char>, t: &CharToken) -> (r: Vec<(String, String)>)
    requires
        t.start <= t.end <= sv@.len(),
    ensures
        r.deep_view() == tag_attrs(sv@, *t),
{
    let tag = vec_to_string_range(sv, t.start, t.end);
    tag_attributes(tag.as_str())
}

/// `parse_xlsx_cell_spans`: the cells of a row's XML by column.
pub fn parse_xlsx_cell_spans(row_xml: &str) -> (r: CliResult<Vec<XlsxCellSpan>>)
    ensures
        match cell_spans_spec(row_xml@) {
            Err(k) => r is Err && r->Err_0.kind == k,
            Ok(v) => r is Ok && cells_view(r->Ok_0@) == v,
        },
{
    let (toks, failed) = char_tokens(row_xml)?;
    let sv = str_chars(row_xml);
    let ghost s = row_xml@;
    let ghost n = s.len() as int;
    let mut cells: Vec<XlsxCellSpan> = Vec::new();
    let ghost mut done: Seq<CellView> = Seq::empty();
    let mut i: usize = 0;
    while i < toks.len()
        invariant
            0 <= i <= toks.len(),
            sv@ == s,
            s == row_xml@,
            n == s.len(),
            char_tokens_spec(s) is Some,
            char_tokens_spec(s).unwrap().0 == toks@,
            tokens_well_formed(toks@, n),
            cell_walk(s, toks@, 0) == append_ok(done, cell_walk(s, toks@, i as int)),
            cells_view(cells@) == cells_map(done),
        decreases toks.len() - i,
    {
        let t = &toks[i];
        proof {
            assert(t.start <= t.end <= n);
        }
        let is_c = (t.kind == XmlTokenKind::Start || t.kind == XmlTokenKind::Empty) && str_eq(local_name(t.name.as_str()).as_str(), "c");
        if !is_c {
            i = i + 1;
            continue;
        }
        let attrs = token_attrs(&sv, t);
        let addr = match attr_get(&attrs, "r") {
            None => {
                i = i + 1;
                continue;
            },
            Some(a) => a,
        };
        let (col, _row) = match parse_cell_ref(addr.as_str()) {
            Ok(p) => p,
            Err(e) => {
                return Err(e);
            },
        };
        let (x, next, formula) = if t.kind == XmlTokenKind::Empty {
            (vec_to_string_range(&sv, t.start, t.end), i + 1, false)
        } else {
            match find_tok(&toks, i + 1, false, false, true, "c") {
                None => {
                    return Err(CliError::unexpected(to_string("cell has no closing tag")));
                },
                Some(j) => {
                    proof {
                        lemma_tokens_monotone(toks@, n, i as int, j as int);
                        assert(toks@[j as int].end <= n);
                    }
                    let x = vec_to_string_range(&sv, t.start, toks[j].end);
                    let f = xlsx_cell_xml_has_formula(x.as_str());
                    (x, j + 1, f)
                },
            }
        };
        let c = XlsxCellSpan { col, xml: x, attrs: AttrMap::from_pairs(&attrs), has_formula: formula };
        proof {
            let cv = c@;
            assert(cell_walk(s, toks@, i as int) == cons_ok(cv, cell_walk(s, toks@, next as int)));
            let w = cell_walk(s, toks@, next as int);
            match w {
                Ok(v) => {
                    assert(done + (seq![cv] + v) =~= done.push(cv) + v);
                },
                Err(_) => {},
            }
            assert(done.push(cv).drop_last() =~= done);
            done = done.push(cv);
        }
        insert_cell(&mut cells, c);
        i = next;
    }
    proof {
        assert(done + Seq::<CellView>::empty() =~= done);
    }
    if failed {
        return Err(CliError::unexpected(to_string("invalid row XML")));
    }
    Ok(cells)
}


// ---------------------------------------------------------------------------
// Rows of sheetData
// ---------------------------------------------------------------------------

/// The row number a row tag's `r` attribute gives, if it reads as a `u32`.
pub open spec fn row_number_of(a: Seq<(Seq<char>, Seq<char>)>) -> Option<u32> {
    match attr_lookup(a, "r"@) {
        Some(v) => parse_u32_spec(v),
        None => None,
    }
}

/// The row elements of `sheetData`'s content `s` (which starts at `base` in
/// the worksheet) from token `i` on, in document order.
pub open spec fn row_walk(s: Seq<char>, toks: Seq<CharToken>, i: int, base: int) -> Result<Seq<RowView>, ErrorKind>
    decreases toks.len() - i,
{
    if i < 0 || i >= toks.len() {
        Ok(Seq::empty())
    } else {
        let t = toks[i];
        let a = tag_attrs(s, t);
        if tok_is(t, true, true, false, "row"@) {
            match row_number_of(a) {
                None => row_walk(s, toks, i + 1, base),
                Some(r) => if t.kind == XmlTokenKind::Empty {
                    cons_ok(
                        RowView {
                            row: r,
                            start: base + t.start,
                            end: base + t.end,
                            attrs: map_from_pairs(a),
                            cells: Seq::empty(),
                        },
                        row_walk(s, toks, i + 1, base),
                    )
                } else {
                    let j = first_tok(toks, i + 1, false, false, true, "row"@);
                    if j == -1 {
                        Err(ErrorKind::Unexpected)
                    } else {
                        proof {
                            lemma_first_tok(toks, i + 1, false, false, true, "row"@);
                        }
                        match cell_spans_spec(s.subrange(t.start as int, toks[j].end as int)) {
                            Err(k) => Err(k),
                            Ok(cells) => cons_ok(
                                RowView {
                                    row: r,
                                    start: base + t.start,
                                    end: base + toks[j].end,
                                    attrs: map_from_pairs(a),
                                    cells,
                                },
                                row_walk(s, toks, j + 1, base),
                            ),
                        }
                    }
                },
            }
        } else {
            row_walk(s, toks, i + 1, base)
        }
    }
}

/// The rows of a worksheet by row number (a later row of a number replaces
/// an earlier one): none without a non-empty `sheetData`.
pub open spec fn row_spans_spec(xml: Seq<char>, sd: Option<(int, int, int, int, bool)>) -> Result<Seq<RowView>, ErrorKind> {
    match sd {
        None => Ok(Seq::empty()),
        Some(d) => if d.4 {
            Ok(Seq::empty())
        } else {
            let f = xml.subrange(d.1, d.2);
            match char_tokens_spec(f) {
                None => Err(ErrorKind::Unexpected),
                Some(p) => match row_walk(f, p.0, 0, d.1) {
                    Err(k) => Err(k),
                    Ok(occ) => if p.1 {
                        Err(ErrorKind::Unexpected)
                    } else {
                        Ok(rows_map(occ))
                    },
                },
            }
        },
    }
}

pub open spec fn opt_span_view(sd: Option<XlsxSheetDataSpan>) -> Option<(int, int, int, int, bool)> {
    match sd {
        Some(d) => Some(span_view(d)),
        None => None,
    }
}

/// `parse_xlsx_row_spans`: the rows of a worksheet's `sheetData` by number.
pub fn parse_xlsx_row_spans(xml: &str, sheet_data: Option<XlsxSheetDataSpan>) -> (r: CliResult<Vec<XlsxRowSpan>>)
    requires
        sheet_data is Some ==> span_ok(sheet_data->0, xml@.len() as int),
    ensures
        match row_spans_spec(xml@, opt_span_view(sheet_data)) {
            Err(k) => r is Err && r->Err_0.kind == k,
            Ok(v) => r is Ok && rows_view(r->Ok_0@) == v,
        },
{
    let d = match sheet_data {
        None => {
            let e: Vec<XlsxRowSpan> = Vec::new();
            proof {
                assert(rows_view(e@) =~= Seq::<RowView>::empty());
            }
            return Ok(e);
        },
        Some(d) => d,
    };
    if d.empty {
        let e: Vec<XlsxRowSpan> = Vec::new();
        proof {
            assert(rows_view(e@) =~= Seq::<RowView>::empty());
        }
        return Ok(e);
    }
    let xv = str_chars(xml);
    let frag = vec_to_string_range(&xv, d.open_end, d.close_start);
    let base = d.open_end;
    let (toks, failed) = char_tokens(frag.as_str())?;
    let sv = str_chars(frag.as_str());
    let ghost s = frag@;
    let ghost n = s.len() as int;
    let xl = xv.len();
    proof {
        assert(xml@.len() == xl);
        assert(opt_span_view(sheet_data) == Some(span_view(d)));
    }
    let mut rows: Vec<XlsxRowSpan> = Vec::new();
    let ghost mut done: Seq<RowView> = Seq::empty();
    let mut i: usize = 0;
    while i < toks.len()
        invariant
            0 <= i <= toks.len(),
            sv@ == s,
            s == frag@,
            n == s.len(),
            base + n <= xml@.len(),
            xml@.len() <= usize::MAX,
            char_tokens_spec(s) is Some,
            char_tokens_spec(s).unwrap().0 == toks@,
            row_spans_spec(xml@, opt_span_view(sheet_data)) == match row_walk(s, toks@, 0, base as int) {
                Err(k) => Err(k),
                Ok(occ) => if failed {
                    Err(ErrorKind::Unexpected)
                } else {
                    Ok(rows_map(occ))
                },
            },
            tokens_well_formed(toks@, n),
            row_walk(s, toks@, 0, base as int) == append_ok(done, row_walk(s, toks@, i as int, base as int)),
            rows_view(rows@) == rows_map(done),
        decreases toks.len() - i,
    {
        let t = &toks[i];
        proof {
            assert(t.start <= t.end <= n);
        }
        let is_row = (t.kind == XmlTokenKind::Start || t.kind == XmlTokenKind::Empty) && str_eq(
            local_name(t.name.as_str()).as_str(),
            "row",
        );
        if !is_row {
            i = i + 1;
            continue;
        }
        let attrs = token_attrs(&sv, t);
        let row = match attr_get(&attrs, "r") {
            None => {
                i = i + 1;
                continue;
            },
            Some(a) => match parse_u32(a.as_str()) {
                None => {
                    i = i + 1;
                    continue;
                },
                Some(r) => r,
            },
        };
        let (end, cells, next) = if t.kind == XmlTokenKind::Empty {
            (t.end, Vec::new(), i + 1)
        } else {
            match find_tok(&toks, i + 1, false, false, true, "row") {
                None => {
                    return Err(CliError::unexpected(to_string("row has no closing tag")));
                },
                Some(j) => {
                    proof {
                        lemma_tokens_monotone(toks@, n, i as int, j as int);
                        assert(toks@[j as int].end <= n);
                    }
                    let x = vec_to_string_range(&sv, t.start, toks[j].end);
                    let cells = parse_xlsx_cell_spans(x.as_str())?;
                    (toks[j].end, cells, j + 1)
                },
            }
        };
        let rs = XlsxRowSpan { row, start: base + t.start, end: base + end, attrs: AttrMap::from_pairs(&attrs), cells };
        proof {
            let rv = rs@;
            if t.kind == XmlTokenKind::Empty {
                assert(cells_view(rs.cells@) =~= Seq::<CellView>::empty());
            }
            assert(row_walk(s, toks@, i as int, base as int) == cons_ok(rv, row_walk(s, toks@, next as int, base as int)));
            let w = row_walk(s, toks@, next as int, base as int);
            match w {
                Ok(v) => {
                    assert(done + (seq![rv] + v) =~= done.push(rv) + v);
                },
                Err(_) => {},
            }
            assert(done.push(rv).drop_last() =~= done);
            done = done.push(rv);
        }
        insert_row(&mut rows, rs);
        i = next;
    }
    proof {
        assert(done + Seq::<RowView>::empty() =~= done);
    }
    if failed {
        return Err(CliError::unexpected(to_string("invalid sheetData XML")));
    }
    Ok(rows)
}


// ---------------------------------------------------------------------------
// Texts keyed by number (rendered cells of a row, rendered rows)
// ---------------------------------------------------------------------------

pub type Keyed = Seq<(u32, Seq<char>)>;

pub open spec fn keyed_view(v: Seq<(u32, String)>) -> Keyed {
    Seq::new(v.len(), |i: int| (v[i].0, v[i].1@))
}

/// `s` with `k` mapped to `x`, in key order.
pub open spec fn keyed_insert(s: Keyed, k: u32, x: Seq<char>) -> Keyed
    decreases s.len(),
{
    if s.len() == 0 {
        seq![(k, x)]
    } else if s[0].0 == k {
        seq![(k, x)] + s.drop_first()
    } else if k < s[0].0 {
        seq![(k, x)] + s
    } else {
        seq![s[0]] + keyed_insert(s.drop_first(), k, x)
    }
}

/// `s` without key `k`.
pub open spec fn keyed_remove(s: Keyed, k: u32) -> Keyed
    decreases s.len(),
{
    if s.len() == 0 {
        s
    } else if s[0].0 == k {
        s.drop_first()
    } else {
        seq![s[0]] + keyed_remove(s.drop_first(), k)
    }
}

/// The text mapped to `k`.
pub open spec fn keyed_get(s: Keyed, k: u32) -> Option<Seq<char>>
    decreases s.len(),
{
    if s.len() == 0 {
        None
    } else if s[0].0 == k {
        Some(s[0].1)
    } else {
        keyed_get(s.drop_first(), k)
    }
}

proof fn lemma_keyed_insert_prefix(s: Keyed, k: u32, x: Seq<char>, i: int)
    requires
        0 <= i <= s.len(),
        forall|j: int| 0 <= j < i ==> (#[trigger] s[j]).0 < k,
    ensures
        keyed_insert(s, k, x) == s.subrange(0, i) + keyed_insert(s.subrange(i, s.len() as int), k, x),
    decreases i,
{
    if i == 0 {
        assert(s.subrange(0, s.len() as int) =~= s);
        assert(s.subrange(0, 0) + keyed_insert(s, k, x) =~= keyed_insert(s, k, x));
    } else {
        let t = s.drop_first();
        assert forall|j: int| 0 <= j < i - 1 implies (#[trigger] t[j]).0 < k by {
            assert(t[j] == s[j + 1]);
        }
        lemma_keyed_insert_prefix(t, k, x, i - 1);
        assert(t.subrange(i - 1, t.len() as int) =~= s.subrange(i, s.len() as int));
        assert(s.subrange(0, i) =~= seq![s[0]] + t.subrange(0, i - 1));
    }
}

proof fn lemma_keyed_remove_prefix(s: Keyed, k: u32, i: int)
    requires
        0 <= i <= s.len(),
        forall|j: int| 0 <= j < i ==> (#[trigger] s[j]).0 != k,
    ensures
        keyed_remove(s, k) == s.subrange(0, i) + keyed_remove(s.subrange(i, s.len() as int), k),
    decreases i,
{
    if i == 0 {
        assert(s.subrange(0, s.len() as int) =~= s);
        assert(s.subrange(0, 0) + keyed_remove(s, k) =~= keyed_remove(s, k));
    } else {
        let t = s.drop_first();
        assert forall|j: int| 0 <= j < i - 1 implies (#[trigger] t[j]).0 != k by {
            assert(t[j] == s[j + 1]);
        }
        lemma_keyed_remove_prefix(t, k, i - 1);
        assert(t.subrange(i - 1, t.len() as int) =~= s.subrange(i, s.len() as int));
        assert(s.subrange(0, i) =~= seq![s[0]] + t.subrange(0, i - 1));
    }
}

proof fn lemma_keyed_remove_absent(s: Keyed, k: u32)
    requires
        forall|j: int| 0 <= j < s.len() ==> (#[trigger] s[j]).0 != k,
    ensures
        keyed_remove(s, k) == s,
    decreases s.len(),
{
    if s.len() > 0 {
        let t = s.drop_first();
        assert forall|j: int| 0 <= j < t.len() implies (#[trigger] t[j]).0 != k by {
            assert(t[j] == s[j + 1]);
        }
        lemma_keyed_remove_absent(t, k);
        assert(seq![s[0]] + t =~= s);
    }
}

/// Puts a text under its number, in number order, replacing one already there.
pub fn keyed_put(m: &mut Vec<(u32, String)>, k: u32, x: String)
    ensures
        keyed_view(final(m)@) == keyed_insert(keyed_view(old(m)@), k, x@),
{
    let ghost s = keyed_view(m@);
    let mut i: usize = 0;
    while i < m.len() && m[i].0 < k
        invariant
            0 <= i <= m.len(),
            s == keyed_view(m@),
            forall|j: int| 0 <= j < i ==> (#[trigger] s[j]).0 < k,
        decreases m.len() - i,
    {
        i = i + 1;
    }
    proof {
        lemma_keyed_insert_prefix(s, k, x@, i as int);
    }
    let ghost rest = s.subrange(i as int, s.len() as int);
    let ghost xv = x@;
    if i < m.len() && m[i].0 == k {
        proof {
            assert(rest[0] == s[i as int]);
        }
        m.set(i, (k, x));
        proof {
            assert(keyed_view(m@) =~= s.subrange(0, i as int) + (seq![(k, xv)] + rest.drop_first()));
        }
    } else {
        proof {
            if i < s.len() {
                assert(rest[0] == s[i as int]);
            } else {
                assert(rest =~= Seq::<(u32, Seq<char>)>::empty());
            }
        }
        m.insert(i, (k, x));
        proof {
            assert(keyed_view(m@) =~= s.subrange(0, i as int) + (seq![(k, xv)] + rest));
        }
    }
}

/// Drops the text kept under a number.
pub fn keyed_take(m: &mut Vec<(u32, String)>, k: u32)
    ensures
        keyed_view(final(m)@) == keyed_remove(keyed_view(old(m)@), k),
{
    let ghost s = keyed_view(m@);
    let mut i: usize = 0;
    while i < m.len() && m[i].0 != k
        invariant
            0 <= i <= m.len(),
            s == keyed_view(m@),
            forall|j: int| 0 <= j < i ==> (#[trigger] s[j]).0 != k,
        decreases m.len() - i,
    {
        i = i + 1;
    }
    proof {
        lemma_keyed_remove_prefix(s, k, i as int);
    }
    let ghost rest = s.subrange(i as int, s.len() as int);
    if i < m.len() {
        proof {
            assert(rest[0] == s[i as int]);
        }
        m.remove(i);
        proof {
            assert(keyed_view(m@) =~= s.subrange(0, i as int) + rest.drop_first());
        }
    } else {
        proof {
            assert(rest =~= Seq::<(u32, Seq<char>)>::empty());
            assert(s.subrange(0, i as int) + keyed_remove(rest, k) =~= s);
        }
    }
}

/// The texts of a keyed list, joined in order.
pub open spec fn keyed_concat(s: Keyed) -> Seq<char>
    decreases s.len(),
{
    if s.len() == 0 {
        Seq::empty()
    } else {
        keyed_concat(s.drop_last()) + s.last().1
    }
}

pub(crate) fn concat_keyed(m: &Vec<(u32, String)>, out: &mut Vec<char>)
    ensures
        final(out)@ == old(out)@ + keyed_concat(keyed_view(m@)),
{
    let mut i: usize = 0;
    while i < m.len()
        invariant
            0 <= i <= m.len(),
            out@ == old(out)@ + keyed_concat(keyed_view(m@).take(i as int)),
        decreases m.len() - i,
    {
        let ghost before = out@;
        let c = str_chars(m[i].1.as_str());
        push_all(out, &c);
        proof {
            let t = keyed_view(m@).take(i + 1);
            assert(t.drop_last() =~= keyed_view(m@).take(i as int));
            assert(t.last() == (m@[i as int].0, m@[i as int].1@));
            assert(out@ =~= old(out)@ + keyed_concat(t));
        }
        i = i + 1;
    }
    proof {
        assert(keyed_view(m@).take(m@.len() as int) =~= keyed_view(m@));
    }
}

// ---------------------------------------------------------------------------
// Rendering a row
// ---------------------------------------------------------------------------

/// A row element: its attributes (those of the existing row, if any) with
/// `r` set to the row number and `spans` dropped, then its cells in column
/// order.
pub open spec fn row_xml_spec(row_number: u32, attrs: Entries, cells: Keyed, prefix: Seq<char>) -> Seq<char> {
    let a = remove_key(sorted_insert(attrs, "r"@, decimal(row_number as nat)), "spans"@);
    "<"@ + prefix + "row"@ + render_attrs_spec(a) + ">"@ + keyed_concat(cells) + "</"@ + prefix + "row>"@
}

pub open spec fn opt_row_attrs(row_span: Option<&XlsxRowSpan>) -> Entries {
    match row_span {
        Some(r) => r.attrs.view(),
        None => Seq::empty(),
    }
}

/// `render_xlsx_row_with_prefix`: a row element with the given cells.
pub fn render_xlsx_row_with_prefix(
    row_number: u32,
    row_span: Option<&XlsxRowSpan>,
    cells: &Vec<(u32, String)>,
    prefix: &str,
) -> (r: String)
    ensures
        r@ == row_xml_spec(row_number, opt_row_attrs(row_span), keyed_view(cells@), prefix@),
{
    let mut attrs = match row_span {
        Some(sp) => sp.attrs.clone_map(),
        None => AttrMap::new(),
    };
    attrs.insert(to_string("r"), u32_to_string(row_number));
    attrs.remove("spans");
    let rendered = render_xml_attrs(&attrs.entries);
    let head = concat5("<", prefix, "row", rendered.as_str(), ">");
    let mut out = str_chars(head.as_str());
    concat_keyed(cells, &mut out);
    let tail = concat3("</", prefix, "row>");
    let tv = str_chars(tail.as_str());
    push_all(&mut out, &tv);
    proof {
        assert(out@ =~= row_xml_spec(row_number, opt_row_attrs(row_span), keyed_view(cells@), prefix@));
    }
    string_from_chars(out.as_slice())
}

/// `render_xlsx_row`: a row element with the given cells and no prefix.
pub fn render_xlsx_row(row_number: u32, row_span: Option<&XlsxRowSpan>, cells: &Vec<(u32, String)>) -> (r: String)
    ensures
        r@ == row_xml_spec(row_number, opt_row_attrs(row_span), keyed_view(cells@), Seq::empty()),
{
    proof {
        reveal_strlit("");
    }
    render_xlsx_row_with_prefix(row_number, row_span, cells, "")
}


// ---------------------------------------------------------------------------
// Writing changed rows back into sheetData
// ---------------------------------------------------------------------------

/// The part `a..b` of a text; empty where the bounds do not fit.
pub open spec fn sl(x: Seq<char>, a: int, b: int) -> Seq<char> {
    if 0 <= a <= b <= x.len() {
        x.subrange(a, b)
    } else {
        Seq::empty()
    }
}

fn push_slice(out: &mut Vec<char>, x: &Vec<char>, a: usize, b: usize)
    ensures
        final(out)@ == old(out)@ + sl(x@, a as int, b as int),
{
    if a <= b && b <= x.len() {
        let mut i = a;
        while i < b
            invariant
                a <= i <= b <= x.len(),
                out@ == old(out)@ + x@.subrange(a as int, i as int),
            decreases b - i,
        {
            out.push(x[i]);
            proof {
                assert(x@.subrange(a as int, i + 1) =~= x@.subrange(a as int, i as int).push(x@[i as int]));
            }
            i = i + 1;
        }
    } else {
        proof {
            assert(old(out)@ + Seq::<char>::empty() =~= old(out)@);
        }
    }
}

/// Row number, start and end of each row.
pub open spec fn row_triples(rows: Seq<RowView>) -> Seq<(u32, int, int)> {
    Seq::new(rows.len(), |i: int| (rows[i].row, rows[i].start, rows[i].end))
}

pub open spec fn tri_view(v: Seq<(u32, usize, usize)>) -> Seq<(u32, int, int)> {
    Seq::new(v.len(), |i: int| (v[i].0, v[i].1 as int, v[i].2 as int))
}

/// The index of the first row with the least start.
pub open spec fn min_start_index(s: Seq<(u32, int, int)>) -> int
    decreases s.len(),
{
    if s.len() <= 1 {
        0
    } else {
        let m = min_start_index(s.drop_last());
        if s.last().1 < s[m].1 {
            s.len() - 1
        } else {
            m
        }
    }
}

pub proof fn lemma_min_start_index(s: Seq<(u32, int, int)>)
    requires
        s.len() > 0,
    ensures
        0 <= min_start_index(s) < s.len(),
    decreases s.len(),
{
    if s.len() > 1 {
        lemma_min_start_index(s.drop_last());
    }
}

/// The rows in order of where they start (the first of equal starts first).
pub open spec fn by_start(s: Seq<(u32, int, int)>) -> Seq<(u32, int, int)>
    decreases s.len(),
{
    if s.len() == 0 {
        Seq::empty()
    } else {
        proof {
            lemma_min_start_index(s);
        }
        let m = min_start_index(s);
        seq![s[m]] + by_start(s.remove(m))
    }
}

/// Whether a row number is among the rows.
pub open spec fn has_row(keys: Seq<(u32, int, int)>, r: u32) -> bool {
    exists|i: int| 0 <= i < keys.len() && (#[trigger] keys[i]).0 == r
}

/// The changed rows numbered below `bound` that are neither existing rows nor
/// written yet, joined in order, and the written marks after them.
pub open spec fn emit_below(changed: Keyed, bound: u32, keys: Seq<(u32, int, int)>, em: Seq<bool>, i: int) -> (Seq<char>, Seq<bool>)
    decreases changed.len() - i,
{
    if i < 0 || i >= changed.len() {
        (Seq::empty(), em)
    } else if changed[i].0 < bound && !has_row(keys, changed[i].0) && !em[i] {
        let p = emit_below(changed, bound, keys, em.update(i, true), i + 1);
        (changed[i].1 + p.0, p.1)
    } else {
        emit_below(changed, bound, keys, em, i + 1)
    }
}

/// The changed rows not written yet, joined in order.
pub open spec fn emit_rest(changed: Keyed, em: Seq<bool>, i: int) -> Seq<char>
    decreases changed.len() - i,
{
    if i < 0 || i >= changed.len() {
        Seq::empty()
    } else if !em[i] {
        changed[i].1 + emit_rest(changed, em, i + 1)
    } else {
        emit_rest(changed, em, i + 1)
    }
}

/// The index of the changed row numbered `k`, or -1.
pub open spec fn changed_index(changed: Keyed, k: u32, i: int) -> int
    decreases changed.len() - i,
{
    if i < 0 || i >= changed.len() {
        -1
    } else if changed[i].0 == k {
        i
    } else {
        changed_index(changed, k, i + 1)
    }
}

/// The content of `sheetData` from the `k`-th row (by start) on, the text
/// before it starting at `last`: each existing row kept or replaced by its
/// changed version, each new row written before the first existing row with
/// a greater number, the remaining new rows at the end.
pub open spec fn rebuild_rows(
    xml: Seq<char>,
    ord: Seq<(u32, int, int)>,
    keys: Seq<(u32, int, int)>,
    changed: Keyed,
    k: int,
    last: int,
    em: Seq<bool>,
    close: int,
) -> Seq<char>
    decreases ord.len() - k,
{
    if k < 0 || k >= ord.len() {
        sl(xml, last, close) + emit_rest(changed, em, 0)
    } else {
        let t = ord[k];
        let p = emit_below(changed, t.0, keys, em, 0);
        let j = changed_index(changed, t.0, 0);
        let mid = if j >= 0 {
            changed[j].1
        } else {
            sl(xml, t.1, t.2)
        };
        let em2 = if j >= 0 {
            p.1.update(j, true)
        } else {
            p.1
        };
        p.0 + sl(xml, last, t.1) + mid + rebuild_rows(xml, ord, keys, changed, k + 1, t.2, em2, close)
    }
}

/// A worksheet with its changed rows written into `sheetData` (a
/// `sheetData` element is made before `</worksheet>` when there is none).
pub open spec fn rebuild_spec(
    xml: Seq<char>,
    sd: Option<(int, int, int, int, bool)>,
    rows: Seq<RowView>,
    changed: Keyed,
) -> Result<Seq<char>, ErrorKind> {
    let keys = row_triples(rows);
    if changed.len() == 0 {
        Ok(xml)
    } else {
        let inner = match sd {
            Some(d) => if !d.4 {
                sl(xml, d.0, d.1) + rebuild_rows(
                    xml,
                    by_start(keys),
                    keys,
                    changed,
                    0,
                    d.1,
                    Seq::new(changed.len(), |i: int| false),
                    d.2,
                ) + sl(xml, d.2, d.3)
            } else {
                "<sheetData>"@ + keyed_concat(changed) + "</sheetData>"@
            },
            None => "<sheetData>"@ + keyed_concat(changed) + "</sheetData>"@,
        };
        match sd {
            Some(d) => Ok(sl(xml, 0, d.0) + inner + sl(xml, d.3, xml.len() as int)),
            None => {
                let p = find_seq_from(xml, "</worksheet>"@, 0);
                if p == -1 {
                    Err(ErrorKind::Unexpected)
                } else {
                    Ok(sl(xml, 0, p) + inner + sl(xml, p, xml.len() as int))
                }
            },
        }
    }
}

/// The rows' numbers and positions ordered by start.
fn sort_by_start(v: Vec<(u32, usize, usize)>) -> (r: Vec<(u32, usize, usize)>)
    ensures
        tri_view(r@) == by_start(tri_view(v@)),
{
    let mut rem = v;
    let mut out: Vec<(u32, usize, usize)> = Vec::new();
    let ghost orig = tri_view(rem@);
    let ghost target = by_start(orig);
    proof {
        assert(tri_view(out@) + by_start(tri_view(rem@)) =~= target);
    }
    while rem.len() > 0
        invariant
            tri_view(out@) + by_start(tri_view(rem@)) == target,
        decreases rem.len(),
    {
        let ghost rv = tri_view(rem@);
        let mut m: usize = 0;
        let mut k: usize = 1;
        while k < rem.len()
            invariant
                1 <= k <= rem.len(),
                m < k,
                rv == tri_view(rem@),
                m as int == min_start_index(rv.take(k as int)),
            decreases rem.len() - k,
        {
            proof {
                let t = rv.take(k + 1);
                assert(t.drop_last() =~= rv.take(k as int));
                assert(t.last() == rv[k as int]);
                assert(t[m as int] == rv[m as int]);
            }
            if rem[k].1 < rem[m].1 {
                m = k;
            }
            k = k + 1;
        }
        proof {
            assert(rv.take(rv.len() as int) =~= rv);
            lemma_min_start_index(rv);
        }
        let x = rem.remove(m);
        let ghost before = tri_view(out@);
        out.push(x);
        proof {
            assert(tri_view(rem@) =~= rv.remove(m as int));
            assert(by_start(rv) == seq![rv[m as int]] + by_start(rv.remove(m as int)));
            assert(tri_view(out@) =~= before.push(rv[m as int]));
            assert(tri_view(out@) + by_start(tri_view(rem@)) =~= before + by_start(rv));
        }
    }
    proof {
        assert(tri_view(rem@) =~= Seq::<(u32, int, int)>::empty());
        assert(tri_view(out@) + Seq::<(u32, int, int)>::empty() =~= tri_view(out@));
    }
    out
}

fn has_row_exec(keys: &Vec<(u32, usize, usize)>, r: u32) -> (b: bool)
    ensures
        b == has_row(tri_view(keys@), r),
{
    let mut i: usize = 0;
    while i < keys.len()
        invariant
            0 <= i <= keys.len(),
            forall|j: int| 0 <= j < i ==> (#[trigger] tri_view(keys@)[j]).0 != r,
        decreases keys.len() - i,
    {
        if keys[i].0 == r {
            proof {
                assert(tri_view(keys@)[i as int].0 == r);
            }
            return true;
        }
        i = i + 1;
    }
    false
}

fn emit_changed_below(
    out: &mut Vec<char>,
    changed: &Vec<(u32, String)>,
    bound: u32,
    keys: &Vec<(u32, usize, usize)>,
    em: &mut Vec<bool>,
)
    requires
        old(em)@.len() == changed@.len(),
    ensures
        final(out)@ == old(out)@ + emit_below(keyed_view(changed@), bound, tri_view(keys@), old(em)@, 0).0,
        final(em)@ == emit_below(keyed_view(changed@), bound, tri_view(keys@), old(em)@, 0).1,
        final(em)@.len() == changed@.len(),
{
    let ghost c = keyed_view(changed@);
    let ghost kv = tri_view(keys@);
    let ghost e0 = em@;
    let mut i: usize = 0;
    while i < changed.len()
        invariant
            0 <= i <= changed.len(),
            c == keyed_view(changed@),
            kv == tri_view(keys@),
            em@.len() == changed@.len(),
            emit_below(c, bound, kv, e0, 0).1 == emit_below(c, bound, kv, em@, i as int).1,
            old(out)@ + emit_below(c, bound, kv, e0, 0).0 == out@ + emit_below(c, bound, kv, em@, i as int).0,
        decreases changed.len() - i,
    {
        let r = changed[i].0;
        if r < bound && !has_row_exec(keys, r) && !em[i] {
            let ghost e1 = em@;
            let ghost rest = emit_below(c, bound, kv, e1.update(i as int, true), i + 1);
            let ghost before = out@;
            let piece = str_chars(changed[i].1.as_str());
            push_all(out, &piece);
            em.set(i, true);
            proof {
                assert(em@ =~= e1.update(i as int, true));
                assert(emit_below(c, bound, kv, e1, i as int) == (c[i as int].1 + rest.0, rest.1));
                assert(out@ + rest.0 =~= before + (c[i as int].1 + rest.0));
            }
        }
        i = i + 1;
    }
    proof {
        assert(out@ + Seq::<char>::empty() =~= out@);
    }
}

fn emit_changed_rest(out: &mut Vec<char>, changed: &Vec<(u32, String)>, em: &Vec<bool>)
    requires
        em@.len() == changed@.len(),
    ensures
        final(out)@ == old(out)@ + emit_rest(keyed_view(changed@), em@, 0),
{
    let ghost c = keyed_view(changed@);
    let mut i: usize = 0;
    while i < changed.len()
        invariant
            0 <= i <= changed.len(),
            c == keyed_view(changed@),
            em@.len() == changed@.len(),
            old(out)@ + emit_rest(c, em@, 0) == out@ + emit_rest(c, em@, i as int),
        decreases changed.len() - i,
    {
        if !em[i] {
            let ghost before = out@;
            let piece = str_chars(changed[i].1.as_str());
            push_all(out, &piece);
            proof {
                assert(out@ + emit_rest(c, em@, i + 1) =~= before + (c[i as int].1 + emit_rest(c, em@, i + 1)));
            }
        }
        i = i + 1;
    }
    proof {
        assert(out@ + Seq::<char>::empty() =~= out@);
    }
}

fn changed_index_exec(changed: &Vec<(u32, String)>, k: u32) -> (r: Option<usize>)
    ensures
        changed_index(keyed_view(changed@), k, 0) == match r {
            Some(j) => j as int,
            None => -1,
        },
        r is Some ==> r->0 < changed@.len(),
{
    let mut i: usize = 0;
    while i < changed.len()
        invariant
            0 <= i <= changed.len(),
            changed_index(keyed_view(changed@), k, 0) == changed_index(keyed_view(changed@), k, i as int),
        decreases changed.len() - i,
    {
        if changed[i].0 == k {
            return Some(i);
        }
        i = i + 1;
    }
    None
}

/// `rebuild_xlsx_sheet_data`: the worksheet with its changed rows written
/// into `sheetData`.
pub fn rebuild_xlsx_sheet_data(
    xml: &str,
    sheet_data: Option<XlsxSheetDataSpan>,
    row_spans: &Vec<XlsxRowSpan>,
    changed_rows: &Vec<(u32, String)>,
) -> (r: CliResult<String>)
    ensures
        match rebuild_spec(xml@, opt_span_view(sheet_data), rows_view(row_spans@), keyed_view(changed_rows@)) {
            Err(k) => r is Err && r->Err_0.kind == k,
            Ok(v) => r is Ok && r->Ok_0@ == v,
        },
{
    if changed_rows.len() == 0 {
        return Ok(to_string(xml));
    }
    let xv = str_chars(xml);
    let mut keys: Vec<(u32, usize, usize)> = Vec::new();
    let mut q: usize = 0;
    while q < row_spans.len()
        invariant
            0 <= q <= row_spans.len(),
            tri_view(keys@) =~= row_triples(rows_view(row_spans@)).take(q as int),
        decreases row_spans.len() - q,
    {
        let ghost before = tri_view(keys@);
        keys.push((row_spans[q].row, row_spans[q].start, row_spans[q].end));
        proof {
            let rt = row_triples(rows_view(row_spans@));
            assert(rt[q as int] == (row_spans@[q as int].row, row_spans@[q as int].start as int, row_spans@[q as int].end as int));
            assert(tri_view(keys@) =~= before.push(rt[q as int]));
            assert(rt.take(q + 1) =~= rt.take(q as int).push(rt[q as int]));
        }
        q = q + 1;
    }
    proof {
        assert(row_triples(rows_view(row_spans@)).take(row_spans@.len() as int) =~= row_triples(rows_view(row_spans@)));
    }
    let ghost c = keyed_view(changed_rows@);
    let ghost kv = tri_view(keys@);
    let mut inner: Vec<char> = Vec::new();
    let full = match sheet_data {
        Some(d) => !d.empty,
        None => false,
    };
    if full {
        let d = sheet_data.unwrap();
        let ord = sort_by_start(clone_triples(&keys));
        push_slice(&mut inner, &xv, d.start, d.open_end);
        let ghost lead = inner@;
        let mut em: Vec<bool> = Vec::new();
        let mut z: usize = 0;
        while z < changed_rows.len()
            invariant
                0 <= z <= changed_rows.len(),
                em@ =~= Seq::new(z as nat, |i: int| false),
            decreases changed_rows.len() - z,
        {
            em.push(false);
            z = z + 1;
        }
        let ghost em0 = em@;
        let mut last = d.open_end;
        let mut k: usize = 0;
        while k < ord.len()
            invariant
                0 <= k <= ord.len(),
                c == keyed_view(changed_rows@),
                kv == tri_view(keys@),
                em@.len() == changed_rows@.len(),
                lead + rebuild_rows(xml@, tri_view(ord@), kv, c, 0, d.open_end as int, em0, d.close_start as int)
                    == inner@ + rebuild_rows(xml@, tri_view(ord@), kv, c, k as int, last as int, em@, d.close_start as int),
                xv@ == xml@,
            decreases ord.len() - k,
        {
            let t = ord[k];
            let ghost e1 = em@;
            let ghost before = inner@;
            emit_changed_below(&mut inner, changed_rows, t.0, &keys, &mut em);
            let ghost after_pre = inner@;
            let ghost p = emit_below(c, t.0, kv, e1, 0);
            push_slice(&mut inner, &xv, last, t.1);
            match changed_index_exec(changed_rows, t.0) {
                Some(j) => {
                    let piece = str_chars(changed_rows[j].1.as_str());
                    push_all(&mut inner, &piece);
                    em.set(j, true);
                },
                None => {
                    push_slice(&mut inner, &xv, t.1, t.2);
                },
            }
            proof {
                let rest = rebuild_rows(xml@, tri_view(ord@), kv, c, k + 1, t.2 as int, em@, d.close_start as int);
                assert(tri_view(ord@)[k as int] == (t.0, t.1 as int, t.2 as int));
                assert(inner@ + rest =~= before + rebuild_rows(xml@, tri_view(ord@), kv, c, k as int, last as int, e1, d.close_start as int));
            }
            last = t.2;
            k = k + 1;
        }
        push_slice(&mut inner, &xv, last, d.close_start);
        emit_changed_rest(&mut inner, changed_rows, &em);
        push_slice(&mut inner, &xv, d.close_start, d.end);
        proof {
            assert(tri_view(ord@) == by_start(kv));
        }
    } else {
        let a = str_chars("<sheetData>");
        push_all(&mut inner, &a);
        concat_keyed(changed_rows, &mut inner);
        let b = str_chars("</sheetData>");
        push_all(&mut inner, &b);
    }
    let mut out: Vec<char> = Vec::new();
    match sheet_data {
        Some(d) => {
            push_slice(&mut out, &xv, 0, d.start);
            push_all(&mut out, &inner);
            push_slice(&mut out, &xv, d.end, xv.len());
        },
        None => {
            let pat = str_chars("</worksheet>");
            match vec_find_seq(&xv, &pat, 0) {
                None => {
                    return Err(CliError::unexpected(to_string("worksheet has no closing tag")));
                },
                Some(p) => {
                    proof {
                        crate::text::lemma_find_seq_from(xv@, pat@, 0);
                    }
                    push_slice(&mut out, &xv, 0, p);
                    push_all(&mut out, &inner);
                    push_slice(&mut out, &xv, p, xv.len());
                },
            }
        },
    }
    Ok(string_from_chars(out.as_slice()))
}

fn clone_triples(v: &Vec<(u32, usize, usize)>) -> (r: Vec<(u32, usize, usize)>)
    ensures
        r@ == v@,
{
    let mut out: Vec<(u32, usize, usize)> = Vec::new();
    let mut i: usize = 0;
    while i < v.len()
        invariant
            0 <= i <= v.len(),
            out@ =~= v@.take(i as int),
        decreases v.len() - i,
    {
        out.push(v[i]);
        i = i + 1;
    }
    proof {
        assert(v@.take(v@.len() as int) =~= v@);
    }
    out
}


// ---------------------------------------------------------------------------
// Merged cells and the used range
// ---------------------------------------------------------------------------

pub open spec fn intersects(a: RangeBounds, b: RangeBounds) -> bool {
    a.lo_col() <= b.hi_col() && a.hi_col() >= b.lo_col() && a.lo_row() <= b.hi_row() && a.hi_row() >= b.lo_row()
}

/// The merged ranges from token `i` on: an error at the first one that
/// cannot be read or that meets `bounds`.
pub open spec fn merge_walk(s: Seq<char>, toks: Seq<CharToken>, i: int, bounds: RangeBounds) -> Result<(), ErrorKind>
    decreases toks.len() - i,
{
    if i < 0 || i >= toks.len() {
        Ok(())
    } else {
        let t = toks[i];
        if tok_is(t, true, true, false, "mergeCell"@) {
            match attr_lookup(tag_attrs(s, t), "ref"@) {
                None => merge_walk(s, toks, i + 1, bounds),
                Some(r) => match range_spec(r) {
                    None => Err(ErrorKind::InvalidArgs),
                    Some(m) => if intersects(bounds, m) {
                        Err(ErrorKind::InvalidArgs)
                    } else {
                        merge_walk(s, toks, i + 1, bounds)
                    },
                },
            }
        } else {
            merge_walk(s, toks, i + 1, bounds)
        }
    }
}

/// Whether a write to `bounds` is refused for meeting a merged range (or for
/// an unreadable worksheet or merged range).
pub open spec fn merge_check_spec(xml: Seq<char>, bounds: RangeBounds) -> Result<(), ErrorKind> {
    match char_tokens_spec(xml) {
        None => Err(ErrorKind::Unexpected),
        Some(p) => match merge_walk(xml, p.0, 0, bounds) {
            Err(k) => Err(k),
            Ok(_) => if p.1 {
                Err(ErrorKind::Unexpected)
            } else {
                Ok(())
            },
        },
    }
}

/// `reject_xlsx_merged_cell_intersection`: refuses a write whose range meets
/// a merged range of the worksheet.
pub fn reject_xlsx_merged_cell_intersection(xml: &str, bounds: RangeBounds) -> (r: CliResult<()>)
    ensures
        match merge_check_spec(xml@, bounds) {
            Err(k) => r is Err && r->Err_0.kind == k,
            Ok(_) => r is Ok,
        },
{
    let (toks, failed) = char_tokens(xml)?;
    let sv = str_chars(xml);
    let mut i: usize = 0;
    while i < toks.len()
        invariant
            0 <= i <= toks.len(),
            sv@ == xml@,
            char_tokens_spec(xml@) is Some,
            char_tokens_spec(xml@).unwrap().0 == toks@,
            tokens_well_formed(toks@, xml@.len() as int),
            merge_walk(xml@, toks@, 0, bounds) == merge_walk(xml@, toks@, i as int, bounds),
        decreases toks.len() - i,
    {
        let t = &toks[i];
        proof {
            assert(t.start <= t.end <= xml@.len());
        }
        if (t.kind == XmlTokenKind::Start || t.kind == XmlTokenKind::Empty) && str_eq(
            local_name(t.name.as_str()).as_str(),
            "mergeCell",
        ) {
            let attrs = token_attrs(&sv, t);
            if let Some(rf) = attr_get(&attrs, "ref") {
                let merged = parse_range(rf.as_str())?;
                if ranges_intersect(bounds, merged) {
                    let a = range_bounds_ref(bounds);
                    let b = range_bounds_ref(merged);
                    return Err(CliError::invalid_args(concat3(
                        "range write intersects merged cells: ",
                        a.as_str(),
                        concat2_owned(" intersects ", b.as_str()).as_str(),
                    )));
                }
            }
        }
        i = i + 1;
    }
    if failed {
        return Err(CliError::unexpected(to_string("invalid worksheet XML")));
    }
    Ok(())
}

fn concat2_owned(a: &str, b: &str) -> (r: String)
    ensures
        r@ == a@ + b@,
{
    crate::text::concat2(a, b)
}

/// The least and greatest row and column of the cells with a readable `r`
/// among the first `n` tokens, starting from `(u32::MAX, 0, u32::MAX, 0)`.
pub open spec fn used_acc(s: Seq<char>, toks: Seq<CharToken>, n: int) -> (u32, u32, u32, u32)
    decreases n,
{
    if n <= 0 || n > toks.len() {
        (u32::MAX, 0, u32::MAX, 0)
    } else {
        let a = used_acc(s, toks, n - 1);
        let t = toks[n - 1];
        if tok_is(t, true, true, false, "c"@) {
            match attr_lookup(tag_attrs(s, t), "r"@) {
                Some(addr) => match cell_ref_spec(addr) {
                    Some(cr) => (
                        if cr.1 < a.0 {
                            cr.1
                        } else {
                            a.0
                        },
                        if cr.1 > a.1 {
                            cr.1
                        } else {
                            a.1
                        },
                        if cr.0 < a.2 {
                            cr.0
                        } else {
                            a.2
                        },
                        if cr.0 > a.3 {
                            cr.0
                        } else {
                            a.3
                        },
                    ),
                    None => a,
                },
                None => a,
            }
        } else {
            a
        }
    }
}

/// The range that the worksheet's cell references span, as `A1:C3`; none
/// when no cell has a row.
pub open spec fn used_range_spec(xml: Seq<char>) -> Option<Seq<char>> {
    match char_tokens_spec(xml) {
        None => None,
        Some(p) => {
            let a = used_acc(xml, p.0, p.0.len() as int);
            if a.1 == 0 {
                None
            } else {
                Some(column_letters(a.2 as nat) + decimal(a.0 as nat) + ":"@ + column_letters(a.3 as nat) + decimal(a.1 as nat))
            }
        },
    }
}

/// `xlsx_used_range_from_cell_refs`: the range the worksheet's cells span.
pub fn xlsx_used_range_from_cell_refs(xml: &str) -> (r: Option<String>)
    ensures
        match used_range_spec(xml@) {
            None => r is None,
            Some(v) => r is Some && r->0@ == v,
        },
{
    let (toks, _failed) = match char_tokens(xml) {
        Ok(p) => p,
        Err(_) => {
            return None;
        },
    };
    let sv = str_chars(xml);
    let mut min_row: u32 = u32::MAX;
    let mut max_row: u32 = 0;
    let mut min_col: u32 = u32::MAX;
    let mut max_col: u32 = 0;
    let mut i: usize = 0;
    while i < toks.len()
        invariant
            0 <= i <= toks.len(),
            sv@ == xml@,
            tokens_well_formed(toks@, xml@.len() as int),
            (min_row, max_row, min_col, max_col) == used_acc(xml@, toks@, i as int),
        decreases toks.len() - i,
    {
        let t = &toks[i];
        proof {
            assert(t.start <= t.end <= xml@.len());
        }
        if (t.kind == XmlTokenKind::Start || t.kind == XmlTokenKind::Empty) && str_eq(local_name(t.name.as_str()).as_str(), "c") {
            let attrs = token_attrs(&sv, t);
            if let Some(addr) = attr_get(&attrs, "r") {
                if let Ok((col, row)) = parse_cell_ref(addr.as_str()) {
                    if row < min_row {
                        min_row = row;
                    }
                    if row > max_row {
                        max_row = row;
                    }
                    if col < min_col {
                        min_col = col;
                    }
                    if col > max_col {
                        max_col = col;
                    }
                }
            }
        }
        i = i + 1;
    }
    if max_row == 0 {
        None
    } else {
        let a = col_name(min_col);
        let b = u32_to_string(min_row);
        let c = col_name(max_col);
        let d = u32_to_string(max_row);
        Some(crate::text::concat5(a.as_str(), b.as_str(), ":", c.as_str(), d.as_str()))
    }
}


// ---------------------------------------------------------------------------
// Clearing cells, and whether a cell is there
// ---------------------------------------------------------------------------

/// What clearing a range reports: how many cells were cleared, their
/// references, and whether a formula cell was among them.
#[derive(Debug)]
pub struct XlsxCellsClearStats {
    pub cleared: usize,
    pub refs: Vec<String>,
    pub formula_invalidated: bool,
}

/// The cells of a row as texts keyed by column.
pub open spec fn cells_keyed(cells: Seq<CellView>) -> Keyed {
    Seq::new(cells.len(), |i: int| (cells[i].col, cells[i].xml))
}

/// Whether a cell carries a non-empty style index `s`.
pub open spec fn has_style(attrs: Entries) -> bool {
    match map_get(attrs, "s"@) {
        Some(v) => v.len() > 0,
        None => false,
    }
}

/// An emptied cell that keeps its other attributes.
pub open spec fn empty_cell_xml(addr: Seq<char>, attrs: Entries) -> Seq<char> {
    seq!['<', 'c'] + render_attrs_spec(empty_cell_attrs(addr, Some(attrs))) + "/>"@
}

/// Clearing the cells of a row from the `j`-th on that fall in the range's
/// columns: a styled cell becomes an empty cell keeping its style, any other
/// is dropped; the references cleared and whether a formula was among them.
pub open spec fn clear_cells(
    row: u32,
    cells: Seq<CellView>,
    b: RangeBounds,
    j: int,
    rendered: Keyed,
    refs: Seq<Seq<char>>,
    formula: bool,
) -> (Keyed, Seq<Seq<char>>, bool)
    decreases cells.len() - j,
{
    if j < 0 || j >= cells.len() {
        (rendered, refs, formula)
    } else {
        let c = cells[j];
        if b.lo_col() <= c.col <= b.hi_col() {
            let addr = cell_text(c.col, row);
            let r2 = if has_style(c.attrs) {
                keyed_insert(rendered, c.col, empty_cell_xml(addr, c.attrs))
            } else {
                keyed_remove(rendered, c.col)
            };
            clear_cells(row, cells, b, j + 1, r2, refs.push(addr), formula || c.has_formula)
        } else {
            clear_cells(row, cells, b, j + 1, rendered, refs, formula)
        }
    }
}

/// Clearing the range in the rows from the `k`-th on: the rewritten rows by
/// number, the references cleared and whether a formula was among them.
pub open spec fn clear_rows(
    rows: Seq<RowView>,
    b: RangeBounds,
    k: int,
    changed: Keyed,
    refs: Seq<Seq<char>>,
    formula: bool,
) -> (Keyed, Seq<Seq<char>>, bool)
    decreases rows.len() - k,
{
    if k < 0 || k >= rows.len() {
        (changed, refs, formula)
    } else {
        let r = rows[k];
        if b.lo_row() <= r.row <= b.hi_row() {
            let c = clear_cells(r.row, r.cells, b, 0, cells_keyed(r.cells), refs, formula);
            let changed2 = if c.1.len() > refs.len() {
                keyed_insert(changed, r.row, row_xml_spec(r.row, r.attrs, c.0, Seq::empty()))
            } else {
                changed
            };
            clear_rows(rows, b, k + 1, changed2, c.1, c.2)
        } else {
            clear_rows(rows, b, k + 1, changed, refs, formula)
        }
    }
}

/// The worksheet with a range's cells cleared, and what was cleared.
pub open spec fn clear_spec(xml: Seq<char>, b: RangeBounds) -> Result<(Seq<char>, Seq<Seq<char>>, bool), ErrorKind> {
    match sheet_data_span_spec(xml) {
        Err(k) => Err(k),
        Ok(sd) => match row_spans_spec(xml, sd) {
            Err(k) => Err(k),
            Ok(rows) => {
                let c = clear_rows(rows, b, 0, Seq::empty(), Seq::empty(), false);
                match rebuild_spec(xml, sd, rows, c.0) {
                    Err(k) => Err(k),
                    Ok(u) => Ok((replace_dimension_spec(u, used_range_spec(u)), c.1, c.2)),
                }
            },
        },
    }
}

pub fn cells_to_keyed_pub(cells: &Vec<XlsxCellSpan>) -> (r: Vec<(u32, String)>)
    ensures
        keyed_view(r@) == cells_keyed(cells_view(cells@)),
{
    let mut out: Vec<(u32, String)> = Vec::new();
    let mut i: usize = 0;
    while i < cells.len()
        invariant
            0 <= i <= cells.len(),
            keyed_view(out@) =~= cells_keyed(cells_view(cells@)).take(i as int),
        decreases cells.len() - i,
    {
        let ghost before = keyed_view(out@);
        out.push((cells[i].col, cells[i].xml.clone()));
        proof {
            assert(keyed_view(out@) =~= before.push((cells@[i as int].col, cells@[i as int].xml@)));
            assert(cells_keyed(cells_view(cells@)).take(i + 1) =~= cells_keyed(cells_view(cells@)).take(i as int).push(
                cells_keyed(cells_view(cells@))[i as int],
            ));
        }
        i = i + 1;
    }
    proof {
        assert(cells_keyed(cells_view(cells@)).take(cells@.len() as int) =~= cells_keyed(cells_view(cells@)));
    }
    out
}

pub open spec fn strs_of(v: Seq<String>) -> Seq<Seq<char>> {
    Seq::new(v.len(), |i: int| v[i]@)
}

fn clear_row_cells(row: &XlsxRowSpan, b: RangeBounds, refs: &mut Vec<String>, formula: &mut bool) -> (r: Vec<(u32, String)>)
    ensures
        ({
            let c = clear_cells(row.row, cells_view(row.cells@), b, 0, cells_keyed(cells_view(row.cells@)), strs_of(old(refs)@), *old(formula));
            keyed_view(r@) == c.0 && strs_of(final(refs)@) == c.1 && *final(formula) == c.2
        }),
{
    let ghost cv = cells_view(row.cells@);
    let mut rendered = cells_to_keyed_pub(&row.cells);
    let ghost start = (keyed_view(rendered@), strs_of(refs@), *formula);
    let mut j: usize = 0;
    while j < row.cells.len()
        invariant
            0 <= j <= row.cells.len(),
            cv == cells_view(row.cells@),
            clear_cells(row.row, cv, b, 0, start.0, start.1, start.2) == clear_cells(
                row.row,
                cv,
                b,
                j as int,
                keyed_view(rendered@),
                strs_of(refs@),
                *formula,
            ),
        decreases row.cells.len() - j,
    {
        let c = &row.cells[j];
        if b.min_col() <= c.col && c.col <= b.max_col() {
            let cc = col_name(c.col);
            let rr = u32_to_string(row.row);
            let addr = crate::text::concat2(cc.as_str(), rr.as_str());
            let styled = match c.attrs.get("s") {
                Some(v) => str_chars(v.as_str()).len() > 0,
                None => false,
            };
            if styled {
                let x = render_empty_xlsx_cell_with_attrs(addr.as_str(), Some(&c.attrs));
                keyed_put(&mut rendered, c.col, x);
            } else {
                keyed_take(&mut rendered, c.col);
            }
            let ghost before = strs_of(refs@);
            refs.push(addr);
            proof {
                assert(strs_of(refs@) =~= before.push(cell_text(c.col, row.row)));
            }
            if c.has_formula {
                *formula = true;
            }
        }
        j = j + 1;
    }
    rendered
}

/// `clear_xlsx_cells_in_sheet_xml`: the worksheet with the range's cells
/// cleared (styled cells kept empty), the changed rows rewritten and the
/// dimension updated.
pub fn clear_xlsx_cells_in_sheet_xml(xml: &str, bounds: RangeBounds) -> (r: CliResult<(String, XlsxCellsClearStats)>)
    ensures
        match clear_spec(xml@, bounds) {
            Err(k) => r is Err && r->Err_0.kind == k,
            Ok(v) => r is Ok && r->Ok_0.0@ == v.0 && strs_of(r->Ok_0.1.refs@) == v.1 && r->Ok_0.1.cleared
                == v.1.len() && r->Ok_0.1.formula_invalidated == v.2,
        },
{
    let sd = xlsx_sheet_data_span(xml)?;
    let rows = parse_xlsx_row_spans(xml, sd)?;
    let ghost rv = rows_view(rows@);
    let mut changed: Vec<(u32, String)> = Vec::new();
    let mut refs: Vec<String> = Vec::new();
    let mut formula = false;
    let mut k: usize = 0;
    proof {
        assert(keyed_view(changed@) =~= Seq::<(u32, Seq<char>)>::empty());
        assert(strs_of(refs@) =~= Seq::<Seq<char>>::empty());
    }
    while k < rows.len()
        invariant
            0 <= k <= rows.len(),
            rv == rows_view(rows@),
            clear_rows(rv, bounds, 0, Seq::empty(), Seq::empty(), false) == clear_rows(
                rv,
                bounds,
                k as int,
                keyed_view(changed@),
                strs_of(refs@),
                formula,
            ),
        decreases rows.len() - k,
    {
        let row = &rows[k];
        if bounds.min_row() <= row.row && row.row <= bounds.max_row() {
            let before = refs.len();
            let rendered = clear_row_cells(row, bounds, &mut refs, &mut formula);
            if refs.len() > before {
                let x = render_xlsx_row(row.row, Some(row), &rendered);
                keyed_put(&mut changed, row.row, x);
            }
        }
        k = k + 1;
    }
    let updated = rebuild_xlsx_sheet_data(xml, sd, &rows, &changed)?;
    let used = xlsx_used_range_from_cell_refs(updated.as_str());
    let out = match used {
        Some(u) => replace_xlsx_dimension(updated.as_str(), Some(u.as_str())),
        None => replace_xlsx_dimension(updated.as_str(), None),
    };
    let cleared = refs.len();
    Ok((out, XlsxCellsClearStats { cleared, refs, formula_invalidated: formula }))
}

/// Whether a row of that number has a cell of that column.
pub open spec fn has_cell(rows: Seq<RowView>, col: u32, row: u32) -> bool {
    exists|i: int, j: int|
        0 <= i < rows.len() && (#[trigger] rows[i]).row == row && 0 <= j < rows[i].cells.len() && (
        #[trigger] rows[i].cells[j]).col == col
}

/// Whether the worksheet has a cell element at a reference.
pub open spec fn cell_exists_spec(xml: Seq<char>, cell_ref: Seq<char>) -> Result<bool, ErrorKind> {
    match cell_ref_spec(cell_ref) {
        None => Err(ErrorKind::InvalidArgs),
        Some(cr) => match sheet_data_span_spec(xml) {
            Err(k) => Err(k),
            Ok(sd) => match row_spans_spec(xml, sd) {
                Err(k) => Err(k),
                Ok(rows) => Ok(has_cell(rows, cr.0, cr.1)),
            },
        },
    }
}

/// `xlsx_cell_exists_in_sheet_xml`: whether the worksheet has a cell at a
/// reference.
pub fn xlsx_cell_exists_in_sheet_xml(sheet_xml: &str, cell_ref: &str) -> (r: CliResult<bool>)
    ensures
        match cell_exists_spec(sheet_xml@, cell_ref@) {
            Err(k) => r is Err && r->Err_0.kind == k,
            Ok(v) => r is Ok && r->Ok_0 == v,
        },
{
    let (col, row) = parse_cell_ref(cell_ref)?;
    let sd = xlsx_sheet_data_span(sheet_xml)?;
    let rows = parse_xlsx_row_spans(sheet_xml, sd)?;
    let ghost rv = rows_view(rows@);
    proof {
        assert(sheet_data_span_spec(sheet_xml@) == Ok::<Option<(int, int, int, int, bool)>, ErrorKind>(opt_span_view(sd)));
    }
    let mut i: usize = 0;
    while i < rows.len()
        invariant
            0 <= i <= rows.len(),
            rv == rows_view(rows@),
            cell_ref_spec(cell_ref@) == Some((col, row)),
            sheet_data_span_spec(sheet_xml@) == Ok::<Option<(int, int, int, int, bool)>, ErrorKind>(opt_span_view(sd)),
            row_spans_spec(sheet_xml@, opt_span_view(sd)) == Ok::<Seq<RowView>, ErrorKind>(rv),
            forall|a: int, b: int|
                0 <= a < i && (#[trigger] rv[a]).row == row && 0 <= b < rv[a].cells.len() ==> (#[trigger] rv[a].cells[b]).col != col,
        decreases rows.len() - i,
    {
        if rows[i].row == row {
            let mut j: usize = 0;
            while j < rows[i].cells.len()
                invariant
                    0 <= j <= rows@[i as int].cells@.len(),
                    i < rows.len(),
                    rv == rows_view(rows@),
                    rv[i as int].row == row,
                    cell_ref_spec(cell_ref@) == Some((col, row)),
                    sheet_data_span_spec(sheet_xml@) == Ok::<Option<(int, int, int, int, bool)>, ErrorKind>(opt_span_view(sd)),
                    row_spans_spec(sheet_xml@, opt_span_view(sd)) == Ok::<Seq<RowView>, ErrorKind>(rv),
                    forall|b: int| 0 <= b < j ==> (#[trigger] rv[i as int].cells[b]).col != col,
                decreases rows@[i as int].cells@.len() - j,
            {
                if rows[i].cells[j].col == col {
                    proof {
                        assert(rv[i as int].cells.len() == rows@[i as int].cells@.len());
                        assert(rv[i as int].cells[j as int].col == col);
                        assert(has_cell(rv, col, row));
                    }
                    return Ok(true);
                }
                j = j + 1;
            }
        }
        i = i + 1;
    }
    Ok(false)
}

} // verus!
