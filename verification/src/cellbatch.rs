//! Setting a batch of cells: the rectangle the batch covers and the matrix
//! of values that is written over it.
use vstd::prelude::*;
use crate::cellref::{cell_ref_spec, parse_cell_ref, RangeBounds};
use crate::error::{CliError, CliResult, ErrorKind};
use crate::matrix::{matrix_view, member_str, member_string, CellTuple, JsonValue};
use crate::mutation::{normalize_xlsx_cell_value_type, value_type_spec};
use crate::cellref::{cell_text, normalize_xlsx_cell_ref};
use crate::rangeset::{normalize_spec, normalize_xlsx_write_cell};
use crate::mutation::{cell_view, XlsxMatrixCell};
use crate::text::{ascii_lower_seq, trim, str_eq, to_string, concat5, debug_quoted, str_debug_text};
use crate::sheets::{
    resolve_sheet, resolve_sheet_by_sheet_id_unique, resolve_sheet_spec, sheet_id_error, sheet_view,
    unique_sheet_id_spec, WorkbookSheet,
};
use crate::mutation::{null_policy_ok, XlsxCellsSetTarget};
use crate::rangeset::{set_range_spec, set_xlsx_range_in_sheet_xml, stats_view, SetStats, XlsxRangeSetStats};
use crate::sheetxml::{cell_exists_spec, xlsx_cell_exists_in_sheet_xml};

verus! {

/// One cell of a batch: its reference, value type, value and formula.
#[derive(Debug)]
pub struct XlsxCellsSetBatchAssignment {
    pub cell_ref: String,
    pub value_type: String,
    pub value: String,
    pub formula: String,
}

/// Whether every reference of the first `n` assignments reads as a cell.
pub open spec fn refs_parse(a: Seq<XlsxCellsSetBatchAssignment>, n: int) -> bool {
    forall|k: int| 0 <= k < n ==> (#[trigger] cell_ref_spec(a[k].cell_ref@)) is Some
}

pub open spec fn coord(a: Seq<XlsxCellsSetBatchAssignment>, k: int) -> (u32, u32) {
    cell_ref_spec(a[k].cell_ref@).unwrap()
}

/// The smallest and largest column and row of the first `n` assignments,
/// as `(min_col, min_row, max_col, max_row)`, starting from
/// `(u32::MAX, u32::MAX, 0, 0)`.
pub open spec fn batch_corners(a: Seq<XlsxCellsSetBatchAssignment>, n: int) -> (u32, u32, u32, u32)
    decreases n,
{
    if n <= 0 {
        (u32::MAX, u32::MAX, 0, 0)
    } else {
        let p = batch_corners(a, n - 1);
        let c = coord(a, n - 1);
        (
            if c.0 < p.0 { c.0 } else { p.0 },
            if c.1 < p.1 { c.1 } else { p.1 },
            if c.0 > p.2 { c.0 } else { p.2 },
            if c.1 > p.3 { c.1 } else { p.3 },
        )
    }
}

/// The rectangle a batch covers.
pub open spec fn batch_bounds(a: Seq<XlsxCellsSetBatchAssignment>) -> RangeBounds {
    let p = batch_corners(a, a.len() as int);
    RangeBounds { start_col: p.0, start_row: p.1, end_col: p.2, end_row: p.3 }
}

/// The last of the first `n` assignments at a cell.
pub open spec fn last_at(a: Seq<XlsxCellsSetBatchAssignment>, col: int, row: int, n: int) -> Option<int>
    decreases n,
{
    if n <= 0 {
        None
    } else if coord(a, n - 1).0 == col && coord(a, n - 1).1 == row {
        Some(n - 1)
    } else {
        last_at(a, col, row, n - 1)
    }
}

/// The value a batch writes at a cell: the last assignment there, else an
/// empty null cell.
pub open spec fn batch_cell(a: Seq<XlsxCellsSetBatchAssignment>, col: int, row: int) -> CellTuple {
    match last_at(a, col, row, a.len() as int) {
        Some(k) => (a[k].value_type@, a[k].value@, a[k].formula@, false),
        None => ("empty"@, Seq::empty(), Seq::empty(), true),
    }
}

/// The matrix a batch writes over its rectangle, row by row.
pub open spec fn batch_matrix(a: Seq<XlsxCellsSetBatchAssignment>) -> Seq<Seq<CellTuple>> {
    let b = batch_bounds(a);
    Seq::new(
        (b.end_row - b.start_row + 1) as nat,
        |r: int| Seq::new((b.end_col - b.start_col + 1) as nat, |c: int| batch_cell(a, b.start_col + c, b.start_row + r)),
    )
}

/// How many assignments are formulas, among the first `n`.
pub open spec fn formula_count(a: Seq<XlsxCellsSetBatchAssignment>, n: int) -> nat
    decreases n,
{
    if n <= 0 {
        0
    } else {
        formula_count(a, n - 1) + (if a[n - 1].value_type@ == "formula"@ { 1nat } else { 0nat })
    }
}

/// What a batch writes: its rectangle, the matrix over it, and how many of
/// its cells are formulas.
#[derive(Debug)]
pub struct XlsxCellsSetBatchPlan {
    pub bounds: RangeBounds,
    pub matrix: Vec<Vec<XlsxMatrixCell>>,
    pub formula_count: usize,
}

proof fn lemma_corners(a: Seq<XlsxCellsSetBatchAssignment>, n: int)
    requires
        0 < n <= a.len(),
        refs_parse(a, n),
    ensures
        batch_corners(a, n).0 <= batch_corners(a, n).2,
        batch_corners(a, n).1 <= batch_corners(a, n).3,
        forall|k: int|
            0 <= k < n ==> batch_corners(a, n).0 <= (#[trigger] coord(a, k)).0 <= batch_corners(a, n).2 && batch_corners(a, n).1
                <= coord(a, k).1 <= batch_corners(a, n).3,
    decreases n,
{
    if n > 1 {
        lemma_corners(a, n - 1);
    }
}

/// `plan_xlsx_cells_set_batch`: the rectangle a batch of cells covers, the
/// matrix written over it (each cell the last assignment there, the rest
/// empty), and the number of formulas. A negative readback limit, and a
/// reference that does not read as a cell, are refused.
pub fn plan_xlsx_cells_set_batch(assignments: &Vec<XlsxCellsSetBatchAssignment>, readback_max_cells: i64) -> (r:
    CliResult<XlsxCellsSetBatchPlan>)
    requires
        assignments@.len() > 0,
        refs_parse(assignments@, assignments@.len() as int) ==> ({
            let b = batch_bounds(assignments@);
            (b.end_row - b.start_row + 1) * (b.end_col - b.start_col + 1) <= usize::MAX
        }),
    ensures
        r is Ok <==> readback_max_cells >= 0 && refs_parse(assignments@, assignments@.len() as int),
        readback_max_cells < 0 ==> r is Err && r->Err_0.message@ == "--readback-max-cells must be >= 0"@,
        r is Ok ==> r->Ok_0.bounds == batch_bounds(assignments@),
        r is Ok ==> matrix_view(r->Ok_0.matrix@) == batch_matrix(assignments@),
        r is Ok ==> r->Ok_0.formula_count == formula_count(assignments@, assignments@.len() as int),
        r is Err ==> r->Err_0.kind == ErrorKind::InvalidArgs,
{
    if readback_max_cells < 0 {
        return Err(CliError::invalid_args(to_string("--readback-max-cells must be >= 0")));
    }
    let n = assignments.len();
    let mut coords: Vec<(u32, u32)> = Vec::new();
    let mut min_col: u32 = 0xffff_ffff;
    let mut min_row: u32 = 0xffff_ffff;
    let mut max_col: u32 = 0;
    let mut max_row: u32 = 0;
    let mut formulas: usize = 0;
    let mut i: usize = 0;
    while i < n
        invariant
            n == assignments@.len(),
            readback_max_cells >= 0,
            0 <= i <= n,
            coords@.len() == i,
            refs_parse(assignments@, i as int),
            forall|k: int| 0 <= k < i ==> #[trigger] coords@[k] == coord(assignments@, k),
            batch_corners(assignments@, i as int) == (min_col, min_row, max_col, max_row),
            formulas == formula_count(assignments@, i as int),
            formulas <= i,
        decreases n - i,
    {
        let (col, row) = match parse_cell_ref(assignments[i].cell_ref.as_str()) {
            Ok(p) => p,
            Err(e) => {
                proof {
                    assert(!refs_parse(assignments@, n as int)) by {
                        assert(cell_ref_spec(assignments@[i as int].cell_ref@) is None);
                    }
                }
                return Err(e);
            },
        };
        if col < min_col {
            min_col = col;
        }
        if row < min_row {
            min_row = row;
        }
        if col > max_col {
            max_col = col;
        }
        if row > max_row {
            max_row = row;
        }
        if str_eq(assignments[i].value_type.as_str(), "formula") {
            formulas = formulas + 1;
        }
        coords.push((col, row));
        i = i + 1;
    }
    proof {
        lemma_corners(assignments@, n as int);
    }
    let bounds = RangeBounds { start_col: min_col, start_row: min_row, end_col: max_col, end_row: max_row };
    let rows: u32 = max_row - min_row;
    let cols: u32 = max_col - min_col;
    let ghost b = batch_bounds(assignments@);
    let ghost want = batch_matrix(assignments@);
    let mut matrix: Vec<Vec<XlsxMatrixCell>> = Vec::new();
    let mut r: u32 = 0;
    loop
        invariant_except_break
            matrix@.len() == r,
            forall|q: int| 0 <= q < r ==> (#[trigger] matrix@[q])@.len() == cols + 1,
            forall|q: int, c: int| 0 <= q < r && 0 <= c <= cols ==> cell_view(#[trigger] matrix@[q]@[c]) == want[q][c],
        invariant
            n == assignments@.len(),
            coords@.len() == n,
            forall|k: int| 0 <= k < n ==> #[trigger] coords@[k] == coord(assignments@, k),
            b == bounds,
            b == batch_bounds(assignments@),
            want == batch_matrix(assignments@),
            rows == b.end_row - b.start_row,
            cols == b.end_col - b.start_col,
            (rows + 1) * (cols + 1) <= usize::MAX,
            r <= rows,
            min_col == b.start_col,
            min_row == b.start_row,
            max_col == b.end_col,
            max_row == b.end_row,
        ensures
            matrix@.len() == rows + 1,
            forall|q: int| 0 <= q <= rows ==> (#[trigger] matrix@[q])@.len() == cols + 1,
            forall|q: int, c: int| 0 <= q <= rows && 0 <= c <= cols ==> cell_view(#[trigger] matrix@[q]@[c]) == want[q][c],
        decreases rows - r,
    {
        let mut line: Vec<XlsxMatrixCell> = Vec::new();
        let mut c: u32 = 0;
        loop
            invariant_except_break
                line@.len() == c,
                forall|j: int| 0 <= j < c ==> cell_view(#[trigger] line@[j]) == want[r as int][j],
            invariant
                n == assignments@.len(),
                coords@.len() == n,
                forall|k: int| 0 <= k < n ==> #[trigger] coords@[k] == coord(assignments@, k),
                b == bounds,
                b == batch_bounds(assignments@),
                want == batch_matrix(assignments@),
                rows == b.end_row - b.start_row,
                cols == b.end_col - b.start_col,
                r <= rows,
                c <= cols,
                min_col == b.start_col,
                min_row == b.start_row,
                max_col == b.end_col,
                max_row == b.end_row,
            ensures
                line@.len() == cols + 1,
                forall|j: int| 0 <= j <= cols ==> cell_view(#[trigger] line@[j]) == want[r as int][j],
            decreases cols - c,
        {
            let col = min_col + c;
            let row = min_row + r;
            let mut k: usize = n;
            let mut found: Option<usize> = None;
            while k > 0
                invariant
                    n == assignments@.len(),
                    coords@.len() == n,
                    forall|j: int| 0 <= j < n ==> #[trigger] coords@[j] == coord(assignments@, j),
                    k <= n,
                    found is None ==> last_at(assignments@, col as int, row as int, k as int) == last_at(assignments@, col as int, row as int, n as int),
                    found is Some ==> found->Some_0 < n && last_at(assignments@, col as int, row as int, n as int) == Some(found->Some_0 as int),
                decreases k,
            {
                if found.is_none() && coords[k - 1].0 == col && coords[k - 1].1 == row {
                    found = Some(k - 1);
                }
                k = k - 1;
            }
            let cell = match found {
                Some(j) => XlsxMatrixCell {
                    kind: assignments[j].value_type.clone(),
                    value: assignments[j].value.clone(),
                    formula: assignments[j].formula.clone(),
                    null: false,
                },
                None => {
                    let e1 = String::new();
                    let e2 = String::new();
                    proof {
                        assert(e1@ =~= Seq::<char>::empty());
                        assert(e2@ =~= Seq::<char>::empty());
                    }
                    XlsxMatrixCell { kind: to_string("empty"), value: e1, formula: e2, null: true }
                },
            };
            proof {
                assert(col as int == b.start_col + c);
                assert(row as int == b.start_row + r);
                assert(cell_view(cell) == batch_cell(assignments@, b.start_col + c, b.start_row + r));
                assert(want[r as int][c as int] == batch_cell(assignments@, b.start_col + c, b.start_row + r));
            }
            line.push(cell);
            if c == cols {
                break;
            }
            c = c + 1;
        }
        proof {
            assert(line@.len() == cols + 1);
        }
        matrix.push(line);
        if r == rows {
            break;
        }
        r = r + 1;
    }
    proof {
        assert(matrix_view(matrix@) =~= want) by {
            assert(matrix@.len() == rows + 1);
            assert forall|q: int| 0 <= q < matrix@.len() implies #[trigger] matrix_view(matrix@)[q] =~= want[q] by {
                assert(matrix@[q]@.len() == cols + 1);
            }
        }
    }
    Ok(XlsxCellsSetBatchPlan { bounds, matrix, formula_count: formulas })
}

/// The selector a set command resolves without a handle: `--sheet`, or the
/// first sheet.
pub open spec fn set_sheet_selector(sheet: Option<&str>) -> Seq<char> {
    match sheet {
        Some(s) => s@,
        None => "1"@,
    }
}

/// The sheet a single-cell set writes (the sheet choice of `xlsx_cells_set`):
/// the one sheet with the handle's sheet id, quoted in errors as the cell
/// handle, else the sheet `--sheet` selects, the first sheet by default.
pub fn choose_xlsx_cells_set_sheet(sheets: &Vec<WorkbookSheet>, target: &XlsxCellsSetTarget, sheet: Option<&str>) -> (r:
    CliResult<WorkbookSheet>)
    ensures
        match target.handle_sheet_id {
            Some(id) => {
                &&& r is Ok <==> unique_sheet_id_spec(sheets@, id) is Ok
                &&& r is Ok ==> {
                    let i = unique_sheet_id_spec(sheets@, id)->Ok_0;
                    0 <= i < sheets@.len() && sheet_view(r->Ok_0) == sheet_view(sheets@[i])
                }
                &&& r is Err ==> r->Err_0.kind == ErrorKind::TargetNotFound
                    && r->Err_0.message@ == sheet_id_error(sheets@, id, "cell handle"@)
            },
            None => {
                &&& r is Ok <==> resolve_sheet_spec(sheets@, set_sheet_selector(sheet)) is Ok
                &&& r is Ok ==> {
                    let i = resolve_sheet_spec(sheets@, set_sheet_selector(sheet))->Ok_0;
                    0 <= i < sheets@.len() && sheet_view(r->Ok_0) == sheet_view(sheets@[i])
                }
                &&& r is Err ==> resolve_sheet_spec(sheets@, set_sheet_selector(sheet)) == Err::<int, ErrorKind>(
                    r->Err_0.kind,
                )
            },
        },
{
    match target.handle_sheet_id {
        Some(id) => resolve_sheet_by_sheet_id_unique(sheets, id, "cell handle"),
        None => match sheet {
            Some(s) => resolve_sheet(sheets, s),
            None => resolve_sheet(sheets, "1"),
        },
    }
}

/// The message for a handle whose cell is gone from the sheet.
pub open spec fn stale_cell_message(cell_ref: Seq<char>, sheet_name: Seq<char>) -> Seq<char> {
    "HANDLE_STALE: cell "@ + cell_ref + " no longer exists on sheet "@ + str_debug_text(sheet_name)
        + "; row/column structure may have shifted"@
}

/// The one cell a set command writes, as a 1x1 matrix.
pub open spec fn single_cell_matrix(value_type: Seq<char>, value: Seq<char>) -> (Seq<char>, Seq<char>, Seq<char>, bool) {
    (value_type, value, if value_type == "formula"@ { value } else { Seq::empty() }, false)
}

/// A matrix of one cell holding the value, with its number flag.
pub open spec fn one_cell(
    m: Seq<Vec<XlsxMatrixCell>>,
    o: Seq<Vec<bool>>,
    value_type: Seq<char>,
    value: Seq<char>,
    number_ok: bool,
) -> bool {
    &&& m.len() == 1 && m[0]@.len() == 1
    &&& cell_view(m[0]@[0]) == single_cell_matrix(value_type, value)
    &&& o.len() == 1 && o[0]@ == seq![number_ok]
}

/// The one-cell range at a reference.
pub open spec fn cell_bounds(cell_ref: Seq<char>) -> RangeBounds {
    let (col, row) = cell_ref_spec(cell_ref).unwrap();
    RangeBounds { start_col: col, start_row: row, end_col: col, end_row: row }
}

/// The edit of a single-cell set: the worksheet after the write, what the
/// write did, and whether the cell was created.
#[derive(Debug)]
pub struct XlsxCellsSetEdit {
    pub updated_xml: String,
    pub stats: XlsxRangeSetStats,
    pub created: bool,
}

/// What writing one cell does to a worksheet (the edit of `xlsx_cells_set`):
/// a handle whose cell is gone is refused as stale; otherwise the cell is
/// written as a 1x1 range with nulls skipped and formulas overwritten, and
/// it was created when the sheet had no cell there. `number_ok` says whether
/// the value reads as a finite floating-point number.
pub fn apply_xlsx_cells_set(
    sheet_xml: &str,
    sheet_name: &str,
    target: &XlsxCellsSetTarget,
    value_type: &str,
    value: &str,
    number_ok: bool,
) -> (r: CliResult<XlsxCellsSetEdit>)
    requires
        cell_ref_spec(target.cell_ref@) is Some,
    ensures
        match cell_exists_spec(sheet_xml@, target.cell_ref@) {
            Err(k) => r is Err && r->Err_0.kind == k,
            Ok(false) if target.from_handle => r is Err && r->Err_0.kind == ErrorKind::TargetNotFound
                && r->Err_0.message@ == stale_cell_message(target.cell_ref@, sheet_name@),
            Ok(exists) => exists|m: Seq<Vec<XlsxMatrixCell>>, o: Seq<Vec<bool>>|
                {
                    &&& one_cell(m, o, value_type@, value@, number_ok)
                    &&& match set_range_spec(sheet_xml@, cell_bounds(target.cell_ref@), m, o, "skip"@, true) {
                        Err(k) => r is Err && r->Err_0.kind == k,
                        Ok(v) => r is Ok && r->Ok_0.updated_xml@ == v.0 && stats_view(r->Ok_0.stats) == v.1
                            && r->Ok_0.created == !exists,
                    }
                },
        },
{
    let exists = xlsx_cell_exists_in_sheet_xml(sheet_xml, target.cell_ref.as_str())?;
    if target.from_handle && !exists {
        let q = debug_quoted(sheet_name);
        return Err(CliError::target_not_found(concat5(
            "HANDLE_STALE: cell ",
            target.cell_ref.as_str(),
            " no longer exists on sheet ",
            q.as_str(),
            "; row/column structure may have shifted",
        )));
    }
    let (col, row) = parse_cell_ref(target.cell_ref.as_str())?;
    let bounds = RangeBounds { start_col: col, start_row: row, end_col: col, end_row: row };
    let formula = if str_eq(value_type, "formula") {
        to_string(value)
    } else {
        String::new()
    };
    let cell = XlsxMatrixCell { kind: to_string(value_type), value: to_string(value), formula, null: false };
    let mut row_cells: Vec<XlsxMatrixCell> = Vec::new();
    row_cells.push(cell);
    let mut rows: Vec<Vec<XlsxMatrixCell>> = Vec::new();
    rows.push(row_cells);
    let mut ok_row: Vec<bool> = Vec::new();
    ok_row.push(number_ok);
    let mut oks: Vec<Vec<bool>> = Vec::new();
    oks.push(ok_row);
    proof {
        reveal_strlit("skip");
        reveal_strlit("formula");
        assert(trim("skip"@) =~= "skip"@);
        assert(ascii_lower_seq("skip"@) =~= "skip"@);
        assert(rows@[0]@ =~= seq![cell]);
        assert(oks@[0]@ =~= seq![number_ok]);
        assert(one_cell(rows@, oks@, value_type@, value@, number_ok));
        assert(crate::rangeset::cells_total(rows@, 0) == 0);
        assert(crate::rangeset::cells_total(rows@, 1) == 1);
        assert(crate::rangeset::matrix_fits(rows@, oks@, bounds));
    }
    let (updated_xml, stats) = set_xlsx_range_in_sheet_xml(sheet_xml, bounds, &rows, &oks, "skip", true)?;
    Ok(XlsxCellsSetEdit { updated_xml, stats, created: !exists })
}

/// What a cell held, as a read of the worksheet decodes it: its kind, its
/// text as shown, its stored value text and its formula.
#[derive(Debug)]
pub struct CellReadback {
    pub kind: String,
    pub display_value: String,
    pub raw_value: String,
    pub formula: String,
    pub has_formula: bool,
}

/// The type a set command reports a cell had.
pub open spec fn previous_type_spec(c: CellReadback) -> Option<Seq<char>> {
    if c.has_formula {
        Some("formula"@)
    } else if c.kind@ == "boolean"@ {
        Some("bool"@)
    } else if c.kind@ == "empty"@ {
        None
    } else {
        Some(c.kind@)
    }
}

/// `xlsx_cells_set_previous_type`.
pub fn xlsx_cells_set_previous_type(cell: &CellReadback) -> (r: Option<String>)
    ensures
        match previous_type_spec(*cell) {
            Some(t) => r is Some && r.unwrap()@ == t,
            None => r is None,
        },
{
    if cell.has_formula {
        Some(to_string("formula"))
    } else if str_eq(cell.kind.as_str(), "boolean") {
        Some(to_string("bool"))
    } else if str_eq(cell.kind.as_str(), "empty") {
        None
    } else {
        Some(to_string(cell.kind.as_str()))
    }
}

/// The value a set command reports a cell had: its formula, its text for a
/// string, else its stored value, a boolean as `1` or `0`.
pub open spec fn previous_value_spec(c: CellReadback) -> Seq<char> {
    if c.has_formula {
        c.formula@
    } else if c.kind@ == "string"@ {
        c.display_value@
    } else if c.raw_value@.len() > 0 {
        c.raw_value@
    } else if c.kind@ == "boolean"@ && c.display_value@ == "true"@ {
        "1"@
    } else if c.kind@ == "boolean"@ && c.display_value@ == "false"@ {
        "0"@
    } else {
        c.display_value@
    }
}

/// `xlsx_cells_set_previous_value`.
pub fn xlsx_cells_set_previous_value(cell: &CellReadback) -> (r: Option<String>)
    ensures
        r is Some && r.unwrap()@ == previous_value_spec(*cell),
{
    if cell.has_formula {
        Some(to_string(cell.formula.as_str()))
    } else if str_eq(cell.kind.as_str(), "string") {
        Some(to_string(cell.display_value.as_str()))
    } else if crate::text::str_chars(cell.raw_value.as_str()).len() > 0 {
        Some(to_string(cell.raw_value.as_str()))
    } else if str_eq(cell.kind.as_str(), "boolean") && str_eq(cell.display_value.as_str(), "true") {
        Some(to_string("1"))
    } else if str_eq(cell.kind.as_str(), "boolean") && str_eq(cell.display_value.as_str(), "false") {
        Some(to_string("0"))
    } else {
        Some(to_string(cell.display_value.as_str()))
    }
}

/// Whether the cell a set command writes existed, and its type and value
/// before the write, when not empty.
#[derive(Debug)]
pub struct XlsxCellsSetPrevious {
    pub exists: bool,
    pub previous_type: Option<String>,
    pub previous_value: Option<String>,
}

pub open spec fn nonempty_text(o: Option<Seq<char>>) -> Option<Seq<char>> {
    match o {
        Some(t) => if t.len() > 0 {
            Some(t)
        } else {
            None
        },
        None => None,
    }
}

pub open spec fn opt_string_view(o: Option<String>) -> Option<Seq<char>> {
    match o {
        Some(s) => Some(s@),
        None => None,
    }
}

fn keep_nonempty(o: Option<String>) -> (r: Option<String>)
    ensures
        opt_string_view(r) == nonempty_text(opt_string_view(o)),
{
    match o {
        Some(s) => if crate::text::str_chars(s.as_str()).len() > 0 {
            Some(s)
        } else {
            None
        },
        None => None,
    }
}

/// `xlsx_cells_set_previous`: what the cell held before a set, given whether
/// the sheet has a cell at the reference and what a read of the sheet
/// decoded there; empty type and value texts are left out.
pub fn xlsx_cells_set_previous(exists: bool, cell: Option<&CellReadback>) -> (r: XlsxCellsSetPrevious)
    ensures
        r.exists == exists,
        !exists ==> r.previous_type is None && r.previous_value is None,
        cell matches None ==> r.previous_type is None && r.previous_value is None,
        exists && cell is Some ==> opt_string_view(r.previous_type) == nonempty_text(previous_type_spec(*cell.unwrap()))
            && opt_string_view(r.previous_value) == nonempty_text(Some(previous_value_spec(*cell.unwrap()))),
{
    if !exists {
        return XlsxCellsSetPrevious { exists: false, previous_type: None, previous_value: None };
    }
    match cell {
        None => XlsxCellsSetPrevious { exists: true, previous_type: None, previous_value: None },
        Some(c) => {
            let t = xlsx_cells_set_previous_type(c);
            let v = xlsx_cells_set_previous_value(c);
            XlsxCellsSetPrevious { exists: true, previous_type: keep_nonempty(t), previous_value: keep_nonempty(v) }
        },
    }
}

/// One entry of a cells batch as its JSON gives it: the normalized cell
/// reference, the value type and the value (for a formula, the formula).
#[derive(Debug)]
pub struct XlsxCellsSetBatchEntry {
    pub cell_ref: String,
    pub value_type: String,
    pub value: String,
}

pub open spec fn entry_view(e: XlsxCellsSetBatchEntry) -> (Seq<char>, Seq<char>, Seq<char>) {
    (e.cell_ref@, e.value_type@, e.value@)
}

pub open spec fn entries_view(v: Seq<XlsxCellsSetBatchEntry>) -> Seq<(Seq<char>, Seq<char>, Seq<char>)> {
    v.map_values(|e: XlsxCellsSetBatchEntry| entry_view(e))
}

/// The cell reference an entry names: `ref`, else `cell`, whichever is a
/// non-empty string.
pub open spec fn entry_raw_ref(f: Seq<(String, JsonValue)>) -> Option<Seq<char>> {
    let r1 = member_str(f, "ref"@);
    let r2 = member_str(f, "cell"@);
    if r1 is Some && r1->0.len() > 0 {
        r1
    } else if r2 is Some && r2->0.len() > 0 {
        r2
    } else {
        None
    }
}

/// What one JSON entry of a cells batch gives, or `None` where it is
/// refused: not an object, no reference, a reference that is no cell, an
/// unknown type, both a value and a formula, or nothing to write.
pub open spec fn batch_entry_spec(e: JsonValue) -> Option<(Seq<char>, Seq<char>, Seq<char>)> {
    match e {
        JsonValue::Object(fields) => {
            let f = fields@;
            match entry_raw_ref(f) {
                None => None,
                Some(rr) => match cell_ref_spec(rr) {
                    None => None,
                    Some(c) => {
                        let t0 = match member_str(f, "type"@) {
                            Some(t) => t,
                            None => "string"@,
                        };
                        match value_type_spec(t0) {
                            None => None,
                            Some(t) => {
                                let v0 = match member_str(f, "value"@) {
                                    Some(v) => v,
                                    None => Seq::empty(),
                                };
                                match member_str(f, "formula"@) {
                                    Some(fm) => if v0.len() > 0 || fm.len() == 0 {
                                        None
                                    } else {
                                        Some((cell_text(c.0, c.1), "formula"@, fm))
                                    },
                                    None => if v0.len() == 0 {
                                        None
                                    } else {
                                        Some((cell_text(c.0, c.1), t, v0))
                                    },
                                }
                            },
                        }
                    },
                },
            }
        },
        _ => None,
    }
}

/// The entries a cells batch's JSON value gives: a non-empty array whose
/// every item is an entry; `None` where it is refused.
pub open spec fn batch_entries_spec(raw: JsonValue) -> Option<Seq<(Seq<char>, Seq<char>, Seq<char>)>> {
    match raw {
        JsonValue::Array(items) => if items@.len() == 0 || exists|k: int|
            0 <= k < items@.len() && #[trigger] batch_entry_spec(items@[k]) is None {
            None
        } else {
            Some(Seq::new(items@.len(), |k: int| batch_entry_spec(items@[k])->Some_0))
        },
        _ => None,
    }
}

fn batch_entry(e: &JsonValue) -> (r: Option<XlsxCellsSetBatchEntry>)
    ensures
        match batch_entry_spec(*e) {
            Some(v) => r is Some && entry_view(r->Some_0) == v,
            None => r is None,
        },
{
    proof {
        reveal_strlit("string");
        reveal_strlit("formula");
        reveal_strlit("");
    }
    let fields = match e {
        JsonValue::Object(f) => f,
        _ => {
            return None;
        },
    };
    let r1 = member_string(fields, "ref");
    let r2 = member_string(fields, "cell");
    let raw_ref = match r1 {
        Some(x) if crate::text::str_chars(x.as_str()).len() > 0 => x,
        _ => match r2 {
            Some(x) if crate::text::str_chars(x.as_str()).len() > 0 => x,
            _ => {
                return None;
            },
        },
    };
    let cell_ref = match normalize_xlsx_cell_ref(raw_ref.as_str(), "cell reference") {
        Ok(c) => c,
        Err(_) => {
            return None;
        },
    };
    let t0 = match member_string(fields, "type") {
        Some(t) => t,
        None => to_string("string"),
    };
    let t = match normalize_xlsx_cell_value_type(t0.as_str()) {
        Ok(t) => t,
        Err(_) => {
            return None;
        },
    };
    let v0 = match member_string(fields, "value") {
        Some(v) => v,
        None => String::new(),
    };
    let v0_len = crate::text::str_chars(v0.as_str()).len();
    match member_string(fields, "formula") {
        Some(fm) => {
            if v0_len > 0 || crate::text::str_chars(fm.as_str()).len() == 0 {
                None
            } else {
                Some(XlsxCellsSetBatchEntry { cell_ref, value_type: to_string("formula"), value: fm })
            }
        },
        None => {
            if v0_len == 0 {
                None
            } else {
                Some(XlsxCellsSetBatchEntry { cell_ref, value_type: t, value: v0 })
            }
        },
    }
}

/// The entries of a cells batch (the extraction of
/// `resolve_xlsx_cells_set_batch_assignments`) from its JSON value.
pub fn batch_entries_from_value(raw: &JsonValue) -> (r: CliResult<Vec<XlsxCellsSetBatchEntry>>)
    ensures
        match batch_entries_spec(*raw) {
            Some(v) => r is Ok && entries_view(r->Ok_0@) == v,
            None => r is Err && r->Err_0.kind == ErrorKind::InvalidArgs,
        },
{
    let items = match raw {
        JsonValue::Array(items) => items,
        _ => {
            return Err(CliError::invalid_args(to_string("invalid cells JSON: expected array")));
        },
    };
    if items.len() == 0 {
        return Err(CliError::invalid_args(to_string("cells batch cannot be empty")));
    }
    let mut out: Vec<XlsxCellsSetBatchEntry> = Vec::new();
    let mut k: usize = 0;
    while k < items.len()
        invariant
            0 <= k <= items@.len(),
            items@.len() > 0,
            *raw == JsonValue::Array(*items),
            out@.len() == k,
            forall|j: int| 0 <= j < k ==> #[trigger] batch_entry_spec(items@[j]) is Some && entry_view(out@[j])
                == batch_entry_spec(items@[j])->Some_0,
        decreases items@.len() - k,
    {
        match batch_entry(&items[k]) {
            Some(e) => {
                out.push(e);
            },
            None => {
                proof {
                    assert(batch_entry_spec(items@[k as int]) is None);
                }
                return Err(CliError::invalid_args(to_string("invalid cells batch entry")));
            },
        }
        k = k + 1;
    }
    proof {
        assert(entries_view(out@) =~= Seq::new(items@.len(), |j: int| batch_entry_spec(items@[j])->Some_0));
    }
    Ok(out)
}

pub type AssignView = (Seq<char>, Seq<char>, Seq<char>, Seq<char>);

pub type KeyedAssign = ((u32, u32), AssignView);

pub open spec fn assignment_view(a: XlsxCellsSetBatchAssignment) -> AssignView {
    (a.cell_ref@, a.value_type@, a.value@, a.formula@)
}

pub open spec fn keyed_view(v: Seq<((u32, u32), XlsxCellsSetBatchAssignment)>) -> Seq<KeyedAssign> {
    v.map_values(|e: ((u32, u32), XlsxCellsSetBatchAssignment)| (e.0, assignment_view(e.1)))
}

pub open spec fn assignments_view(v: Seq<XlsxCellsSetBatchAssignment>) -> Seq<AssignView> {
    v.map_values(|a: XlsxCellsSetBatchAssignment| assignment_view(a))
}

pub open spec fn key_below(a: (u32, u32), b: (u32, u32)) -> bool {
    a.0 < b.0 || (a.0 == b.0 && a.1 < b.1)
}

/// The first position from `j` on whose key is not below `k`.
pub open spec fn first_key_not_below(m: Seq<KeyedAssign>, k: (u32, u32), j: int) -> int
    decreases m.len() - j,
{
    if j < 0 || j >= m.len() {
        m.len() as int
    } else if !key_below(m[j].0, k) {
        j
    } else {
        first_key_not_below(m, k, j + 1)
    }
}

proof fn lemma_first_key_not_below(m: Seq<KeyedAssign>, k: (u32, u32), j: int)
    requires
        0 <= j <= m.len(),
    ensures
        j <= first_key_not_below(m, k, j) <= m.len(),
    decreases m.len() - j,
{
    if j < m.len() && key_below(m[j].0, k) {
        lemma_first_key_not_below(m, k, j + 1);
    }
}

/// A list kept in `(row, column)` order with `(k, v)` put in, replacing the
/// value already kept for `k`.
pub open spec fn assign_put(m: Seq<KeyedAssign>, k: (u32, u32), v: AssignView) -> Seq<KeyedAssign> {
    let i = first_key_not_below(m, k, 0);
    if i < m.len() && m[i].0 == k {
        m.update(i, (k, v))
    } else {
        m.insert(i, (k, v))
    }
}

fn assign_put_exec(m: &mut Vec<((u32, u32), XlsxCellsSetBatchAssignment)>, k: (u32, u32), v: XlsxCellsSetBatchAssignment)
    ensures
        keyed_view(final(m)@) == assign_put(keyed_view(old(m)@), k, assignment_view(v)),
{
    let ghost mv = keyed_view(m@);
    proof {
        lemma_first_key_not_below(mv, k, 0);
    }
    let mut i: usize = 0;
    while i < m.len() && (m[i].0.0 < k.0 || (m[i].0.0 == k.0 && m[i].0.1 < k.1))
        invariant
            0 <= i <= m@.len(),
            mv == keyed_view(m@),
            first_key_not_below(mv, k, i as int) == first_key_not_below(mv, k, 0),
        decreases m.len() - i,
    {
        proof {
            assert(mv[i as int].0 == m@[i as int].0);
        }
        i = i + 1;
    }
    proof {
        if i < m@.len() {
            assert(mv[i as int].0 == m@[i as int].0);
        }
        assert(first_key_not_below(mv, k, i as int) == i);
    }
    let ghost vv = assignment_view(v);
    if i < m.len() && m[i].0.0 == k.0 && m[i].0.1 == k.1 {
        m.set(i, (k, v));
        proof {
            assert(keyed_view(m@) =~= mv.update(i as int, (k, vv)));
        }
    } else {
        m.insert(i, (k, v));
        proof {
            assert(keyed_view(m@) =~= mv.insert(i as int, (k, vv)));
        }
    }
}

/// The assignment an entry becomes once its value is normalized for its
/// type (`number_ok`: the value reads as a finite number), or `None`.
pub open spec fn entry_assignment(e: (Seq<char>, Seq<char>, Seq<char>), number_ok: bool) -> Option<AssignView> {
    let f = if e.1 == "formula"@ {
        e.2
    } else {
        Seq::empty()
    };
    match normalize_spec(e.1, e.2, f, number_ok) {
        None => None,
        Some(tv) => Some((e.0, tv.0, tv.1, if tv.0 == "formula"@ { tv.1 } else { Seq::empty() })),
    }
}

/// The assignments of the first `n` entries, one per cell in row-major
/// order, a later entry for a cell replacing an earlier one; `None` where an
/// entry's value does not fit its type.
pub open spec fn batch_assignments_spec(
    entries: Seq<(Seq<char>, Seq<char>, Seq<char>)>,
    oks: Seq<bool>,
    n: int,
) -> Option<Seq<KeyedAssign>>
    decreases n,
{
    if n <= 0 {
        Some(Seq::empty())
    } else {
        match batch_assignments_spec(entries, oks, n - 1) {
            None => None,
            Some(prev) => match entry_assignment(entries[n - 1], oks[n - 1]) {
                None => None,
                Some(a) => match cell_ref_spec(entries[n - 1].0) {
                    None => None,
                    Some(c) => Some(assign_put(prev, (c.1, c.0), a)),
                },
            },
        }
    }
}

proof fn lemma_assignments_none(entries: Seq<(Seq<char>, Seq<char>, Seq<char>)>, oks: Seq<bool>, a: int, b: int)
    requires
        0 <= a <= b,
        batch_assignments_spec(entries, oks, a) is None,
    ensures
        batch_assignments_spec(entries, oks, b) is None,
    decreases b - a,
{
    if a < b {
        lemma_assignments_none(entries, oks, a, b - 1);
    }
}

/// The assignments of a cells batch (the rest of
/// `resolve_xlsx_cells_set_batch_assignments`): each entry's value
/// normalized for its type, then one assignment per cell, in row-major
/// order, the last entry for a cell winning. `number_ok` says, for each
/// entry, whether its value reads as a finite number.
pub fn plan_batch_assignments(entries: &Vec<XlsxCellsSetBatchEntry>, number_ok: &Vec<bool>) -> (r: CliResult<
    Vec<XlsxCellsSetBatchAssignment>,
>)
    requires
        number_ok@.len() == entries@.len(),
    ensures
        match batch_assignments_spec(entries_view(entries@), number_ok@, entries@.len() as int) {
            Some(v) => r is Ok && assignments_view(r->Ok_0@) == v.map_values(|e: KeyedAssign| e.1),
            None => r is Err && r->Err_0.kind == ErrorKind::InvalidArgs,
        },
{
    proof {
        reveal_strlit("formula");
    }
    let mut keyed: Vec<((u32, u32), XlsxCellsSetBatchAssignment)> = Vec::new();
    let mut k: usize = 0;
    while k < entries.len()
        invariant
            0 <= k <= entries@.len(),
            number_ok@.len() == entries@.len(),
            batch_assignments_spec(entries_view(entries@), number_ok@, k as int) == Some(keyed_view(keyed@)),
        decreases entries@.len() - k,
    {
        let e = &entries[k];
        proof {
            assert(entries_view(entries@)[k as int] == entry_view(*e));
        }
        let is_formula = str_eq(e.value_type.as_str(), "formula");
        let formula = if is_formula {
            to_string(e.value.as_str())
        } else {
            String::new()
        };
        let cell = XlsxMatrixCell {
            kind: to_string(e.value_type.as_str()),
            value: to_string(e.value.as_str()),
            formula,
            null: false,
        };
        proof {
            assert(cell.formula@ == (if e.value_type@ == "formula"@ { e.value@ } else { Seq::<char>::empty() }));
        }
        let (t, v) = match normalize_xlsx_write_cell(&cell, number_ok[k]) {
            Ok(p) => p,
            Err(_) => {
                proof {
                    assert(batch_assignments_spec(entries_view(entries@), number_ok@, k + 1) is None);
                    lemma_assignments_none(entries_view(entries@), number_ok@, k + 1, entries@.len() as int);
                }
                return Err(CliError::invalid_args(concat5("invalid value for cell ", e.cell_ref.as_str(), "", "", "")));
            },
        };
        let (col, row) = match parse_cell_ref(e.cell_ref.as_str()) {
            Ok(p) => p,
            Err(err) => {
                proof {
                    assert(batch_assignments_spec(entries_view(entries@), number_ok@, k + 1) is None);
                    lemma_assignments_none(entries_view(entries@), number_ok@, k + 1, entries@.len() as int);
                }
                return Err(err);
            },
        };
        let f2 = if str_eq(t.as_str(), "formula") {
            to_string(v.as_str())
        } else {
            String::new()
        };
        let a = XlsxCellsSetBatchAssignment { cell_ref: to_string(e.cell_ref.as_str()), value_type: t, value: v, formula: f2 };
        assign_put_exec(&mut keyed, (row, col), a);
        k = k + 1;
    }
    let mut out: Vec<XlsxCellsSetBatchAssignment> = Vec::new();
    let ghost kv = keyed_view(keyed@);
    let mut j: usize = 0;
    while j < keyed.len()
        invariant
            0 <= j <= keyed@.len(),
            kv == keyed_view(keyed@),
            assignments_view(out@) == kv.subrange(0, j as int).map_values(|e: KeyedAssign| e.1),
        decreases keyed@.len() - j,
    {
        let a = &keyed[j].1;
        let copy = XlsxCellsSetBatchAssignment {
            cell_ref: to_string(a.cell_ref.as_str()),
            value_type: to_string(a.value_type.as_str()),
            value: to_string(a.value.as_str()),
            formula: to_string(a.formula.as_str()),
        };
        let ghost before = assignments_view(out@);
        proof {
            assert(kv[j as int].1 == assignment_view(*a));
            assert(assignment_view(copy) == assignment_view(*a));
        }
        out.push(copy);
        proof {
            assert(assignments_view(out@) =~= before.push(assignment_view(copy)));
            assert(kv.subrange(0, j + 1).map_values(|e: KeyedAssign| e.1) =~= kv.subrange(0, j as int).map_values(
                |e: KeyedAssign| e.1,
            ).push(kv[j as int].1));
        }
        j = j + 1;
    }
    proof {
        assert(kv.subrange(0, kv.len() as int) =~= kv);
    }
    Ok(out)
}

} // verus!
