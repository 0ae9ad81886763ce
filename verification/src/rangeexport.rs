//! Exporting a range of cells: the cell-count limits, how many cells are read
//! back, which shared strings they need, and where each cell lands in the
//! exported matrices.
use vstd::prelude::*;
use crate::cellref::RangeBounds;
use crate::pivots::insert_sorted;
use crate::error::{CliError, CliResult, ErrorKind};
use crate::text::{
    concat2, concat5, decimal, parse_i64, parse_i64_spec, parse_usize, parse_usize_spec, str_eq, to_string, trim,
    trim_string, u64_to_string,
};
use crate::xmlscan::{raw_view, RawRangeScan, RawView};

verus! {

/// A range whose row and column spans can be counted in a `u32`.
pub open spec fn countable(b: RangeBounds) -> bool {
    b.hi_row() - b.lo_row() < u32::MAX && b.hi_col() - b.lo_col() < u32::MAX
}

pub open spec fn span_rows(b: RangeBounds) -> int {
    b.hi_row() - b.lo_row() + 1
}

pub open spec fn span_cols(b: RangeBounds) -> int {
    b.hi_col() - b.lo_col() + 1
}

/// The number of cells of the range.
pub open spec fn range_cells(b: RangeBounds) -> int {
    span_rows(b) * span_cols(b)
}

/// The cell count as an `i64` counts it, saturating at `i64::MAX`.
pub open spec fn saturated_cells(b: RangeBounds) -> int {
    if range_cells(b) > i64::MAX {
        i64::MAX as int
    } else {
        range_cells(b)
    }
}

/// Why a `--max-cells` limit refuses the range, as the message says it.
pub open spec fn max_cells_error(range: Seq<char>, b: RangeBounds, max_cells: i64) -> Option<Seq<char>> {
    if max_cells < 0 {
        Some("--max-cells must be >= 0"@)
    } else if max_cells > 0 && saturated_cells(b) > max_cells {
        Some(
            "range "@ + range + " contains "@ + decimal(saturated_cells(b) as nat) + " cells, above --max-cells "@
                + decimal(max_cells as nat),
        )
    } else {
        None
    }
}

proof fn lemma_cells_fit(rows: u64, cols: u64)
    requires
        rows <= u32::MAX,
        cols <= u32::MAX,
    ensures
        rows * cols <= u64::MAX,
{
    assert(rows * cols <= (u32::MAX as int) * (u32::MAX as int)) by (nonlinear_arith)
        requires
            rows <= u32::MAX,
            cols <= u32::MAX,
    ;
}

/// The number of cells of the range, which always fits in a `u64`.
pub fn range_cell_count(bounds: RangeBounds) -> (r: u64)
    requires
        countable(bounds),
    ensures
        r == range_cells(bounds),
{
    let rows = bounds.row_count() as u64;
    let cols = bounds.col_count() as u64;
    proof {
        lemma_cells_fit(rows, cols);
    }
    rows * cols
}

/// `check_range_max_cells`: refuses a negative limit, and a positive limit
/// that the range's cell count exceeds.
pub fn check_range_max_cells(range: &str, bounds: RangeBounds, max_cells: i64) -> (r: CliResult<()>)
    requires
        countable(bounds),
    ensures
        r is Ok <==> max_cells_error(range@, bounds, max_cells) is None,
        r is Err ==> r->Err_0.kind == ErrorKind::InvalidArgs,
        r is Err ==> r->Err_0.message@ == max_cells_error(range@, bounds, max_cells).unwrap(),
{
    if max_cells < 0 {
        return Err(CliError::invalid_args(to_string("--max-cells must be >= 0")));
    }
    let all = range_cell_count(bounds);
    let count: u64 = if all > 0x7fff_ffff_ffff_ffffu64 {
        0x7fff_ffff_ffff_ffffu64
    } else {
        all
    };
    if max_cells > 0 && count > max_cells as u64 {
        let c = u64_to_string(count);
        let m = u64_to_string(max_cells as u64);
        let head = concat5("range ", range, " contains ", c.as_str(), " cells, above --max-cells ");
        return Err(CliError::invalid_args(concat2(head.as_str(), m.as_str())));
    }
    Ok(())
}

/// How many cells an export covers and how many of them it reads back.
#[derive(Debug)]
pub struct RangeExportCounts {
    pub total_cells: u64,
    pub retained_cells: u64,
    pub truncated: bool,
}

/// The cells read back under a readback limit: all of them without a limit
/// (`0`), else at most the limit.
pub open spec fn retained_spec(total: int, output_max_cells: i64) -> int {
    if output_max_cells > 0 && output_max_cells < total {
        output_max_cells as int
    } else {
        total
    }
}

/// The checks and counts of a range export (`xlsx_range_export_with_output_limit`):
/// the `--max-cells` limit, then a readback limit that must not be negative;
/// the range's cell count, the cells read back and whether that truncates.
pub fn plan_xlsx_range_export(range: &str, bounds: RangeBounds, max_cells: i64, output_max_cells: i64) -> (r:
    CliResult<RangeExportCounts>)
    requires
        countable(bounds),
    ensures
        r is Ok <==> max_cells_error(range@, bounds, max_cells) is None && output_max_cells >= 0,
        r is Err ==> r->Err_0.kind == ErrorKind::InvalidArgs,
        r is Err ==> r->Err_0.message@ == match max_cells_error(range@, bounds, max_cells) {
            Some(m) => m,
            None => "readback cell limit must be >= 0"@,
        },
        r is Ok ==> r->Ok_0.total_cells == range_cells(bounds),
        r is Ok ==> r->Ok_0.retained_cells == retained_spec(range_cells(bounds), output_max_cells),
        r is Ok ==> r->Ok_0.truncated == (r->Ok_0.retained_cells < r->Ok_0.total_cells),
{
    check_range_max_cells(range, bounds, max_cells)?;
    if output_max_cells < 0 {
        return Err(CliError::invalid_args(to_string("readback cell limit must be >= 0")));
    }
    let total = range_cell_count(bounds);
    let retained = if output_max_cells > 0 && (output_max_cells as u64) < total {
        output_max_cells as u64
    } else {
        total
    };
    Ok(RangeExportCounts { total_cells: total, retained_cells: retained, truncated: retained < total })
}

/// Whether a raw cell is a shared-string cell whose value names string `x`.
pub open spec fn wants_shared_string(c: RawView, x: usize) -> bool {
    c.0 == "s"@ && parse_usize_spec(c.1) == Some(x)
}

/// The shared strings the cells of a scan need: the indices that its
/// shared-string cells name, ascending and each once.
pub fn wanted_shared_string_indices(scan: &RawRangeScan) -> (r: Vec<usize>)
    ensures
        forall|i: int, j: int| 0 <= i < j < r@.len() ==> r@[i] < r@[j],
        forall|x: usize|
            r@.contains(x) <==> exists|k: int|
                0 <= k < scan.cells@.len() && wants_shared_string(#[trigger] raw_view(scan.cells@[k].1), x),
{
    let mut out: Vec<usize> = Vec::new();
    let mut k: usize = 0;
    while k < scan.cells.len()
        invariant
            0 <= k <= scan.cells@.len(),
            forall|i: int, j: int| 0 <= i < j < out@.len() ==> out@[i] < out@[j],
            forall|x: usize|
                out@.contains(x) <==> exists|k2: int|
                    0 <= k2 < k && wants_shared_string(#[trigger] raw_view(scan.cells@[k2].1), x),
        decreases scan.cells@.len() - k,
    {
        let ghost before = out@;
        let c = &scan.cells[k].1;
        let mut hit: Option<usize> = None;
        if str_eq(c.cell_type.as_str(), "s") {
            hit = parse_usize(c.raw_value.as_str());
        }
        proof {
            reveal_strlit("s");
        }
        match hit {
            Some(x) => {
                insert_sorted(&mut out, x);
            },
            None => {},
        }
        proof {
            assert forall|x: usize|
                out@.contains(x) <==> exists|k2: int|
                    0 <= k2 < k + 1 && wants_shared_string(#[trigger] raw_view(scan.cells@[k2].1), x) by {
                if out@.contains(x) {
                    if before.contains(x) {
                        let k2 = choose|k2: int|
                            0 <= k2 < k && wants_shared_string(#[trigger] raw_view(scan.cells@[k2].1), x);
                        assert(0 <= k2 < k + 1);
                    } else {
                        assert(wants_shared_string(raw_view(scan.cells@[k as int].1), x));
                    }
                }
                if exists|k2: int| 0 <= k2 < k + 1 && wants_shared_string(#[trigger] raw_view(scan.cells@[k2].1), x) {
                    let k2 = choose|k2: int|
                        0 <= k2 < k + 1 && wants_shared_string(#[trigger] raw_view(scan.cells@[k2].1), x);
                    if k2 < k {
                        assert(before.contains(x));
                    }
                }
            }
        }
        k = k + 1;
    }
    out
}

/// Whether a cell carries a style or number format the export reads back:
/// a nonzero style index, a nonzero number format id or a format code.
pub open spec fn has_format_spec(style_index: Option<u32>, number_format_id: Option<u32>, number_format_code: Option<
    &str,
>) -> bool {
    (match style_index {
        Some(s) => s != 0,
        None => false,
    }) || (match number_format_id {
        Some(n) => n != 0,
        None => false,
    }) || (match number_format_code {
        Some(c) => c@.len() > 0,
        None => false,
    })
}

/// Whether a cell carries a style or number format that the export reads back.
pub fn cell_has_number_format(
    style_index: Option<u32>,
    number_format_id: Option<u32>,
    number_format_code: Option<&str>,
) -> (r: bool)
    ensures
        r == has_format_spec(style_index, number_format_id, number_format_code),
{
    let s = match style_index {
        Some(s) => s != 0,
        None => false,
    };
    let n = match number_format_id {
        Some(n) => n != 0,
        None => false,
    };
    let c = match number_format_code {
        Some(c) => crate::text::str_chars(c).len() > 0,
        None => false,
    };
    s || n || c
}

/// What places a decoded cell in the export: its column and row, whether it
/// holds a formula and whether it carries a format that is read back.
#[derive(Clone, Copy, Debug)]
pub struct ExportCellFacts {
    pub col: u32,
    pub row: u32,
    pub has_formula: bool,
    pub has_cell_format: bool,
}

pub open spec fn min_int(a: int, b: int) -> int {
    if a <= b {
        a
    } else {
        b
    }
}

/// The lengths of the rows an export writes: rows of `cols` cells while
/// cells are left to read back, the last one cut short, at most `rows` rows.
pub open spec fn row_lengths(rows: int, cols: int, remaining: int) -> Seq<int>
    decreases rows,
{
    if rows <= 0 || remaining <= 0 {
        Seq::empty()
    } else {
        seq![min_int(cols, remaining)] + row_lengths(rows - 1, cols, remaining - min_int(cols, remaining))
    }
}

/// The index of the first cell at `(col, row)` from `k` on, or -1.
pub open spec fn fact_index_from(facts: Seq<ExportCellFacts>, col: int, row: int, k: int) -> int
    decreases facts.len() - k,
{
    if k < 0 || k >= facts.len() {
        -1
    } else if facts[k].col == col && facts[k].row == row {
        k
    } else {
        fact_index_from(facts, col, row, k + 1)
    }
}

/// The cell the export writes at `(col, row)`: the first one there, if any.
pub open spec fn slot_spec(facts: Seq<ExportCellFacts>, col: int, row: int) -> Option<usize> {
    let i = fact_index_from(facts, col, row, 0);
    if i == -1 {
        None
    } else {
        Some(i as usize)
    }
}

/// The cells of one exported row: `n` columns from `lo_col` on.
pub open spec fn row_slots(facts: Seq<ExportCellFacts>, lo_col: int, row: int, n: int) -> Seq<Option<usize>> {
    Seq::new(n as nat, |j: int| slot_spec(facts, lo_col + j, row))
}

pub open spec fn slot_formula(facts: Seq<ExportCellFacts>, s: Option<usize>) -> nat {
    match s {
        Some(k) => if facts[k as int].has_formula {
            1
        } else {
            0
        },
        None => 0,
    }
}

pub open spec fn slot_has_format(facts: Seq<ExportCellFacts>, s: Option<usize>) -> bool {
    match s {
        Some(k) => facts[k as int].has_cell_format,
        None => false,
    }
}

/// The number of written cells that hold a formula, in one row.
pub open spec fn slots_formulas(facts: Seq<ExportCellFacts>, slots: Seq<Option<usize>>) -> nat
    decreases slots.len(),
{
    if slots.len() == 0 {
        0
    } else {
        slots_formulas(facts, slots.drop_last()) + slot_formula(facts, slots.last())
    }
}

/// The number of written cells that hold a formula, over all rows.
pub open spec fn rows_formulas(facts: Seq<ExportCellFacts>, rows: Seq<Seq<Option<usize>>>) -> nat
    decreases rows.len(),
{
    if rows.len() == 0 {
        0
    } else {
        rows_formulas(facts, rows.drop_last()) + slots_formulas(facts, rows.last())
    }
}

/// Whether some written cell carries a format that is read back.
pub open spec fn rows_have_format(facts: Seq<ExportCellFacts>, rows: Seq<Seq<Option<usize>>>) -> bool {
    exists|i: int, j: int|
        0 <= i < rows.len() && 0 <= j < rows[i].len() && #[trigger] slot_has_format(facts, rows[i][j])
}

/// Where each exported cell comes from, row by row (`None` for an empty
/// cell, else the index of the cell), how many of them hold a formula, and
/// whether the style and number-format matrices are written.
#[derive(Debug)]
pub struct RangeExportLayout {
    pub rows: Vec<Vec<Option<usize>>>,
    pub formula_count: u64,
    pub has_format_readback: bool,
}

pub open spec fn rows_view(rows: Seq<Vec<Option<usize>>>) -> Seq<Seq<Option<usize>>> {
    rows.map_values(|r: Vec<Option<usize>>| r@)
}

proof fn lemma_fact_index_range(facts: Seq<ExportCellFacts>, col: int, row: int, k: int)
    requires
        0 <= k,
    ensures
        fact_index_from(facts, col, row, k) == -1 || k <= fact_index_from(facts, col, row, k) < facts.len(),
    decreases facts.len() - k,
{
    if k < facts.len() {
        lemma_fact_index_range(facts, col, row, k + 1);
    }
}

fn find_fact(facts: &Vec<ExportCellFacts>, col: u32, row: u32) -> (r: Option<usize>)
    ensures
        r == slot_spec(facts@, col as int, row as int),
        r is Some ==> r.unwrap() < facts@.len(),
{
    proof {
        lemma_fact_index_range(facts@, col as int, row as int, 0);
    }
    let mut k: usize = 0;
    while k < facts.len()
        invariant
            0 <= k <= facts@.len(),
            fact_index_from(facts@, col as int, row as int, k as int) == fact_index_from(
                facts@,
                col as int,
                row as int,
                0,
            ),
        decreases facts@.len() - k,
    {
        if facts[k].col == col && facts[k].row == row {
            return Some(k);
        }
        k = k + 1;
    }
    None
}

/// One exported row: the cells at columns `lo_col .. lo_col + n` of `row`,
/// the formulas among them and whether one carries a format.
fn build_row(facts: &Vec<ExportCellFacts>, lo_col: u32, row: u32, n: u32) -> (r: (Vec<Option<usize>>, u64, bool))
    requires
        lo_col + n <= u32::MAX + 1,
    ensures
        r.0@ == row_slots(facts@, lo_col as int, row as int, n as int),
        r.1 == slots_formulas(facts@, r.0@),
        r.1 <= n,
        r.2 == exists|j: int| 0 <= j < r.0@.len() && #[trigger] slot_has_format(facts@, r.0@[j]),
        forall|j: int| 0 <= j < r.0@.len() ==> (#[trigger] r.0@[j] matches Some(k) ==> k < facts@.len()),
{
    let mut out: Vec<Option<usize>> = Vec::new();
    let mut count: u64 = 0;
    let mut any = false;
    let mut j: u32 = 0;
    while j < n
        invariant
            0 <= j <= n,
            lo_col + n <= u32::MAX + 1,
            out@ == row_slots(facts@, lo_col as int, row as int, j as int),
            count == slots_formulas(facts@, out@),
            count <= j,
            any == exists|jj: int| 0 <= jj < out@.len() && #[trigger] slot_has_format(facts@, out@[jj]),
            forall|jj: int| 0 <= jj < out@.len() ==> (#[trigger] out@[jj] matches Some(k) ==> k < facts@.len()),
        decreases n - j,
    {
        let ghost before = out@;
        let s = find_fact(facts, lo_col + j, row);
        out.push(s);
        proof {
            assert(out@.drop_last() =~= before);
            assert(out@ =~= row_slots(facts@, lo_col as int, row as int, j + 1));
        }
        match s {
            Some(k) => {
                if facts[k].has_formula {
                    count = count + 1;
                }
                if facts[k].has_cell_format {
                    any = true;
                }
            },
            None => {},
        }
        proof {
            if any {
                if slot_has_format(facts@, s) {
                    assert(slot_has_format(facts@, out@[j as int]));
                } else {
                    let jj = choose|jj: int| 0 <= jj < before.len() && #[trigger] slot_has_format(facts@, before[jj]);
                    assert(out@[jj] == before[jj]);
                }
            } else {
                assert forall|jj: int| 0 <= jj < out@.len() implies !#[trigger] slot_has_format(facts@, out@[jj]) by {
                    if jj < before.len() {
                        assert(out@[jj] == before[jj]);
                    }
                }
            }
        }
        j = j + 1;
    }
    (out, count, any)
}

/// The layout of a range export (the cell loop of
/// `xlsx_range_export_with_output_limit`): row by row from the top, the
/// cells of each row from the left, until `retained` cells are written; for
/// each written cell, the first decoded cell at that place, if any. The
/// formats are read back when asked for and a cell in the range used a
/// nonzero style, or style zero itself has a number format, or a written
/// cell carries a format.
#[verifier::rlimit(30)]
pub fn plan_range_export_layout(
    bounds: RangeBounds,
    retained: u64,
    facts: &Vec<ExportCellFacts>,
    include_formats: bool,
    saw_nonzero_style_index: bool,
    saw_style_zero: bool,
    style_zero_has_format: bool,
) -> (r: RangeExportLayout)
    requires
        countable(bounds),
    ensures
        ({
            let lens = row_lengths(span_rows(bounds), span_cols(bounds), retained as int);
            &&& r.rows@.len() == lens.len()
            &&& forall|i: int|
                0 <= i < lens.len() ==> (#[trigger] r.rows@[i])@ == row_slots(
                    facts@,
                    bounds.lo_col() as int,
                    bounds.lo_row() + i,
                    lens[i],
                )
        }),
        r.formula_count == rows_formulas(facts@, rows_view(r.rows@)),
        r.has_format_readback == (include_formats && (saw_nonzero_style_index || (saw_style_zero
            && style_zero_has_format) || rows_have_format(facts@, rows_view(r.rows@)))),
{
    let rows = bounds.row_count();
    let cols = bounds.col_count();
    let lo_col = bounds.min_col();
    let lo_row = bounds.min_row();
    let ghost full = row_lengths(rows as int, cols as int, retained as int);
    let ghost mut done: Seq<int> = Seq::empty();
    let mut out: Vec<Vec<Option<usize>>> = Vec::new();
    let mut emitted: u64 = 0;
    let mut count: u64 = 0;
    let mut any = false;
    let mut i: u32 = 0;
    while i < rows && emitted < retained
        invariant
            rows == span_rows(bounds),
            cols == span_cols(bounds),
            lo_col == bounds.lo_col(),
            lo_row == bounds.lo_row(),
            countable(bounds),
            full == row_lengths(rows as int, cols as int, retained as int),
            0 <= i <= rows,
            emitted <= retained,
            count <= emitted,
            done.len() == i,
            out@.len() == i,
            done + row_lengths(rows - i, cols as int, retained - emitted) == full,
            forall|k: int|
                0 <= k < i ==> (#[trigger] out@[k])@ == row_slots(facts@, lo_col as int, lo_row + k, done[k]),
            count == rows_formulas(facts@, rows_view(out@)),
            any == rows_have_format(facts@, rows_view(out@)),
        decreases rows - i,
    {
        let left = retained - emitted;
        let n: u64 = if (cols as u64) < left {
            cols as u64
        } else {
            left
        };
        let (row, c, a) = build_row(facts, lo_col, lo_row + i, n as u32);
        let ghost old_view = rows_view(out@);
        let ghost rest = row_lengths(rows - i - 1, cols as int, retained - emitted - n);
        proof {
            assert(row_lengths(rows - i, cols as int, retained - emitted) == seq![n as int] + rest);
            assert((done.push(n as int)) + rest =~= done + (seq![n as int] + rest));
        }
        out.push(row);
        proof {
            done = done.push(n as int);
            assert(rows_view(out@).drop_last() =~= old_view);
            assert(rows_view(out@).last() == out@[i as int]@);
            if any || a {
                if a {
                    let jj = choose|jj: int|
                        0 <= jj < out@[i as int]@.len() && #[trigger] slot_has_format(facts@, out@[i as int]@[jj]);
                    assert(slot_has_format(facts@, rows_view(out@)[i as int][jj]));
                } else {
                    let (i2, j2) = choose|i2: int, j2: int|
                        0 <= i2 < old_view.len() && 0 <= j2 < old_view[i2].len() && #[trigger] slot_has_format(
                            facts@,
                            old_view[i2][j2],
                        );
                    assert(rows_view(out@)[i2] == old_view[i2]);
                    assert(slot_has_format(facts@, rows_view(out@)[i2][j2]));
                }
            } else {
                assert forall|i2: int, j2: int|
                    0 <= i2 < rows_view(out@).len() && 0 <= j2 < rows_view(out@)[i2].len() implies !#[trigger] slot_has_format(
                    facts@,
                    rows_view(out@)[i2][j2],
                ) by {
                    if i2 < old_view.len() {
                        assert(rows_view(out@)[i2] == old_view[i2]);
                    }
                }
            }
            assert forall|k: int|
                0 <= k < i + 1 implies (#[trigger] out@[k])@ == row_slots(facts@, lo_col as int, lo_row + k, done[k]) by {
            }
        }
        count = count + c;
        any = any || a;
        emitted = emitted + n;
        i = i + 1;
    }
    proof {
        assert(row_lengths(rows - i, cols as int, retained - emitted) =~= Seq::<int>::empty());
        assert(done =~= full);
    }
    let readback = include_formats && (saw_nonzero_style_index || (saw_style_zero && style_zero_has_format) || any);
    RangeExportLayout { rows: out, formula_count: count, has_format_readback: readback }
}

/// The value a cell shows in an exported matrix: nothing, a boolean, a
/// text, an integer, or a number written as text that is not an integer
/// (read as a floating-point number by whoever writes the matrix out).
#[derive(Debug)]
pub enum CellMatrixValue {
    Null,
    Bool(bool),
    Text(String),
    Int(i64),
    Number(String),
}

pub enum CellMatrixView {
    Null,
    Bool(bool),
    Text(Seq<char>),
    Int(i64),
    Number(Seq<char>),
}

pub open spec fn matrix_value_view(v: CellMatrixValue) -> CellMatrixView {
    match v {
        CellMatrixValue::Null => CellMatrixView::Null,
        CellMatrixValue::Bool(b) => CellMatrixView::Bool(b),
        CellMatrixValue::Text(t) => CellMatrixView::Text(t@),
        CellMatrixValue::Int(n) => CellMatrixView::Int(n),
        CellMatrixValue::Number(t) => CellMatrixView::Number(t@),
    }
}

/// A decoded cell: its kind, its matrix value and its text as shown.
#[derive(Debug)]
pub struct DecodedCell {
    pub kind: String,
    pub value: CellMatrixValue,
    pub display: String,
}

/// The text of shared string `idx` among the strings read, if read.
pub open spec fn shared_lookup(shared: Seq<(usize, Seq<char>)>, idx: usize, k: int) -> Option<Seq<char>>
    decreases shared.len() - k,
{
    if k < 0 || k >= shared.len() {
        None
    } else if shared[k].0 == idx {
        Some(shared[k].1)
    } else {
        shared_lookup(shared, idx, k + 1)
    }
}

/// How a cell's stored value decodes: its kind, matrix value and shown text.
pub open spec fn decode_spec(
    t: Seq<char>,
    raw: Seq<char>,
    inline: Seq<char>,
    formula: Seq<char>,
    shared: Seq<(usize, Seq<char>)>,
    date_style: bool,
) -> (Seq<char>, CellMatrixView, Seq<char>) {
    if t == "s"@ {
        let idx = match parse_usize_spec(raw) {
            Some(i) => i,
            None => usize::MAX,
        };
        let text = match shared_lookup(shared, idx, 0) {
            Some(x) => x,
            None => Seq::empty(),
        };
        ("string"@, CellMatrixView::Text(text), text)
    } else if t == "inlineStr"@ {
        ("string"@, CellMatrixView::Text(inline), inline)
    } else if t == "str"@ {
        ("string"@, CellMatrixView::Text(raw), raw)
    } else if t == "b"@ {
        if trim(raw) == "1"@ {
            ("boolean"@, CellMatrixView::Bool(true), "true"@)
        } else if trim(raw) == "0"@ {
            ("boolean"@, CellMatrixView::Bool(false), "false"@)
        } else {
            ("boolean"@, CellMatrixView::Text(raw), raw)
        }
    } else if t == "e"@ {
        ("error"@, CellMatrixView::Text(raw), raw)
    } else if t == "d"@ {
        ("date"@, CellMatrixView::Text(raw), raw)
    } else if t.len() == 0 && raw.len() == 0 && formula.len() == 0 {
        ("empty"@, CellMatrixView::Null, Seq::empty())
    } else if t.len() == 0 && raw.len() == 0 {
        ("number"@, CellMatrixView::Null, Seq::empty())
    } else if t.len() == 0 && date_style {
        ("date"@, CellMatrixView::Text(raw), raw)
    } else if t.len() == 0 {
        (
            "number"@,
            match parse_i64_spec(raw) {
                Some(n) => CellMatrixView::Int(n),
                None => CellMatrixView::Number(raw),
            },
            raw,
        )
    } else {
        ("unknown"@, CellMatrixView::Text(raw), raw)
    }
}

/// A boolean cell reads as the truth value its stored digit names: `1` is
/// true and `0` is false, shown as `true` and `false`; any other stored
/// text stays text, shown as it stands.
pub proof fn lemma_boolean_cell_decodes(
    raw: Seq<char>,
    inline: Seq<char>,
    formula: Seq<char>,
    shared: Seq<(usize, Seq<char>)>,
    date_style: bool,
)
    ensures
        trim(raw) == "1"@ ==> decode_spec("b"@, raw, inline, formula, shared, date_style)
            == ("boolean"@, CellMatrixView::Bool(true), "true"@),
        trim(raw) == "0"@ ==> decode_spec("b"@, raw, inline, formula, shared, date_style)
            == ("boolean"@, CellMatrixView::Bool(false), "false"@),
        trim(raw) != "1"@ && trim(raw) != "0"@ ==> decode_spec("b"@, raw, inline, formula, shared, date_style)
            == ("boolean"@, CellMatrixView::Text(raw), raw),
{
    lemma_cell_type_names_differ();
}

proof fn lemma_cell_type_names_differ()
    ensures
        "b"@ != "s"@,
        "b"@ != "inlineStr"@,
        "b"@ != "str"@,
        "0"@ != "1"@,
{
    reveal_strlit("b");
    reveal_strlit("s");
    reveal_strlit("inlineStr");
    reveal_strlit("str");
    reveal_strlit("0");
    reveal_strlit("1");
    assert("b"@[0] == 'b' && "s"@[0] == 's');
    assert("0"@[0] == '0' && "1"@[0] == '1');
    assert("inlineStr"@.len() == 9 && "str"@.len() == 3 && "b"@.len() == 1);
}

/// A decoded cell holds a truth value only for a boolean cell whose stored
/// text is `1` (true) or `0` (false), and then shows that value's name.
pub proof fn lemma_decoded_bool_matches_stored_digit(
    t: Seq<char>,
    raw: Seq<char>,
    inline: Seq<char>,
    formula: Seq<char>,
    shared: Seq<(usize, Seq<char>)>,
    date_style: bool,
    b: bool,
)
    requires
        decode_spec(t, raw, inline, formula, shared, date_style).1 == CellMatrixView::Bool(b),
    ensures
        t == "b"@,
        trim(raw) == (if b { "1"@ } else { "0"@ }),
        decode_spec(t, raw, inline, formula, shared, date_style).2 == (if b { "true"@ } else { "false"@ }),
{
    lemma_cell_type_names_differ();
}

fn find_shared(shared: &Vec<(usize, String)>, idx: usize) -> (r: Option<String>)
    ensures
        match shared_lookup(shared.deep_view(), idx, 0) {
            Some(x) => r is Some && r->Some_0@ == x,
            None => r is None,
        },
{
    let mut k: usize = 0;
    while k < shared.len()
        invariant
            0 <= k <= shared@.len(),
            shared_lookup(shared.deep_view(), idx, k as int) == shared_lookup(shared.deep_view(), idx, 0),
        decreases shared@.len() - k,
    {
        proof {
            assert(shared.deep_view()[k as int] == (shared@[k as int].0, shared@[k as int].1@));
        }
        if shared[k].0 == idx {
            return Some(to_string(shared[k].1.as_str()));
        }
        k = k + 1;
    }
    None
}

/// `decode_xlsx_cell_value_with_lookup` with the shared strings read: a
/// cell's kind, matrix value and shown text from its type, stored value,
/// inline string and formula; `date_style` says whether its style is a date
/// format.
pub fn decode_xlsx_cell_value(
    cell_type: &str,
    raw: &str,
    inline_text: &str,
    formula: &str,
    shared: &Vec<(usize, String)>,
    date_style: bool,
) -> (r: DecodedCell)
    ensures
        (r.kind@, matrix_value_view(r.value), r.display@) == decode_spec(
            cell_type@,
            raw@,
            inline_text@,
            formula@,
            shared.deep_view(),
            date_style,
        ),
{
    proof {
        reveal_strlit("s");
        reveal_strlit("inlineStr");
        reveal_strlit("str");
        reveal_strlit("b");
        reveal_strlit("e");
        reveal_strlit("d");
        reveal_strlit("");
    }
    let t_len = crate::text::str_chars(cell_type).len();
    let raw_len = crate::text::str_chars(raw).len();
    let formula_len = crate::text::str_chars(formula).len();
    if str_eq(cell_type, "s") {
        let idx = match parse_usize(raw) {
            Some(i) => i,
            None => usize::MAX,
        };
        let text = match find_shared(shared, idx) {
            Some(x) => x,
            None => String::new(),
        };
        let shown = to_string(text.as_str());
        DecodedCell { kind: to_string("string"), value: CellMatrixValue::Text(text), display: shown }
    } else if str_eq(cell_type, "inlineStr") {
        DecodedCell {
            kind: to_string("string"),
            value: CellMatrixValue::Text(to_string(inline_text)),
            display: to_string(inline_text),
        }
    } else if str_eq(cell_type, "str") {
        DecodedCell { kind: to_string("string"), value: CellMatrixValue::Text(to_string(raw)), display: to_string(raw) }
    } else if str_eq(cell_type, "b") {
        let tr = trim_string(raw);
        if str_eq(tr.as_str(), "1") {
            DecodedCell { kind: to_string("boolean"), value: CellMatrixValue::Bool(true), display: to_string("true") }
        } else if str_eq(tr.as_str(), "0") {
            DecodedCell { kind: to_string("boolean"), value: CellMatrixValue::Bool(false), display: to_string("false") }
        } else {
            DecodedCell {
                kind: to_string("boolean"),
                value: CellMatrixValue::Text(to_string(raw)),
                display: to_string(raw),
            }
        }
    } else if str_eq(cell_type, "e") {
        DecodedCell { kind: to_string("error"), value: CellMatrixValue::Text(to_string(raw)), display: to_string(raw) }
    } else if str_eq(cell_type, "d") {
        DecodedCell { kind: to_string("date"), value: CellMatrixValue::Text(to_string(raw)), display: to_string(raw) }
    } else if t_len == 0 && raw_len == 0 && formula_len == 0 {
        DecodedCell { kind: to_string("empty"), value: CellMatrixValue::Null, display: String::new() }
    } else if t_len == 0 && raw_len == 0 {
        DecodedCell { kind: to_string("number"), value: CellMatrixValue::Null, display: String::new() }
    } else if t_len == 0 && date_style {
        DecodedCell { kind: to_string("date"), value: CellMatrixValue::Text(to_string(raw)), display: to_string(raw) }
    } else if t_len == 0 {
        let value = match parse_i64(raw) {
            Some(n) => CellMatrixValue::Int(n),
            None => CellMatrixValue::Number(to_string(raw)),
        };
        DecodedCell { kind: to_string("number"), value, display: to_string(raw) }
    } else {
        DecodedCell { kind: to_string("unknown"), value: CellMatrixValue::Text(to_string(raw)), display: to_string(raw) }
    }
}

} // verus!
