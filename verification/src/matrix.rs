//! The matrix of values a range write takes: delimited text, transposing
//! a column-major matrix, evening out ragged rows, and the range it covers.
use vstd::prelude::*;
use crate::cellref::{valid_cell, cell_ref_spec, parse_cell_ref, parse_cli_range, range_spec, RangeBounds};
use crate::error::{CliError, CliResult, ErrorKind};
use crate::mutation::{cell_view, XlsxMatrixCell};
use crate::text::{
    ascii_lower_seq, chars_eq_str, concat2, is_blank, is_present, present, str_chars, string_from_chars, to_string,
    trim, trim_lower, vec_to_string, decimal,
};

verus! {

/// The matrix of a range write, with the range and null policy the input
/// names, and whether its inner lists are rows or columns.
#[derive(Debug)]
pub struct XlsxRangeSetMatrix {
    pub range: Option<String>,
    pub null_policy: Option<String>,
    pub major_dimension: String,
    pub rows: Vec<Vec<XlsxMatrixCell>>,
}

pub type Records = Seq<Seq<Seq<char>>>;

/// The reading state of delimited text: the records so far, the current
/// record and field, whether inside quotes, whether the field has started,
/// and whether a quoted field has just closed.
pub ghost struct CsvState {
    pub records: Records,
    pub record: Seq<Seq<char>>,
    pub field: Seq<char>,
    pub in_quotes: bool,
    pub started: bool,
    pub closed: bool,
}

pub open spec fn csv_start() -> CsvState {
    CsvState {
        records: Seq::empty(),
        record: Seq::empty(),
        field: Seq::empty(),
        in_quotes: false,
        started: false,
        closed: false,
    }
}

/// The records of the rest of the text when done: an open quote is an error;
/// a started field, a non-empty field or a non-empty record ends a last
/// record.
pub open spec fn csv_finish(st: CsvState) -> Option<Records> {
    if st.in_quotes {
        None
    } else if st.started || st.field.len() > 0 || st.record.len() > 0 {
        Some(st.records.push(st.record.push(st.field)))
    } else {
        Some(st.records)
    }
}

/// Reading delimited text from index `i`: quoted fields with `""` for a
/// quote, the delimiter between fields, `\n`, `\r` or `\r\n` between records;
/// a quote inside an unquoted field, or text right after a closing quote, is
/// an error.
pub open spec fn csv_run(s: Seq<char>, d: char, i: int, st: CsvState) -> Option<Records>
    decreases s.len() - i,
{
    if i < 0 || i >= s.len() {
        csv_finish(st)
    } else {
        let ch = s[i];
        if st.in_quotes {
            if ch == '"' {
                if i + 1 < s.len() && s[i + 1] == '"' {
                    csv_run(s, d, i + 2, CsvState { field: st.field.push('"'), ..st })
                } else {
                    csv_run(s, d, i + 1, CsvState { in_quotes: false, closed: true, ..st })
                }
            } else {
                csv_run(s, d, i + 1, CsvState { field: st.field.push(ch), ..st })
            }
        } else if ch == '"' {
            if !st.started {
                csv_run(s, d, i + 1, CsvState { in_quotes: true, started: true, ..st })
            } else {
                None
            }
        } else if ch == d {
            csv_run(
                s,
                d,
                i + 1,
                CsvState { record: st.record.push(st.field), field: Seq::empty(), started: false, closed: false, ..st },
            )
        } else if ch == '\n' || ch == '\r' {
            let next = if ch == '\r' && i + 1 < s.len() && s[i + 1] == '\n' {
                i + 2
            } else {
                i + 1
            };
            csv_run(
                s,
                d,
                next,
                CsvState {
                    records: st.records.push(st.record.push(st.field)),
                    record: Seq::empty(),
                    field: Seq::empty(),
                    started: false,
                    closed: false,
                    ..st
                },
            )
        } else if st.closed {
            None
        } else {
            csv_run(s, d, i + 1, CsvState { started: true, field: st.field.push(ch), ..st })
        }
    }
}

pub open spec fn strs_view(v: Seq<String>) -> Seq<Seq<char>> {
    Seq::new(v.len(), |i: int| v[i]@)
}

pub open spec fn records_view(v: Seq<Vec<String>>) -> Records {
    Seq::new(v.len(), |i: int| strs_view(v[i]@))
}

/// `parse_delimited_records`: the records and fields of delimited text.
#[verifier::rlimit(40)]
pub fn parse_delimited_records(data: &str, delimiter: char) -> (r: CliResult<Vec<Vec<String>>>)
    ensures
        match csv_run(data@, delimiter, 0, csv_start()) {
            Some(recs) => r is Ok && records_view(r->Ok_0@) == recs,
            None => r is Err && r->Err_0.kind == ErrorKind::InvalidArgs,
        },
{
    let s = str_chars(data);
    let mut records: Vec<Vec<String>> = Vec::new();
    let mut record: Vec<String> = Vec::new();
    let mut field: Vec<char> = Vec::new();
    let mut in_quotes = false;
    let mut started = false;
    let mut closed = false;
    let mut i: usize = 0;
    proof {
        assert(records_view(records@) =~= Seq::<Seq<Seq<char>>>::empty());
        assert(strs_view(record@) =~= Seq::<Seq<char>>::empty());
    }
    while i < s.len()
        invariant
            0 <= i <= s.len(),
            s@ == data@,
            csv_run(s@, delimiter, 0, csv_start()) == csv_run(
                s@,
                delimiter,
                i as int,
                CsvState {
                    records: records_view(records@),
                    record: strs_view(record@),
                    field: field@,
                    in_quotes,
                    started,
                    closed,
                },
            ),
        decreases s.len() - i,
    {
        let ch = s[i];
        let ghost st = CsvState {
            records: records_view(records@),
            record: strs_view(record@),
            field: field@,
            in_quotes,
            started,
            closed,
        };
        if in_quotes {
            if ch == '"' {
                if i + 1 < s.len() && s[i + 1] == '"' {
                    field.push('"');
                    i = i + 2;
                } else {
                    in_quotes = false;
                    closed = true;
                    i = i + 1;
                }
            } else {
                field.push(ch);
                i = i + 1;
            }
        } else if ch == '"' {
            if !started {
                in_quotes = true;
                started = true;
                i = i + 1;
            } else {
                return Err(CliError::invalid_args(to_string("parse error: bare \" in non-quoted-field")));
            }
        } else if ch == delimiter {
            let f = string_from_chars(field.as_slice());
            let ghost before = strs_view(record@);
            record.push(f);
            proof {
                assert(strs_view(record@) =~= before.push(st.field));
            }
            field = Vec::new();
            started = false;
            closed = false;
            i = i + 1;
        } else if ch == '\n' || ch == '\r' {
            let next = if ch == '\r' && i + 1 < s.len() && s[i + 1] == '\n' {
                i + 2
            } else {
                i + 1
            };
            let f = string_from_chars(field.as_slice());
            let ghost before = strs_view(record@);
            record.push(f);
            let mut done: Vec<String> = Vec::new();
            std::mem::swap(&mut done, &mut record);
            let ghost rbefore = records_view(records@);
            records.push(done);
            proof {
                assert(strs_view(done@) =~= before.push(st.field));
                assert(records_view(records@) =~= rbefore.push(before.push(st.field)));
                assert(strs_view(record@) =~= Seq::<Seq<char>>::empty());
            }
            field = Vec::new();
            started = false;
            closed = false;
            i = next;
        } else if closed {
            return Err(CliError::invalid_args(to_string("parse error: extraneous or missing \" in quoted-field")));
        } else {
            started = true;
            field.push(ch);
            i = i + 1;
        }
    }
    if in_quotes {
        return Err(CliError::invalid_args(to_string("parse error: extraneous or missing \" in quoted-field")));
    }
    if started || field.len() > 0 || record.len() > 0 {
        let f = string_from_chars(field.as_slice());
        let ghost before = strs_view(record@);
        let ghost rbefore = records_view(records@);
        let ghost fv = field@;
        record.push(f);
        proof {
            assert(strs_view(record@) =~= before.push(fv));
        }
        records.push(record);
        proof {
            assert(records_view(records@) =~= rbefore.push(before.push(fv)));
        }
    }
    Ok(records)
}


pub type CellTuple = (Seq<char>, Seq<char>, Seq<char>, bool);

/// The values of a matrix, row by row.
pub open spec fn matrix_view(m: Seq<Vec<XlsxMatrixCell>>) -> Seq<Seq<CellTuple>> {
    Seq::new(m.len(), |i: int| Seq::new(m[i]@.len(), |j: int| cell_view(m[i]@[j])))
}

/// A text cell.
pub open spec fn text_cell(v: Seq<char>) -> CellTuple {
    ("string"@, v, Seq::empty(), false)
}

fn string_cell(value: String) -> (c: XlsxMatrixCell)
    ensures
        cell_view(c) == text_cell(value@),
{
    proof {
        reveal_strlit("");
    }
    XlsxMatrixCell { kind: to_string("string"), value, formula: String::new(), null: false }
}

/// `parse_xlsx_delimited_matrix`: delimited text as a matrix of text cells
/// in rows.
pub fn parse_xlsx_delimited_matrix(data: &str, delimiter: char) -> (r: CliResult<XlsxRangeSetMatrix>)
    ensures
        match csv_run(data@, delimiter, 0, csv_start()) {
            Some(recs) => r is Ok && r->Ok_0.range is None && r->Ok_0.null_policy is None && r->Ok_0.major_dimension@
                == "rows"@ && matrix_view(r->Ok_0.rows@) == Seq::new(
                recs.len(),
                |i: int| Seq::new(recs[i].len(), |j: int| text_cell(recs[i][j])),
            ),
            None => r is Err && r->Err_0.kind == ErrorKind::InvalidArgs,
        },
{
    let records = parse_delimited_records(data, delimiter)?;
    let ghost recs = records_view(records@);
    let mut rows: Vec<Vec<XlsxMatrixCell>> = Vec::new();
    let mut i: usize = 0;
    while i < records.len()
        invariant
            0 <= i <= records.len(),
            recs == records_view(records@),
            rows@.len() == i,
            forall|a: int| 0 <= a < i ==> (#[trigger] rows@[a])@.len() == recs[a].len() && forall|b: int|
                0 <= b < recs[a].len() ==> cell_view(#[trigger] rows@[a]@[b]) == text_cell(recs[a][b]),
        decreases records.len() - i,
    {
        let mut row: Vec<XlsxMatrixCell> = Vec::new();
        let mut j: usize = 0;
        while j < records[i].len()
            invariant
                0 <= j <= records@[i as int]@.len(),
                i < records.len(),
                recs == records_view(records@),
                row@.len() == j,
                forall|b: int| 0 <= b < j ==> cell_view(#[trigger] row@[b]) == text_cell(recs[i as int][b]),
            decreases records@[i as int]@.len() - j,
        {
            row.push(string_cell(records[i][j].clone()));
            j = j + 1;
        }
        rows.push(row);
        i = i + 1;
    }
    let r = XlsxRangeSetMatrix { range: None, null_policy: None, major_dimension: to_string("rows"), rows };
    proof {
        let want = Seq::new(recs.len(), |i: int| Seq::new(recs[i].len(), |j: int| text_cell(recs[i][j])));
        assert forall|a: int| 0 <= a < want.len() implies #[trigger] matrix_view(r.rows@)[a] == want[a] by {
            assert(matrix_view(r.rows@)[a] =~= want[a]);
        }
        assert(matrix_view(r.rows@) =~= want);
    }
    Ok(r)
}

/// Whether every row has as many cells as the first.
pub open spec fn is_rectangular(m: Seq<Seq<CellTuple>>) -> bool {
    forall|i: int| 0 <= i < m.len() ==> (#[trigger] m[i]).len() == m[0].len()
}

/// The columns of a rectangular matrix as rows.
pub open spec fn transpose_spec(m: Seq<Seq<CellTuple>>) -> Seq<Seq<CellTuple>> {
    if m.len() == 0 {
        m
    } else {
        Seq::new(m[0].len(), |c: int| Seq::new(m.len(), |r: int| m[r][c]))
    }
}

/// `transpose_xlsx_matrix`: a column-major matrix turned into rows; a ragged
/// matrix is refused.
pub fn transpose_xlsx_matrix(rows: Vec<Vec<XlsxMatrixCell>>) -> (r: CliResult<Vec<Vec<XlsxMatrixCell>>>)
    ensures
        is_rectangular(matrix_view(rows@)) ==> r is Ok && matrix_view(r->Ok_0@) == transpose_spec(matrix_view(rows@)),
        !is_rectangular(matrix_view(rows@)) ==> r is Err && r->Err_0.kind == ErrorKind::InvalidArgs,
{
    let ghost m = matrix_view(rows@);
    if rows.len() == 0 {
        return Ok(rows);
    }
    let cols = rows[0].len();
    let mut k: usize = 0;
    while k < rows.len()
        invariant
            0 <= k <= rows.len(),
            m == matrix_view(rows@),
            cols == m[0].len(),
            rows@.len() > 0,
            forall|a: int| 0 <= a < k ==> (#[trigger] m[a]).len() == cols,
        decreases rows.len() - k,
    {
        if rows[k].len() != cols {
            proof {
                assert(m[k as int].len() != m[0].len());
            }
            return Err(CliError::invalid_args(to_string("ragged columns matrix cannot be transposed")));
        }
        k = k + 1;
    }
    let mut out: Vec<Vec<XlsxMatrixCell>> = Vec::new();
    let mut c: usize = 0;
    while c < cols
        invariant
            0 <= c <= cols,
            m == matrix_view(rows@),
            cols == m[0].len(),
            rows@.len() > 0,
            is_rectangular(m),
            out@.len() == c,
            forall|a: int| 0 <= a < c ==> (#[trigger] out@[a])@.len() == rows@.len() && forall|b: int|
                0 <= b < rows@.len() ==> cell_view(#[trigger] out@[a]@[b]) == m[b][a],
        decreases cols - c,
    {
        let mut col: Vec<XlsxMatrixCell> = Vec::new();
        let mut r: usize = 0;
        while r < rows.len()
            invariant
                0 <= r <= rows.len(),
                c < cols,
                m == matrix_view(rows@),
                cols == m[0].len(),
                is_rectangular(m),
                col@.len() == r,
                forall|b: int| 0 <= b < r ==> cell_view(#[trigger] col@[b]) == m[b][c as int],
            decreases rows.len() - r,
        {
            proof {
                assert(m[r as int].len() == cols);
            }
            col.push(rows[r][c].clone_cell());
            r = r + 1;
        }
        out.push(col);
        c = c + 1;
    }
    proof {
        let t = transpose_spec(m);
        assert forall|a: int| 0 <= a < t.len() implies #[trigger] matrix_view(out@)[a] == t[a] by {
            assert(matrix_view(out@)[a] =~= t[a]);
        }
        assert(matrix_view(out@) =~= t);
    }
    Ok(out)
}

/// Transposing a rectangular matrix with at least one column twice gives it
/// back.
pub proof fn lemma_transpose_involutive(m: Seq<Seq<CellTuple>>)
    requires
        is_rectangular(m),
        m.len() > 0 ==> m[0].len() > 0,
    ensures
        is_rectangular(transpose_spec(m)),
        transpose_spec(transpose_spec(m)) == m,
{
    if m.len() > 0 {
        let t = transpose_spec(m);
        assert(is_rectangular(t));
        assert forall|r: int| 0 <= r < m.len() implies #[trigger] transpose_spec(t)[r] == m[r] by {
            assert(transpose_spec(t)[r] =~= m[r]);
        }
        assert(transpose_spec(t) =~= m);
    }
}


/// The length of the longest row.
pub open spec fn max_len(m: Seq<Seq<CellTuple>>) -> nat
    decreases m.len(),
{
    if m.len() == 0 {
        0
    } else {
        let a = max_len(m.drop_last());
        if m.last().len() > a {
            m.last().len()
        } else {
            a
        }
    }
}

/// A row padded with empty text cells to `n` cells.
pub open spec fn pad_row(r: Seq<CellTuple>, n: nat) -> Seq<CellTuple> {
    r + Seq::new((n - r.len()) as nat, |k: int| text_cell(Seq::empty()))
}

/// Why a matrix cannot be evened out in a ragged mode, or nothing: an empty
/// matrix, one without columns, a ragged matrix under `reject` (or an empty
/// mode), and an unknown mode are refused.
pub open spec fn rectangularize_ok(m: Seq<Seq<CellTuple>>, mode: Seq<char>) -> bool {
    &&& m.len() > 0
    &&& max_len(m) > 0
    &&& (mode == ""@ || mode == "reject"@) ==> is_rectangular(m)
    &&& (mode == ""@ || mode == "reject"@ || mode == "fill-empty"@)
}

proof fn lemma_max_len(m: Seq<Seq<CellTuple>>)
    ensures
        forall|i: int| 0 <= i < m.len() ==> (#[trigger] m[i]).len() <= max_len(m),
        m.len() > 0 ==> exists|i: int| 0 <= i < m.len() && (#[trigger] m[i]).len() == max_len(m),
    decreases m.len(),
{
    if m.len() > 0 {
        lemma_max_len(m.drop_last());
        assert forall|i: int| 0 <= i < m.len() implies (#[trigger] m[i]).len() <= max_len(m) by {
            if i < m.len() - 1 {
                assert(m[i] == m.drop_last()[i]);
            }
        }
        if m.len() > 1 && m.last().len() <= max_len(m.drop_last()) {
            let i = choose|i: int| 0 <= i < m.drop_last().len() && (#[trigger] m.drop_last()[i]).len() == max_len(m.drop_last());
            assert(m[i] == m.drop_last()[i]);
        } else {
            assert(m[m.len() - 1] == m.last());
        }
    }
}

/// Padding every row to the longest row's length gives a rectangular matrix
/// whose rows begin with the rows they came from.
pub proof fn lemma_fill_empty_rectangular(m: Seq<Seq<CellTuple>>)
    requires
        m.len() > 0,
    ensures
        ({
            let p = Seq::new(m.len(), |i: int| pad_row(m[i], max_len(m)));
            &&& is_rectangular(p)
            &&& p[0].len() == max_len(m)
            &&& forall|i: int| 0 <= i < m.len() ==> (#[trigger] p[i]).subrange(0, m[i].len() as int) == m[i]
        }),
{
    lemma_max_len(m);
    let p = Seq::new(m.len(), |i: int| pad_row(m[i], max_len(m)));
    assert forall|i: int| 0 <= i < m.len() implies (#[trigger] p[i]).len() == max_len(m) by {
        assert(m[i].len() <= max_len(m));
    }
    assert forall|i: int| 0 <= i < m.len() implies (#[trigger] p[i]).subrange(0, m[i].len() as int) == m[i] by {
        assert(p[i].subrange(0, m[i].len() as int) =~= m[i]);
    }
}

/// The first row from `q` on whose length differs from the first row's, or -1.
pub open spec fn first_ragged_from(m: Seq<Seq<CellTuple>>, q: int) -> int
    decreases m.len() - q,
{
    if q < 1 || q >= m.len() {
        -1
    } else if m[q].len() != m[0].len() {
        q
    } else {
        first_ragged_from(m, q + 1)
    }
}

/// The message a matrix that [`rectangularize_ok`] refuses is refused with.
pub open spec fn rectangularize_error(m: Seq<Seq<CellTuple>>, mode: Seq<char>) -> Seq<char> {
    if m.len() == 0 {
        "values matrix cannot be empty"@
    } else if max_len(m) == 0 {
        "values matrix must contain at least one column"@
    } else if mode == ""@ || mode == "reject"@ {
        let q = first_ragged_from(m, 1);
        "ragged matrix row "@ + decimal((q + 1) as nat) + " has "@ + decimal(m[q].len()) + " columns, want "@
            + decimal(m[0].len())
    } else {
        "invalid ragged mode (must be reject or fill-empty)"@
    }
}

/// `rectangularize_xlsx_matrix`: checks a matrix is even (`reject`) or pads
/// its short rows with empty text cells (`fill-empty`).
pub fn rectangularize_xlsx_matrix(rows: &mut Vec<Vec<XlsxMatrixCell>>, ragged: &str) -> (r: CliResult<()>)
    ensures
        r is Ok <==> rectangularize_ok(matrix_view(old(rows)@), ascii_lower_seq(trim(ragged@))),
        r is Err ==> r->Err_0.kind == ErrorKind::InvalidArgs && *final(rows) == *old(rows),
        r is Err ==> r->Err_0.message@ == rectangularize_error(matrix_view(old(rows)@), ascii_lower_seq(trim(ragged@))),
        r is Ok && ascii_lower_seq(trim(ragged@)) == "fill-empty"@ ==> matrix_view(final(rows)@) == Seq::new(
            old(rows)@.len(),
            |i: int| pad_row(matrix_view(old(rows)@)[i], max_len(matrix_view(old(rows)@))),
        ),
        r is Ok && ascii_lower_seq(trim(ragged@)) != "fill-empty"@ ==> *final(rows) == *old(rows),
{
    let ghost m = matrix_view(rows@);
    proof {
        lemma_max_len(m);
        reveal_strlit("");
        reveal_strlit("reject");
        reveal_strlit("fill-empty");
    }
    if rows.len() == 0 {
        return Err(CliError::invalid_args(to_string("values matrix cannot be empty")));
    }
    let cols = rows[0].len();
    let mut max_cols: usize = 0;
    let mut k: usize = 0;
    while k < rows.len()
        invariant
            0 <= k <= rows.len(),
            m == matrix_view(rows@),
            max_cols == max_len(m.take(k as int)),
        decreases rows.len() - k,
    {
        proof {
            assert(m.take(k + 1).drop_last() =~= m.take(k as int));
            assert(m.take(k + 1).last() == m[k as int]);
        }
        if rows[k].len() > max_cols {
            max_cols = rows[k].len();
        }
        k = k + 1;
    }
    proof {
        assert(m.take(m.len() as int) =~= m);
    }
    if max_cols == 0 {
        return Err(CliError::invalid_args(to_string("values matrix must contain at least one column")));
    }
    let mode = trim_lower(ragged);
    if chars_eq_str(&mode, "") || chars_eq_str(&mode, "reject") {
        let mut q: usize = 1;
        while q < rows.len()
            invariant
                1 <= q <= rows.len(),
                m == matrix_view(rows@),
                m == matrix_view(old(rows)@),
                *rows == *old(rows),
                max_len(m) > 0,
                mode@ == ascii_lower_seq(trim(ragged@)),
                mode@ == ""@ || mode@ == "reject"@,
                cols == m[0].len(),
                forall|a: int| 0 <= a < q ==> (#[trigger] m[a]).len() == cols,
                first_ragged_from(m, 1) == first_ragged_from(m, q as int),
            decreases rows.len() - q,
        {
            if rows[q].len() != cols {
                proof {
                    assert(m[q as int].len() != m[0].len());
                }
                let a = crate::text::u64_to_string((q as u64) + 1);
                let b = crate::text::u64_to_string(rows[q].len() as u64);
                let c = crate::text::u64_to_string(cols as u64);
                let head = crate::text::concat5("ragged matrix row ", a.as_str(), " has ", b.as_str(), " columns, want ");
                return Err(CliError::invalid_args(crate::text::concat2(head.as_str(), c.as_str())));
            }
            q = q + 1;
        }
        return Ok(());
    }
    if !chars_eq_str(&mode, "fill-empty") {
        return Err(CliError::invalid_args(to_string("invalid ragged mode (must be reject or fill-empty)")));
    }
    let mut out: Vec<Vec<XlsxMatrixCell>> = Vec::new();
    let mut i: usize = 0;
    while i < rows.len()
        invariant
            0 <= i <= rows.len(),
            m == matrix_view(rows@),
            max_cols == max_len(m),
            forall|a: int| 0 <= a < m.len() ==> (#[trigger] m[a]).len() <= max_len(m),
            out@.len() == i,
            forall|a: int| 0 <= a < i ==> (#[trigger] matrix_view(out@)[a]) == pad_row(m[a], max_len(m)),
        decreases rows.len() - i,
    {
        let mut row: Vec<XlsxMatrixCell> = Vec::new();
        let mut j: usize = 0;
        let n = rows[i].len();
        while j < n
            invariant
                0 <= j <= n,
                i < rows.len(),
                n == rows@[i as int]@.len(),
                m == matrix_view(rows@),
                row@.len() == j,
                forall|b: int| 0 <= b < j ==> cell_view(#[trigger] row@[b]) == m[i as int][b],
            decreases n - j,
        {
            row.push(rows[i][j].clone_cell());
            j = j + 1;
        }
        proof {
            assert(m[i as int].len() <= max_len(m));
        }
        while j < max_cols
            invariant
                n <= j <= max_cols,
                i < rows.len(),
                n == m[i as int].len(),
                row@.len() == j,
                forall|b: int| 0 <= b < n ==> cell_view(#[trigger] row@[b]) == m[i as int][b],
                forall|b: int| n <= b < j ==> cell_view(#[trigger] row@[b]) == text_cell(Seq::empty()),
            decreases max_cols - j,
        {
            row.push(string_cell(String::new()));
            j = j + 1;
        }
        let ghost before = out@;
        out.push(row);
        proof {
            assert(matrix_view(out@)[i as int] =~= pad_row(m[i as int], max_len(m)));
            assert forall|a: int| 0 <= a < i + 1 implies (#[trigger] matrix_view(out@)[a]) == pad_row(m[a], max_len(m)) by {
                if a < i {
                    assert(out@[a] == before[a]);
                    assert(matrix_view(out@)[a] =~= matrix_view(before)[a]);
                }
            }
        }
        i = i + 1;
    }
    *rows = out;
    proof {
        assert(matrix_view(rows@) =~= Seq::new(m.len(), |i: int| pad_row(m[i], max_len(m))));
    }
    Ok(())
}

/// The range a matrix of `rows` by `cols` is written over: from exactly one
/// of `--anchor` (the top-left cell), `--range`, or the input's own range,
/// which must have the matrix's size.
pub open spec fn ranges_set_bounds_spec(
    range: Option<&str>,
    anchor: Option<&str>,
    input_range: Option<&str>,
    rows: int,
    cols: int,
) -> Result<RangeBounds, ErrorKind> {
    let n = (if present(range) { 1int } else { 0int }) + (if present(anchor) { 1int } else { 0int }) + (if present(input_range) { 1int } else { 0int });
    if n != 1 {
        Err(ErrorKind::InvalidArgs)
    } else if present(anchor) {
        match cell_ref_spec(anchor.unwrap()@) {
            None => Err(ErrorKind::InvalidArgs),
            Some(c) => Ok(RangeBounds {
                start_col: c.0,
                start_row: c.1,
                end_col: (c.0 + cols - 1) as u32,
                end_row: (c.1 + rows - 1) as u32,
            }),
        }
    } else {
        let text = if present(input_range) {
            input_range.unwrap()@
        } else {
            match range {
                Some(r) => r@,
                None => Seq::empty(),
            }
        };
        match range_spec(text) {
            None => Err(ErrorKind::InvalidArgs),
            Some(b) => if b.hi_row() - b.lo_row() + 1 != rows || b.hi_col() - b.lo_col() + 1 != cols {
                Err(ErrorKind::InvalidArgs)
            } else {
                Ok(b)
            },
        }
    }
}

/// `resolve_xlsx_ranges_set_bounds`: the range a matrix is written over.
pub fn resolve_xlsx_ranges_set_bounds(
    range: Option<&str>,
    anchor: Option<&str>,
    input_range: Option<&str>,
    rows: usize,
    cols: usize,
) -> (r: CliResult<RangeBounds>)
    requires
        rows <= u32::MAX - 1_048_576,
        cols <= u32::MAX - 16_384,
    ensures
        match ranges_set_bounds_spec(range, anchor, input_range, rows as int, cols as int) {
            Err(k) => r is Err && r->Err_0.kind == k,
            Ok(b) => r is Ok && r->Ok_0 == b,
        },
{
    let mut sources: u32 = 0;
    if is_present(range) {
        sources = sources + 1;
    }
    if is_present(anchor) {
        sources = sources + 1;
    }
    if is_present(input_range) {
        sources = sources + 1;
    }
    if sources != 1 {
        return Err(CliError::invalid_args(to_string("must specify exactly one of --anchor, --range, or JSON input range")));
    }
    if is_present(anchor) {
        let a = anchor.unwrap();
        let (start_col, start_row) = match parse_cell_ref(a) {
            Ok(p) => p,
            Err(e) => {
                return Err(CliError::invalid_args(concat2("invalid --anchor: ", e.message.as_str())));
            },
        };
        proof {
            crate::cellref::lemma_a1_valid(a@);
        }
        let end_col = start_col + (cols as u32) - 1;
        let end_row = start_row + (rows as u32) - 1;
        return Ok(RangeBounds { start_col, start_row, end_col, end_row });
    }
    let text = if is_present(input_range) {
        input_range.unwrap()
    } else {
        match range {
            Some(r) => r,
            None => "",
        }
    };
    proof {
        reveal_strlit("");
    }
    let bounds = parse_cli_range(text)?;
    let range_rows = bounds.row_count();
    let range_cols = bounds.col_count();
    if range_rows as usize != rows || range_cols as usize != cols {
        return Err(CliError::invalid_args(concat2("range does not have the values matrix's size: ", text)));
    }
    Ok(bounds)
}


// ---------------------------------------------------------------------------
// JSON input
// ---------------------------------------------------------------------------

/// A JSON value as the command reads it: a number is kept as the text JSON
/// writes for it; an object keeps its members (each key once) in order.
#[derive(Debug)]
pub enum JsonValue {
    Null,
    Bool(bool),
    Number(String),
    Str(String),
    Array(Vec<JsonValue>),
    Object(Vec<(String, JsonValue)>),
}

/// The index of the member named `key`, or -1.
pub open spec fn key_index(fields: Seq<(String, JsonValue)>, key: Seq<char>, i: int) -> int
    decreases fields.len() - i,
{
    if i < 0 || i >= fields.len() {
        -1
    } else if fields[i].0@ == key {
        i
    } else {
        key_index(fields, key, i + 1)
    }
}

proof fn lemma_key_index(fields: Seq<(String, JsonValue)>, key: Seq<char>, i: int)
    requires
        0 <= i,
    ensures
        key_index(fields, key, i) == -1 || (i <= key_index(fields, key, i) < fields.len() && fields[key_index(fields, key, i)].0@
            == key),
    decreases fields.len() - i,
{
    if i < fields.len() && fields[i].0@ != key {
        lemma_key_index(fields, key, i + 1);
    }
}

fn find_key(fields: &Vec<(String, JsonValue)>, key: &str) -> (r: Option<usize>)
    ensures
        key_index(fields@, key@, 0) == match r {
            Some(k) => k as int,
            None => -1,
        },
        r is Some ==> r->0 < fields@.len(),
{
    let mut i: usize = 0;
    while i < fields.len()
        invariant
            0 <= i <= fields.len(),
            key_index(fields@, key@, 0) == key_index(fields@, key@, i as int),
        decreases fields.len() - i,
    {
        if str_eq_local(fields[i].0.as_str(), key) {
            return Some(i);
        }
        i = i + 1;
    }
    None
}

fn str_eq_local(a: &str, b: &str) -> (r: bool)
    ensures
        r == (a@ == b@),
{
    crate::text::str_eq(a, b)
}

/// The cell a JSON value gives: null, a string, a number (its JSON text), a
/// boolean, or an object with a non-blank string `formula`, or with a
/// `value` (read the same way) and an optional string `type`; anything else
/// is refused.
pub open spec fn json_cell_spec(v: JsonValue) -> Option<CellTuple>
    decreases v,
{
    match v {
        JsonValue::Null => Some(("empty"@, Seq::empty(), Seq::empty(), true)),
        JsonValue::Str(s) => Some(("string"@, s@, Seq::empty(), false)),
        JsonValue::Number(t) => Some(("number"@, t@, Seq::empty(), false)),
        JsonValue::Bool(b) => Some((
            "boolean"@,
            if b {
                "true"@
            } else {
                "false"@
            },
            Seq::empty(),
            false,
        )),
        JsonValue::Object(fields) => {
            let fi = key_index(fields@, "formula"@, 0);
            let vi = key_index(fields@, "value"@, 0);
            let ti = key_index(fields@, "type"@, 0);
            if 0 <= fi < fields@.len() {
                match fields@[fi].1 {
                    JsonValue::Str(f) => if is_blank(f@) {
                        None
                    } else {
                        Some(("formula"@, f@, f@, false))
                    },
                    _ => None,
                }
            } else if 0 <= vi < fields@.len() {
                match json_cell_spec(fields@[vi].1) {
                    None => None,
                    Some(c) => if 0 <= ti < fields@.len() {
                        match fields@[ti].1 {
                            JsonValue::Str(k) => {
                                let kk = ascii_lower_seq(trim(k@));
                                Some((
                                    kk,
                                    c.1,
                                    if kk == "formula"@ {
                                        c.1
                                    } else {
                                        c.2
                                    },
                                    c.3,
                                ))
                            },
                            _ => None,
                        }
                    } else {
                        Some(c)
                    },
                }
            } else {
                None
            }
        },
        JsonValue::Array(_) => None,
    }
}

/// `parse_xlsx_matrix_cell`: the cell a JSON value gives.
pub fn parse_xlsx_matrix_cell(value: &JsonValue) -> (r: CliResult<XlsxMatrixCell>)
    ensures
        match json_cell_spec(*value) {
            Some(c) => r is Ok && cell_view(r->Ok_0) == c,
            None => r is Err && r->Err_0.kind == ErrorKind::InvalidArgs,
        },
    decreases value,
{
    proof {
        reveal_strlit("");
    }
    match value {
        JsonValue::Null => Ok(XlsxMatrixCell { kind: to_string("empty"), value: String::new(), formula: String::new(), null: true }),
        JsonValue::Str(s) => Ok(XlsxMatrixCell { kind: to_string("string"), value: s.clone(), formula: String::new(), null: false }),
        JsonValue::Number(t) => Ok(XlsxMatrixCell { kind: to_string("number"), value: t.clone(), formula: String::new(), null: false }),
        JsonValue::Bool(b) => Ok(
            XlsxMatrixCell {
                kind: to_string("boolean"),
                value: if *b {
                    to_string("true")
                } else {
                    to_string("false")
                },
                formula: String::new(),
                null: false,
            },
        ),
        JsonValue::Object(fields) => {
            proof {
                lemma_key_index(fields@, "formula"@, 0);
                lemma_key_index(fields@, "value"@, 0);
                lemma_key_index(fields@, "type"@, 0);
            }
            if let Some(fi) = find_key(fields, "formula") {
                return match &fields[fi].1 {
                    JsonValue::Str(f) => {
                        if trim_chars_len(f.as_str()) == 0 {
                            Err(CliError::invalid_args(to_string("formula cannot be empty")))
                        } else {
                            Ok(XlsxMatrixCell { kind: to_string("formula"), value: f.clone(), formula: f.clone(), null: false })
                        }
                    },
                    _ => Err(CliError::invalid_args(to_string("formula must be a string"))),
                };
            }
            let vi = match find_key(fields, "value") {
                Some(k) => k,
                None => {
                    return Err(CliError::invalid_args(to_string("object cell must contain value or formula")));
                },
            };
            let mut cell = parse_xlsx_matrix_cell(&fields[vi].1)?;
            if let Some(ti) = find_key(fields, "type") {
                match &fields[ti].1 {
                    JsonValue::Str(k) => {
                        let kk = trim_lower(k.as_str());
                        cell.kind = vec_to_string(&kk);
                        if chars_eq_str(&kk, "formula") {
                            cell.formula = cell.value.clone();
                        }
                    },
                    _ => {
                        return Err(CliError::invalid_args(to_string("type must be a string")));
                    },
                }
            }
            Ok(cell)
        },
        JsonValue::Array(_) => Err(CliError::invalid_args(to_string("unsupported JSON cell type"))),
    }
}

fn trim_chars_len(s: &str) -> (r: usize)
    ensures
        (r == 0) == is_blank(s@),
{
    crate::text::trim_chars(s).len()
}

/// The rows of cells a JSON array of arrays gives, or `None` when it is not
/// one or a cell is refused.
pub open spec fn json_rows_spec(v: JsonValue) -> Option<Seq<Seq<CellTuple>>> {
    match v {
        JsonValue::Array(rows) => if forall|i: int| 0 <= i < rows@.len() ==> (#[trigger] rows@[i]) is Array && forall|j: int|
            0 <= j < rows@[i]->Array_0@.len() ==> json_cell_spec(#[trigger] rows@[i]->Array_0@[j]) is Some {
            Some(
                Seq::new(
                    rows@.len(),
                    |i: int| Seq::new(rows@[i]->Array_0@.len(), |j: int| json_cell_spec(rows@[i]->Array_0@[j]).unwrap()),
                ),
            )
        } else {
            None
        },
        _ => None,
    }
}

/// `parse_xlsx_matrix_rows`: the rows of cells of a JSON array of arrays.
pub fn parse_xlsx_matrix_rows(value: &JsonValue) -> (r: CliResult<Vec<Vec<XlsxMatrixCell>>>)
    ensures
        match json_rows_spec(*value) {
            Some(m) => r is Ok && matrix_view(r->Ok_0@) == m,
            None => r is Err && r->Err_0.kind == ErrorKind::InvalidArgs,
        },
{
    let rows = match value {
        JsonValue::Array(rows) => rows,
        _ => {
            return Err(CliError::invalid_args(to_string("values must be an array of arrays")));
        },
    };
    let mut out: Vec<Vec<XlsxMatrixCell>> = Vec::new();
    let mut i: usize = 0;
    while i < rows.len()
        invariant
            0 <= i <= rows.len(),
            *value == JsonValue::Array(*rows),
            out@.len() == i,
            forall|a: int| 0 <= a < i ==> (#[trigger] rows@[a]) is Array && forall|b: int|
                0 <= b < rows@[a]->Array_0@.len() ==> json_cell_spec(#[trigger] rows@[a]->Array_0@[b]) is Some,
            forall|a: int| 0 <= a < i ==> (#[trigger] out@[a])@.len() == rows@[a]->Array_0@.len() && forall|b: int|
                0 <= b < out@[a]@.len() ==> cell_view(#[trigger] out@[a]@[b]) == json_cell_spec(rows@[a]->Array_0@[b]).unwrap(),
        decreases rows.len() - i,
    {
        let cells = match &rows[i] {
            JsonValue::Array(c) => c,
            _ => {
                return Err(CliError::invalid_args(to_string("values must be an array of arrays")));
            },
        };
        let mut row: Vec<XlsxMatrixCell> = Vec::new();
        let mut j: usize = 0;
        while j < cells.len()
            invariant
                0 <= j <= cells.len(),
                i < rows.len(),
                rows@[i as int] == JsonValue::Array(*cells),
                *value == JsonValue::Array(*rows),
                row@.len() == j,
                forall|b: int| 0 <= b < j ==> json_cell_spec(#[trigger] cells@[b]) is Some,
                forall|b: int| 0 <= b < j ==> cell_view(#[trigger] row@[b]) == json_cell_spec(cells@[b]).unwrap(),
            decreases cells.len() - j,
        {
            let c = match parse_xlsx_matrix_cell(&cells[j]) {
                Ok(c) => c,
                Err(e) => {
                    proof {
                        assert(rows@[i as int]->Array_0@[j as int] == cells@[j as int]);
                        assert(json_cell_spec(rows@[i as int]->Array_0@[j as int]) is None);
                        assert(!(forall|a: int| 0 <= a < rows@.len() ==> (#[trigger] rows@[a]) is Array && forall|b: int|
                            0 <= b < rows@[a]->Array_0@.len() ==> json_cell_spec(#[trigger] rows@[a]->Array_0@[b]) is Some));
                    }
                    return Err(CliError::invalid_args(concat2("invalid values cell: ", e.message.as_str())));
                },
            };
            row.push(c);
            j = j + 1;
        }
        out.push(row);
        i = i + 1;
    }
    proof {
        let m = json_rows_spec(*value).unwrap();
        assert forall|a: int| 0 <= a < m.len() implies #[trigger] matrix_view(out@)[a] == m[a] by {
            assert(matrix_view(out@)[a] =~= m[a]);
        }
        assert(matrix_view(out@) =~= m);
    }
    Ok(out)
}


/// The text of a member when it is a string.
pub open spec fn member_str(fields: Seq<(String, JsonValue)>, key: Seq<char>) -> Option<Seq<char>> {
    let k = key_index(fields, key, 0);
    if 0 <= k < fields.len() {
        match fields[k].1 {
            JsonValue::Str(s) => Some(s@),
            _ => None,
        }
    } else {
        None
    }
}

/// The matrix a JSON input gives: an object with `values` (and optional
/// `range`, `nullPolicy` and `majorDimension`), or the values alone; a
/// column-major matrix is transposed into rows.
pub open spec fn json_matrix_spec(raw: JsonValue) -> Option<(Option<Seq<char>>, Option<Seq<char>>, Seq<char>, Seq<Seq<CellTuple>>)> {
    let wrapped = raw is Object && 0 <= key_index(raw->Object_0@, "values"@, 0) < raw->Object_0@.len();
    let values = if wrapped {
        raw->Object_0@[key_index(raw->Object_0@, "values"@, 0)].1
    } else {
        raw
    };
    let range = if wrapped {
        member_str(raw->Object_0@, "range"@)
    } else {
        None
    };
    let policy = if wrapped {
        member_str(raw->Object_0@, "nullPolicy"@)
    } else {
        None
    };
    let md = if wrapped {
        match member_str(raw->Object_0@, "majorDimension"@) {
            Some(m) => m,
            None => "rows"@,
        }
    } else {
        "rows"@
    };
    let mode = ascii_lower_seq(trim(md));
    match json_rows_spec(values) {
        None => None,
        Some(m) => if mode == ""@ || mode == "rows"@ {
            Some((range, policy, "rows"@, m))
        } else if mode == "columns"@ {
            if is_rectangular(m) {
                Some((range, policy, "columns"@, transpose_spec(m)))
            } else {
                None
            }
        } else {
            None
        },
    }
}

pub(crate) fn member_string(fields: &Vec<(String, JsonValue)>, key: &str) -> (r: Option<String>)
    ensures
        match member_str(fields@, key@) {
            Some(v) => r is Some && r->0@ == v,
            None => r is None,
        },
{
    proof {
        lemma_key_index(fields@, key@, 0);
    }
    match find_key(fields, key) {
        Some(k) => match &fields[k].1 {
            JsonValue::Str(s) => Some(s.clone()),
            _ => None,
        },
        None => None,
    }
}

pub open spec fn opt_string_view(o: Option<String>) -> Option<Seq<char>> {
    match o {
        Some(s) => Some(s@),
        None => None,
    }
}

/// `parse_xlsx_range_set_json_value_owned`: the matrix a JSON input gives.
pub fn parse_xlsx_range_set_json_value_owned(raw: JsonValue) -> (r: CliResult<XlsxRangeSetMatrix>)
    ensures
        match json_matrix_spec(raw) {
            Some(v) => r is Ok && opt_string_view(r->Ok_0.range) == v.0 && opt_string_view(r->Ok_0.null_policy) == v.1
                && r->Ok_0.major_dimension@ == v.2 && matrix_view(r->Ok_0.rows@) == v.3,
            None => r is Err && r->Err_0.kind == ErrorKind::InvalidArgs,
        },
{
    proof {
        reveal_strlit("");
        reveal_strlit("rows");
        reveal_strlit("columns");
    }
    let (range, policy, md, rows) = match &raw {
        JsonValue::Object(fields) => {
            proof {
                lemma_key_index(fields@, "values"@, 0);
            }
            match find_key(fields, "values") {
                Some(vi) => {
                    let range = member_string(fields, "range");
                    let policy = member_string(fields, "nullPolicy");
                    let md = match member_string(fields, "majorDimension") {
                        Some(m) => m,
                        None => to_string("rows"),
                    };
                    let rows = parse_xlsx_matrix_rows(&fields[vi].1)?;
                    (range, policy, md, rows)
                },
                None => {
                    let rows = parse_xlsx_matrix_rows(&raw)?;
                    (None, None, to_string("rows"), rows)
                },
            }
        },
        _ => {
            let rows = parse_xlsx_matrix_rows(&raw)?;
            (None, None, to_string("rows"), rows)
        },
    };
    let mode = trim_lower(md.as_str());
    if chars_eq_str(&mode, "") || chars_eq_str(&mode, "rows") {
        return Ok(XlsxRangeSetMatrix { range, null_policy: policy, major_dimension: to_string("rows"), rows });
    }
    if chars_eq_str(&mode, "columns") {
        let t = transpose_xlsx_matrix(rows)?;
        return Ok(XlsxRangeSetMatrix { range, null_policy: policy, major_dimension: to_string("columns"), rows: t });
    }
    Err(CliError::invalid_args(to_string("majorDimension must be rows or columns")))
}

} // verus!
