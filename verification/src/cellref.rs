//! A1-style cell references (`B7`, `$C$12`), column letters and rectangular
//! ranges (`A1:C3`).
use vstd::prelude::*;
use vstd::string::StringExecFns;
use crate::error::{CliError, CliResult, ErrorKind};
use crate::text::{
    all_digits, ascii_upper, char_is_ascii_alpha, char_is_ascii_digit, char_to_ascii_upper,
    concat2, concat3, concat4, contains_char, decimal, find_from, first_non_ws_from,
    is_ascii_alpha, is_ascii_digit, is_ascii_upper, is_white_space, last_non_ws_before,
    lemma_decimal, lemma_find_contains, lemma_find_from, lemma_parse_decimal_u32, min_nat, parse_u32_chars, parse_u32_spec, slice_vec, str_chars, str_eq,
    string_from_chars, to_string, trim, trim_chars, trim_string, u32_to_string,
    vec_contains_char, vec_find_char, vec_to_string, debug_quoted, str_debug_text, debug_quoted_char,
    char_debug_text,
};

verus! {

pub const XLSX_MAX_COLUMN: u32 = 16_384;

pub const XLSX_MAX_ROW_NUMBER: u32 = 1_048_576;

// ---------------------------------------------------------------------------
// Column letters
// ---------------------------------------------------------------------------

/// The value of one column letter: `A`/`a` is 1, `Z`/`z` is 26.
pub open spec fn letter_value(c: char) -> nat {
    ((ascii_upper(c) as u32) - 64) as nat
}

/// The column number spelled by the letters (bijective base 26).
pub open spec fn letters_value(s: Seq<char>) -> nat
    decreases s.len(),
{
    if s.len() == 0 {
        0
    } else {
        letters_value(s.drop_last()) * 26 + letter_value(s.last())
    }
}

pub open spec fn all_alpha(s: Seq<char>) -> bool {
    forall|i: int| 0 <= i < s.len() ==> is_ascii_alpha(#[trigger] s[i])
}

/// The upper-case letter for a value 0..25.
pub open spec fn upper_letter(d: nat) -> char {
    ((65 + d) as u8) as char
}

/// The column letters of a column number (`col_name`); 0 has none.
pub open spec fn column_letters(n: nat) -> Seq<char>
    decreases n,
{
    if n == 0 {
        Seq::empty()
    } else {
        column_letters(((n - 1) as nat) / 26).push(upper_letter(((n - 1) as nat) % 26))
    }
}

/// End of the run of ASCII letters that starts at `i`.
pub open spec fn alpha_run_end(s: Seq<char>, i: int) -> int
    decreases s.len() - i,
{
    if i < 0 || i >= s.len() {
        s.len() as int
    } else if !is_ascii_alpha(s[i]) {
        i
    } else {
        alpha_run_end(s, i + 1)
    }
}

pub proof fn lemma_alpha_run_end(s: Seq<char>, i: int)
    requires
        0 <= i <= s.len(),
    ensures
        i <= alpha_run_end(s, i) <= s.len(),
        forall|k: int| i <= k < alpha_run_end(s, i) ==> is_ascii_alpha(#[trigger] s[k]),
        alpha_run_end(s, i) < s.len() ==> !is_ascii_alpha(s[alpha_run_end(s, i)]),
    decreases s.len() - i,
{
    if i < s.len() && is_ascii_alpha(s[i]) {
        lemma_alpha_run_end(s, i + 1);
    }
}

/// The column number of non-empty column letters, or `None` when a character is
/// not a letter or the column lies beyond `XFD` (16384).
pub open spec fn column_index_spec(letters: Seq<char>) -> Option<u32> {
    if trim(letters).len() == 0 || !all_alpha(letters) || letters_value(letters) > 16384 {
        None
    } else {
        Some(letters_value(letters) as u32)
    }
}

/// Value of `v[from..to]` as column letters, capped at 16385, or `None` when a
/// character is not a letter.
fn capped_letters_value(v: &Vec<char>, from: usize, to: usize) -> (r: Option<u32>)
    requires
        from <= to <= v.len(),
    ensures
        r is Some <==> all_alpha(v@.subrange(from as int, to as int)),
        r is Some ==> r.unwrap() == min_nat(
            letters_value(v@.subrange(from as int, to as int)),
            16385,
        ),
{
    let mut acc: u32 = 0;
    let mut i = from;
    while i < to
        invariant
            from <= i <= to <= v.len(),
            all_alpha(v@.subrange(from as int, i as int)),
            acc == min_nat(letters_value(v@.subrange(from as int, i as int)), 16385),
        decreases to - i,
    {
        let c = v[i];
        if !char_is_ascii_alpha(c) {
            proof {
                let s = v@.subrange(from as int, to as int);
                assert(s[i - from] == c);
            }
            return None;
        }
        let u = char_to_ascii_upper(c) as u32;
        let d: u32 = u - 64;
        let ghost prev = v@.subrange(from as int, i as int);
        let ghost next = v@.subrange(from as int, i + 1);
        proof {
            assert(next.drop_last() =~= prev);
            assert(next.last() == c);
            assert(letters_value(next) == letters_value(prev) * 26 + letter_value(c));
            assert forall|k: int| 0 <= k < next.len() implies is_ascii_alpha(#[trigger] next[k]) by {
                if k < prev.len() {
                    assert(next[k] == prev[k]);
                }
            }
        }
        if acc >= 16385 {
            proof {
                assert(letters_value(next) >= letters_value(prev)) by (nonlinear_arith)
                    requires
                        letters_value(next) == letters_value(prev) * 26 + letter_value(c),
                ;
            }
        } else {
            let t: u64 = acc as u64 * 26 + d as u64;
            if t >= 16385 {
                acc = 16385;
            } else {
                acc = t as u32;
            }
        }
        i = i + 1;
    }
    Some(acc)
}

/// The message column letters are refused with, reading them from `i` on
/// with the value `acc` so far: the first character that is not a letter,
/// or the letters quoted whole once the value passes `XFD`.
pub open spec fn column_letters_error_from(s: Seq<char>, i: int, acc: int) -> Option<Seq<char>>
    decreases s.len() - i,
{
    if i < 0 || i >= s.len() {
        None
    } else if !is_ascii_alpha(s[i]) {
        Some("invalid column letter "@ + char_debug_text(s[i]))
    } else if acc * 26 + letter_value(s[i]) > 16384 {
        Some("column "@ + str_debug_text(s) + " out of XLSX bounds A-XFD"@)
    } else {
        column_letters_error_from(s, i + 1, acc * 26 + letter_value(s[i]))
    }
}

/// The message of a refused [`column_letters_to_index`].
pub open spec fn column_letters_error(s: Seq<char>) -> Seq<char> {
    if trim(s).len() == 0 {
        "column letters cannot be empty"@
    } else {
        match column_letters_error_from(s, 0, 0) {
            Some(m) => m,
            None => Seq::empty(),
        }
    }
}

/// Letters never lose value as more letters follow.
pub proof fn lemma_letters_prefix_le(s: Seq<char>, j: int)
    requires
        0 <= j <= s.len(),
    ensures
        letters_value(s.subrange(0, j)) <= letters_value(s),
    decreases s.len(),
{
    if j < s.len() {
        let d = s.drop_last();
        assert(d.subrange(0, j) =~= s.subrange(0, j));
        lemma_letters_prefix_le(d, j);
        let a = letters_value(d);
        let b = letter_value(s.last());
        assert(a <= a * 26 + b) by (nonlinear_arith);
    } else {
        assert(s.subrange(0, j) =~= s);
    }
}

/// `column_letters_to_index`: the column number of letters such as `AB`.
pub fn column_letters_to_index(letters: &str) -> (r: CliResult<u32>)
    ensures
        r is Ok <==> column_index_spec(letters@) is Some,
        r is Ok ==> r->Ok_0 == column_index_spec(letters@).unwrap(),
        r is Err ==> r->Err_0.kind == ErrorKind::InvalidArgs,
        r is Err ==> r->Err_0.message@ == column_letters_error(letters@),
{
    let t = trim_chars(letters);
    if t.len() == 0 {
        return Err(CliError::invalid_args(to_string("column letters cannot be empty")));
    }
    let v = str_chars(letters);
    let mut acc: u32 = 0;
    let mut i: usize = 0;
    while i < v.len()
        invariant
            0 <= i <= v@.len(),
            v@ == letters@,
            trim(letters@).len() > 0,
            all_alpha(v@.subrange(0, i as int)),
            acc as int == letters_value(v@.subrange(0, i as int)),
            acc <= 16384,
            column_letters_error_from(v@, 0, 0) == column_letters_error_from(v@, i as int, acc as int),
        decreases v@.len() - i,
    {
        let c = v[i];
        if !char_is_ascii_alpha(c) {
            proof {
                assert(!all_alpha(v@));
            }
            let q = debug_quoted_char(c);
            return Err(CliError::invalid_args(concat2("invalid column letter ", q.as_str())));
        }
        let u = char_to_ascii_upper(c) as u32;
        let d: u32 = u - 64;
        let ghost prev = v@.subrange(0, i as int);
        let ghost next = v@.subrange(0, i + 1);
        proof {
            assert(next.drop_last() =~= prev);
            assert(next.last() == c);
            assert(d == letter_value(c));
            assert(letters_value(next) == letters_value(prev) * 26 + letter_value(c));
            assert forall|k: int| 0 <= k < next.len() implies is_ascii_alpha(#[trigger] next[k]) by {
                if k < prev.len() {
                    assert(next[k] == prev[k]);
                }
            }
        }
        let next_acc: u32 = acc * 26 + d;
        if next_acc > 16384 {
            proof {
                if all_alpha(v@) {
                    lemma_letters_prefix_le(v@, i + 1);
                }
            }
            let q = debug_quoted(letters);
            return Err(CliError::invalid_args(concat3("column ", q.as_str(), " out of XLSX bounds A-XFD")));
        }
        acc = next_acc;
        i = i + 1;
    }
    proof {
        assert(v@.subrange(0, v@.len() as int) =~= v@);
    }
    Ok(acc)
}

fn push_column_letters(out: &mut Vec<char>, col: u32)
    ensures
        final(out)@ == old(out)@ + column_letters(col as nat),
    decreases col,
{
    if col > 0 {
        let m = col - 1;
        push_column_letters(out, m / 26);
        let d: u8 = (m % 26) as u8;
        out.push((65u8 + d) as char);
        proof {
            assert(column_letters(col as nat) == column_letters((m / 26) as nat).push(
                upper_letter((m % 26) as nat),
            ));
        }
    } else {
        assert(old(out)@ + column_letters(0) =~= old(out)@);
    }
}

/// `col_name`: the letters of a column number (`1` is `A`, `27` is `AA`).
pub fn col_name(col: u32) -> (r: String)
    ensures
        r@ == column_letters(col as nat),
{
    let mut v: Vec<char> = Vec::new();
    push_column_letters(&mut v, col);
    assert(v@ =~= column_letters(col as nat));
    string_from_chars(v.as_slice())
}

/// `column_name`: the same spelling as [`col_name`].
pub fn column_name(col: u32) -> (r: String)
    ensures
        r@ == column_letters(col as nat),
{
    col_name(col)
}

// ---------------------------------------------------------------------------
// Cell references
// ---------------------------------------------------------------------------

/// A parsed cell reference with its absolute markers.
#[derive(Clone, Copy, PartialEq, Eq, Structural, Debug)]
pub struct HyperlinkCellRef {
    pub col: u32,
    pub row: u32,
    pub abs_col: bool,
    pub abs_row: bool,
}

/// Where the column letters of a trimmed reference start: after an optional `$`.
pub open spec fn a1_col_start(t: Seq<char>) -> int {
    if t.len() > 0 && t[0] == '$' {
        1
    } else {
        0
    }
}

/// Where the column letters end.
pub open spec fn a1_col_end(t: Seq<char>) -> int {
    alpha_run_end(t, a1_col_start(t))
}

/// Where the row digits start: after an optional `$` behind the letters.
pub open spec fn a1_row_start(t: Seq<char>) -> int {
    let e = a1_col_end(t);
    if e < t.len() && t[e] == '$' {
        e + 1
    } else {
        e
    }
}

/// A cell reference as `parse_cell_ref` and `parse_hyperlink_cell` read it:
/// after trimming, letters for a column within `A..XFD`, then the digits of a
/// row within 1..1048576, each optionally preceded by `$`.
pub open spec fn a1_spec(cell: Seq<char>) -> Option<HyperlinkCellRef> {
    let t = trim(cell);
    let cs = a1_col_start(t);
    let ce = a1_col_end(t);
    let rs = a1_row_start(t);
    let letters = t.subrange(cs, ce);
    let row_text = t.subrange(rs, t.len() as int);
    if t.len() == 0 || ce == cs || letters_value(letters) > 16384 || row_text.len() == 0
        || !all_digits(row_text) {
        None
    } else {
        match parse_u32_spec(row_text) {
            Some(row) => if 1 <= row && row <= 1_048_576 {
                Some(
                    HyperlinkCellRef {
                        col: letters_value(letters) as u32,
                        row: row,
                        abs_col: cs == 1,
                        abs_row: rs == ce + 1,
                    },
                )
            } else {
                None
            },
            None => None,
        }
    }
}

/// `(column, row)` of a cell reference, ignoring its absolute markers.
pub open spec fn cell_ref_spec(cell: Seq<char>) -> Option<(u32, u32)> {
    match a1_spec(cell) {
        Some(r) => Some((r.col, r.row)),
        None => None,
    }
}

fn a1_positions(t: &Vec<char>) -> (r: (usize, usize, usize))
    ensures
        r.0 == a1_col_start(t@),
        r.1 == a1_col_end(t@),
        r.2 == a1_row_start(t@),
        r.0 <= r.1 <= r.2 <= t.len(),
        forall|k: int| r.0 <= k < r.1 ==> is_ascii_alpha(#[trigger] t@[k]),
{
    let n = t.len();
    let i: usize = if n > 0 && t[0] == '$' {
        1
    } else {
        0
    };
    let mut j = i;
    while j < n && char_is_ascii_alpha(t[j])
        invariant
            i <= j <= n,
            n == t.len(),
            i == a1_col_start(t@),
            alpha_run_end(t@, j as int) == alpha_run_end(t@, i as int),
        decreases n - j,
    {
        j = j + 1;
    }
    proof {
        lemma_alpha_run_end(t@, i as int);
    }
    let k = if j < n && t[j] == '$' {
        j + 1
    } else {
        j
    };
    (i, j, k)
}

fn all_digits_range(t: &Vec<char>, k: usize) -> (r: Option<usize>)
    requires
        k <= t.len(),
    ensures
        r is None <==> all_digits(t@.subrange(k as int, t.len() as int)),
        r is Some ==> k <= r.unwrap() < t.len() && !is_ascii_digit(t@[r.unwrap() as int]),
{
    let n = t.len();
    let ghost rt = t@.subrange(k as int, n as int);
    let mut q = k;
    while q < n
        invariant
            k <= q <= n,
            n == t.len(),
            rt == t@.subrange(k as int, n as int),
            forall|z: int| k <= z < q ==> is_ascii_digit(#[trigger] t@[z]),
        decreases n - q,
    {
        if !char_is_ascii_digit(t[q]) {
            proof {
                assert(rt[q - k] == t@[q as int]);
            }
            return Some(q);
        }
        q = q + 1;
    }
    proof {
        assert forall|z: int| 0 <= z < rt.len() implies is_ascii_digit(#[trigger] rt[z]) by {
            assert(rt[z] == t@[k + z]);
        }
    }
    None
}

/// The message a cell reference that does not read as a cell is refused
/// with; text values are quoted as `{:?}` writes them.
pub open spec fn a1_error(cell: Seq<char>) -> Seq<char> {
    let t = trim(cell);
    let cs = a1_col_start(t);
    let ce = a1_col_end(t);
    let rs = a1_row_start(t);
    let letters = t.subrange(cs, ce);
    let rest = t.subrange(rs, t.len() as int);
    if t.len() == 0 {
        "cell reference cannot be empty"@
    } else if ce == cs {
        "missing column in cell reference"@
    } else if letters_value(letters) > 16384 {
        "column "@ + str_debug_text(letters) + " out of XLSX bounds A-XFD"@
    } else if rest.len() == 0 {
        "missing row in cell reference"@
    } else if find_from(t, '$', rs) != -1 {
        "invalid absolute marker in row reference"@
    } else if !all_digits(rest) {
        "invalid row "@ + str_debug_text(rest) + " in cell reference"@
    } else if parse_u32_spec(rest) is None {
        "invalid row "@ + str_debug_text(rest) + ": number too large to fit in target type"@
    } else {
        "row "@ + decimal(parse_u32_spec(rest).unwrap() as nat) + " out of XLSX bounds 1-1048576"@
    }
}

fn parse_a1(value: &str) -> (r: CliResult<HyperlinkCellRef>)
    ensures
        r is Ok <==> a1_spec(value@) is Some,
        r is Ok ==> r->Ok_0 == a1_spec(value@).unwrap(),
        r is Err ==> r->Err_0.kind == ErrorKind::InvalidArgs,
        r is Err ==> r->Err_0.message@ == a1_error(value@),
{
    let t = trim_chars(value);
    let n = t.len();
    if n == 0 {
        return Err(CliError::invalid_args(to_string("cell reference cannot be empty")));
    }
    let (i, j, k) = a1_positions(&t);
    if j == i {
        return Err(CliError::invalid_args(to_string("missing column in cell reference")));
    }
    let col = match capped_letters_value(&t, i, j) {
        Some(x) => x,
        None => {
            proof {
                assert forall|z: int| 0 <= z < j - i implies is_ascii_alpha(
                    #[trigger] t@.subrange(i as int, j as int)[z],
                ) by {
                    assert(t@.subrange(i as int, j as int)[z] == t@[i + z]);
                }
            }
            return Err(CliError::invalid_args(to_string("missing column in cell reference")));
        },
    };
    if col > 16384 {
        let letters = vec_to_string(&slice_vec(&t, i, j));
        let q = debug_quoted(letters.as_str());
        return Err(CliError::invalid_args(concat3("column ", q.as_str(), " out of XLSX bounds A-XFD")));
    }
    if k == n {
        return Err(CliError::invalid_args(to_string("missing row in cell reference")));
    }
    if vec_find_char(&t, '$', k).is_some() {
        proof {
            lemma_find_from(t@, '$', k as int);
            let p = find_from(t@, '$', k as int);
            let rest = t@.subrange(k as int, n as int);
            assert(rest[p - k] == '$');
            assert(!all_digits(rest));
        }
        return Err(CliError::invalid_args(to_string("invalid absolute marker in row reference")));
    }
    let rest = vec_to_string(&slice_vec(&t, k, n));
    match all_digits_range(&t, k) {
        Some(_) => {
            let q = debug_quoted(rest.as_str());
            return Err(CliError::invalid_args(concat3("invalid row ", q.as_str(), " in cell reference")));
        },
        None => {},
    }
    match parse_u32_chars(&t, k, n) {
        None => {
            let q = debug_quoted(rest.as_str());
            Err(CliError::invalid_args(concat3("invalid row ", q.as_str(), ": number too large to fit in target type")))
        },
        Some(row) => {
            if row == 0 || row > 1_048_576 {
                let rt = u32_to_string(row);
                Err(CliError::invalid_args(concat3("row ", rt.as_str(), " out of XLSX bounds 1-1048576")))
            } else {
                Ok(HyperlinkCellRef { col, row, abs_col: i == 1, abs_row: k == j + 1 })
            }
        },
    }
}

/// `parse_hyperlink_cell`: a cell reference with its absolute markers.
pub fn parse_hyperlink_cell(value: &str) -> (r: CliResult<HyperlinkCellRef>)
    ensures
        r is Ok <==> a1_spec(value@) is Some,
        r is Ok ==> r->Ok_0 == a1_spec(value@).unwrap(),
        r is Err ==> r->Err_0.kind == ErrorKind::InvalidArgs,
        r is Err ==> r->Err_0.message@ == a1_error(value@),
{
    parse_a1(value)
}

/// `parse_cell_ref`: `(column, row)` of a cell reference such as `$B$7`.
pub fn parse_cell_ref(cell: &str) -> (r: CliResult<(u32, u32)>)
    ensures
        r is Ok <==> cell_ref_spec(cell@) is Some,
        r is Ok ==> r->Ok_0 == cell_ref_spec(cell@).unwrap(),
        r is Err ==> r->Err_0.kind == ErrorKind::InvalidArgs,
        r is Err ==> r->Err_0.message@ == a1_error(cell@),
{
    match parse_a1(cell) {
        Ok(c) => Ok((c.col, c.row)),
        Err(e) => Err(e),
    }
}

} // verus!

verus! {

// ---------------------------------------------------------------------------
// Writing references back
// ---------------------------------------------------------------------------

/// The A1 text of a reference, with its `$` markers.
pub open spec fn a1_text(r: HyperlinkCellRef) -> Seq<char> {
    (if r.abs_col {
        seq!['$']
    } else {
        Seq::empty()
    }) + column_letters(r.col as nat) + (if r.abs_row {
        seq!['$']
    } else {
        Seq::empty()
    }) + decimal(r.row as nat)
}

/// The plain A1 text of a column and row, such as `C12`.
pub open spec fn cell_text(col: u32, row: u32) -> Seq<char> {
    column_letters(col as nat) + decimal(row as nat)
}

impl HyperlinkCellRef {
    /// `HyperlinkCellRef::to_a1`: the reference written back with its markers.
    pub fn to_a1(self) -> (r: String)
        ensures
            r@ == a1_text(self),
    {
        let mut out = String::new();
        if self.abs_col {
            out.append("$");
        }
        let letters = column_name(self.col);
        out.append(letters.as_str());
        if self.abs_row {
            out.append("$");
        }
        let digits = u32_to_string(self.row);
        out.append(digits.as_str());
        proof {
            reveal_strlit("$");
            assert(out@ =~= a1_text(self));
        }
        out
    }
}

/// `normalize_xlsx_cell_ref`: a cell reference rewritten as plain `A1` text.
pub fn normalize_xlsx_cell_ref(value: &str, flag: &str) -> (r: CliResult<String>)
    ensures
        r is Ok <==> cell_ref_spec(value@) is Some,
        r is Ok ==> r->Ok_0@ == cell_text(
            cell_ref_spec(value@).unwrap().0,
            cell_ref_spec(value@).unwrap().1,
        ),
        r is Err ==> r->Err_0.kind == ErrorKind::InvalidArgs,
{
    match parse_cell_ref(value) {
        Ok((col, row)) => {
            let letters = col_name(col);
            let digits = u32_to_string(row);
            Ok(concat2(letters.as_str(), digits.as_str()))
        },
        Err(e) => Err(CliError::invalid_args(concat4("invalid ", flag, ": ", e.message.as_str()))),
    }
}

// ---------------------------------------------------------------------------
// Ranges
// ---------------------------------------------------------------------------

/// Two corners of a rectangular range, in the order they were written.
#[derive(Clone, Copy, PartialEq, Eq, Structural, Debug)]
pub struct RangeBounds {
    pub start_col: u32,
    pub start_row: u32,
    pub end_col: u32,
    pub end_row: u32,
}

pub open spec fn min_u32(a: u32, b: u32) -> u32 {
    if a <= b {
        a
    } else {
        b
    }
}

pub open spec fn max_u32(a: u32, b: u32) -> u32 {
    if a >= b {
        a
    } else {
        b
    }
}

impl RangeBounds {
    pub open spec fn lo_col(self) -> u32 {
        min_u32(self.start_col, self.end_col)
    }

    pub open spec fn hi_col(self) -> u32 {
        max_u32(self.start_col, self.end_col)
    }

    pub open spec fn lo_row(self) -> u32 {
        min_u32(self.start_row, self.end_row)
    }

    pub open spec fn hi_row(self) -> u32 {
        max_u32(self.start_row, self.end_row)
    }

    /// Whether the cell lies inside the rectangle.
    pub open spec fn holds(self, col: u32, row: u32) -> bool {
        self.lo_col() <= col <= self.hi_col() && self.lo_row() <= row <= self.hi_row()
    }

    pub fn min_col(self) -> (r: u32)
        ensures
            r == self.lo_col(),
    {
        if self.start_col <= self.end_col {
            self.start_col
        } else {
            self.end_col
        }
    }

    pub fn max_col(self) -> (r: u32)
        ensures
            r == self.hi_col(),
    {
        if self.start_col >= self.end_col {
            self.start_col
        } else {
            self.end_col
        }
    }

    pub fn min_row(self) -> (r: u32)
        ensures
            r == self.lo_row(),
    {
        if self.start_row <= self.end_row {
            self.start_row
        } else {
            self.end_row
        }
    }

    pub fn max_row(self) -> (r: u32)
        ensures
            r == self.hi_row(),
    {
        if self.start_row >= self.end_row {
            self.start_row
        } else {
            self.end_row
        }
    }

    /// The number of rows the range spans.
    pub fn row_count(self) -> (r: u32)
        requires
            self.hi_row() - self.lo_row() < u32::MAX,
        ensures
            r == self.hi_row() - self.lo_row() + 1,
    {
        self.max_row() - self.min_row() + 1
    }

    /// The number of columns the range spans.
    pub fn col_count(self) -> (r: u32)
        requires
            self.hi_col() - self.lo_col() < u32::MAX,
        ensures
            r == self.hi_col() - self.lo_col() + 1,
    {
        self.max_col() - self.min_col() + 1
    }

    /// The same rectangle with its top-left corner first.
    pub fn normalized(self) -> (r: RangeBounds)
        ensures
            r.start_col == self.lo_col(),
            r.start_row == self.lo_row(),
            r.end_col == self.hi_col(),
            r.end_row == self.hi_row(),
    {
        RangeBounds {
            start_col: self.min_col(),
            start_row: self.min_row(),
            end_col: self.max_col(),
            end_row: self.max_row(),
        }
    }
}

/// `range_contains_cell`: whether the cell lies inside the rectangle.
pub fn range_contains_cell(bounds: RangeBounds, col: u32, row: u32) -> (r: bool)
    ensures
        r == bounds.holds(col, row),
{
    col >= bounds.min_col() && col <= bounds.max_col() && row >= bounds.min_row() && row
        <= bounds.max_row()
}

/// `ranges_intersect`: whether two rectangles share a cell.
pub fn ranges_intersect(a: RangeBounds, b: RangeBounds) -> (r: bool)
    ensures
        r == (a.lo_col() <= b.hi_col() && a.hi_col() >= b.lo_col() && a.lo_row() <= b.hi_row()
            && a.hi_row() >= b.lo_row()),
{
    a.min_col() <= b.max_col() && a.max_col() >= b.min_col() && a.min_row() <= b.max_row()
        && a.max_row() >= b.min_row()
}

/// The text of a range: one cell when both corners agree, else `start:end`.
pub open spec fn range_text(b: RangeBounds) -> Seq<char> {
    let s = cell_text(b.start_col, b.start_row);
    let e = cell_text(b.end_col, b.end_row);
    if s == e {
        s
    } else {
        s + seq![':'] + e
    }
}

/// `range_bounds_ref`: the range written back as `A1` or `A1:C3`.
pub fn range_bounds_ref(bounds: RangeBounds) -> (r: String)
    ensures
        r@ == range_text(bounds),
{
    let sc = col_name(bounds.start_col);
    let sr = u32_to_string(bounds.start_row);
    let start = concat2(sc.as_str(), sr.as_str());
    let ec = col_name(bounds.end_col);
    let er = u32_to_string(bounds.end_row);
    let end = concat2(ec.as_str(), er.as_str());
    if str_eq(start.as_str(), end.as_str()) {
        start
    } else {
        let r = concat3(start.as_str(), ":", end.as_str());
        proof {
            reveal_strlit(":");
            assert(r@ =~= range_text(bounds));
        }
        r
    }
}

/// The range a text denotes, as `parse_range` reads it: one cell, or two cells
/// around a single `:`.
pub open spec fn range_spec(range: Seq<char>) -> Option<RangeBounds> {
    let t = trim(range);
    let c1 = find_from(t, ':', 0);
    if t.len() == 0 {
        None
    } else if c1 == -1 {
        match cell_ref_spec(t) {
            Some(c) => Some(RangeBounds { start_col: c.0, start_row: c.1, end_col: c.0, end_row: c.1 }),
            None => None,
        }
    } else if find_from(t, ':', c1 + 1) != -1 {
        None
    } else {
        let start = t.subrange(0, c1);
        let end = t.subrange(c1 + 1, t.len() as int);
        if trim(end).len() == 0 {
            None
        } else {
            match (cell_ref_spec(start), cell_ref_spec(end)) {
                (Some(a), Some(b)) => Some(
                    RangeBounds { start_col: a.0, start_row: a.1, end_col: b.0, end_row: b.1 },
                ),
                _ => None,
            }
        }
    }
}

/// `parse_range`: the corners of a range such as `A1:C3` (or a single cell).
pub fn parse_range(range: &str) -> (r: CliResult<RangeBounds>)
    ensures
        r is Ok <==> range_spec(range@) is Some,
        r is Ok ==> r->Ok_0 == range_spec(range@).unwrap(),
        r is Err ==> r->Err_0.kind == ErrorKind::InvalidArgs,
{
    let t = trim_chars(range);
    let n = t.len();
    if n == 0 {
        return Err(CliError::invalid_args(to_string("range reference cannot be empty")));
    }
    proof {
        lemma_find_from(t@, ':', 0);
    }
    match vec_find_char(&t, ':', 0) {
        None => {
            let whole = string_from_chars(t.as_slice());
            match parse_cell_ref(whole.as_str()) {
                Ok((c, r)) => Ok(RangeBounds { start_col: c, start_row: r, end_col: c, end_row: r }),
                Err(e) => Err(CliError::invalid_args(concat2("invalid range start: ", e.message.as_str()))),
            }
        },
        Some(c1) => {
            if vec_find_char(&t, ':', c1 + 1).is_some() {
                return Err(CliError::invalid_args(to_string("invalid range reference")));
            }
            let sv = slice_vec(&t, 0, c1);
            let ev = slice_vec(&t, c1 + 1, n);
            let start = string_from_chars(sv.as_slice());
            let end = string_from_chars(ev.as_slice());
            let et = trim_chars(end.as_str());
            if et.len() == 0 {
                return Err(CliError::invalid_args(to_string("range end cannot be empty")));
            }
            let a = match parse_cell_ref(start.as_str()) {
                Ok(a) => a,
                Err(e) => {
                    return Err(CliError::invalid_args(concat2("invalid range start: ", e.message.as_str())));
                },
            };
            let b = match parse_cell_ref(end.as_str()) {
                Ok(b) => b,
                Err(e) => {
                    return Err(CliError::invalid_args(concat2("invalid range end: ", e.message.as_str())));
                },
            };
            Ok(RangeBounds { start_col: a.0, start_row: a.1, end_col: b.0, end_row: b.1 })
        },
    }
}

/// `parse_cli_range`: [`parse_range`] for a `--range` flag.
pub fn parse_cli_range(range: &str) -> (r: CliResult<RangeBounds>)
    ensures
        r is Ok <==> range_spec(range@) is Some,
        r is Ok ==> r->Ok_0 == range_spec(range@).unwrap(),
        r is Err ==> r->Err_0.kind == ErrorKind::InvalidArgs,
{
    match parse_range(range) {
        Ok(b) => Ok(b),
        Err(e) => Err(CliError::invalid_args(concat2("invalid --range: ", e.message.as_str()))),
    }
}

} // verus!

verus! {

// ---------------------------------------------------------------------------
// Hyperlink references
// ---------------------------------------------------------------------------

/// A hyperlink range as `normalize_hyperlink_range` writes it.
pub open spec fn hyperlink_range_spec(s: Seq<char>) -> Option<Seq<char>> {
    let c1 = find_from(s, ':', 0);
    if c1 == -1 {
        match a1_spec(s) {
            Some(a) => Some(a1_text(a)),
            None => None,
        }
    } else if find_from(s, ':', c1 + 1) != -1 {
        None
    } else {
        let start = s.subrange(0, c1);
        let end = s.subrange(c1 + 1, s.len() as int);
        match a1_spec(start) {
            None => None,
            Some(a) => if trim(end).len() == 0 {
                None
            } else {
                match a1_spec(end) {
                    None => None,
                    Some(b) => if a == b {
                        Some(a1_text(a))
                    } else {
                        Some(a1_text(a) + seq![':'] + a1_text(b))
                    },
                }
            },
        }
    }
}

/// A hyperlink reference as `normalize_hyperlink_ref` writes it.
pub open spec fn hyperlink_ref_spec(s: Seq<char>) -> Option<Seq<char>> {
    let t = trim(s);
    if t.len() == 0 {
        None
    } else if contains_char(t, ':') {
        hyperlink_range_spec(t)
    } else {
        match a1_spec(t) {
            Some(a) => Some(a1_text(a)),
            None => None,
        }
    }
}

/// `normalize_hyperlink_range`: both corners normalized, collapsed when equal.
pub fn normalize_hyperlink_range(ref_: &str) -> (r: CliResult<String>)
    ensures
        r is Ok <==> hyperlink_range_spec(ref_@) is Some,
        r is Ok ==> r->Ok_0@ == hyperlink_range_spec(ref_@).unwrap(),
        r is Err ==> r->Err_0.kind == ErrorKind::InvalidArgs,
{
    let v = str_chars(ref_);
    let n = v.len();
    proof {
        lemma_find_from(v@, ':', 0);
    }
    match vec_find_char(&v, ':', 0) {
        None => {
            let a = parse_hyperlink_cell(ref_);
            match a {
                Ok(a) => Ok(a.to_a1()),
                Err(e) => Err(CliError::invalid_args(concat2("invalid range start: ", e.message.as_str()))),
            }
        },
        Some(c1) => {
            if vec_find_char(&v, ':', c1 + 1).is_some() {
                return Err(CliError::invalid_args(to_string("invalid range reference")));
            }
            let sv = slice_vec(&v, 0, c1);
            let ev = slice_vec(&v, c1 + 1, n);
            let start = string_from_chars(sv.as_slice());
            let end = string_from_chars(ev.as_slice());
            let a = match parse_hyperlink_cell(start.as_str()) {
                Ok(a) => a,
                Err(e) => {
                    return Err(CliError::invalid_args(concat2("invalid range start: ", e.message.as_str())));
                },
            };
            let et = trim_chars(end.as_str());
            if et.len() == 0 {
                return Err(CliError::invalid_args(to_string("range end cannot be empty")));
            }
            let b = match parse_hyperlink_cell(end.as_str()) {
                Ok(b) => b,
                Err(e) => {
                    return Err(CliError::invalid_args(concat2("invalid range end: ", e.message.as_str())));
                },
            };
            if a == b {
                Ok(a.to_a1())
            } else {
                let sa = a.to_a1();
                let sb = b.to_a1();
                let r = concat3(sa.as_str(), ":", sb.as_str());
                proof {
                    reveal_strlit(":");
                    assert(r@ =~= a1_text(a) + seq![':'] + a1_text(b));
                }
                Ok(r)
            }
        },
    }
}

/// `normalize_hyperlink_ref`: a cell or range reference in canonical form,
/// keeping its `$` markers.
pub fn normalize_hyperlink_ref(ref_: &str) -> (r: CliResult<String>)
    ensures
        r is Ok <==> hyperlink_ref_spec(ref_@) is Some,
        r is Ok ==> r->Ok_0@ == hyperlink_ref_spec(ref_@).unwrap(),
        r is Err ==> r->Err_0.kind == ErrorKind::InvalidArgs,
{
    let t = trim_string(ref_);
    let tv = str_chars(t.as_str());
    if tv.len() == 0 {
        return Err(CliError::invalid_args(to_string("hyperlink ref cannot be empty")));
    }
    if vec_contains_char(&tv, ':') {
        return normalize_hyperlink_range(t.as_str());
    }
    match parse_hyperlink_cell(t.as_str()) {
        Ok(a) => Ok(a.to_a1()),
        Err(e) => Err(e),
    }
}

// ---------------------------------------------------------------------------
// Laws
// ---------------------------------------------------------------------------

pub proof fn lemma_upper_letter(d: nat)
    requires
        d < 26,
    ensures
        is_ascii_upper(upper_letter(d)),
        is_ascii_alpha(upper_letter(d)),
        letter_value(upper_letter(d)) == d + 1,
        !is_white_space(upper_letter(d)),
        upper_letter(d) != '$',
        upper_letter(d) != ':',
{
}

/// The letters of a column are upper-case letters that spell the column back.
pub proof fn lemma_column_letters(n: nat)
    ensures
        n >= 1 ==> column_letters(n).len() > 0,
        all_alpha(column_letters(n)),
        forall|i: int| 0 <= i < column_letters(n).len() ==> is_ascii_upper(#[trigger] column_letters(n)[i]),
        letters_value(column_letters(n)) == n,
    decreases n,
{
    if n == 0 {
    } else {
        let m = ((n - 1) as nat) / 26;
        let d = ((n - 1) as nat) % 26;
        lemma_column_letters(m);
        lemma_upper_letter(d);
        let s = column_letters(n);
        assert(s == column_letters(m).push(upper_letter(d)));
        assert(s.drop_last() =~= column_letters(m));
        assert(s.last() == upper_letter(d));
        assert(m * 26 + d + 1 == n) by (nonlinear_arith)
            requires
                m == ((n - 1) as nat) / 26,
                d == ((n - 1) as nat) % 26,
                n >= 1,
        ;
        assert forall|i: int| 0 <= i < s.len() implies is_ascii_upper(#[trigger] s[i]) by {
            if i < s.len() - 1 {
                assert(s[i] == column_letters(m)[i]);
            }
        }
    }
}

pub proof fn lemma_alpha_run_end_exact(s: Seq<char>, i: int, e: int)
    requires
        0 <= i <= e <= s.len(),
        forall|k: int| i <= k < e ==> is_ascii_alpha(#[trigger] s[k]),
        e == s.len() || !is_ascii_alpha(s[e]),
    ensures
        alpha_run_end(s, i) == e,
    decreases e - i,
{
    if i < e {
        lemma_alpha_run_end_exact(s, i + 1, e);
    }
}

pub proof fn lemma_trim_identity(s: Seq<char>)
    requires
        s.len() > 0,
        !is_white_space(s[0]),
        !is_white_space(s.last()),
    ensures
        trim(s) == s,
{
    assert(first_non_ws_from(s, 0) == 0);
    assert(last_non_ws_before(s, s.len() as int, 0) == s.len());
    assert(s.subrange(0, s.len() as int) =~= s);
}

/// Trimming twice is trimming once.
pub proof fn lemma_trim_idempotent(s: Seq<char>)
    ensures
        trim(trim(s)) == trim(s),
{
    let t = trim(s);
    crate::text::lemma_trim_bounds(s);
    if t.len() > 0 {
        crate::text::lemma_first_non_ws_bounds(s, 0);
        crate::text::lemma_last_non_ws_bounds(s, s.len() as int, crate::text::trim_start_index(s));
        assert(t[0] == s[crate::text::trim_start_index(s)]);
        assert(t.last() == s[crate::text::trim_end_index(s) - 1]);
        lemma_trim_identity(t);
    } else {
        assert(trim(t) =~= t);
    }
}

pub open spec fn valid_cell(r: HyperlinkCellRef) -> bool {
    1 <= r.col <= 16384 && 1 <= r.row <= 1_048_576
}

/// Facts about the shape of the text of a valid reference.
pub proof fn lemma_a1_text_shape(r: HyperlinkCellRef)
    requires
        valid_cell(r),
    ensures
        a1_text(r).len() > 0,
        !contains_char(a1_text(r), ':'),
        forall|i: int| 0 <= i < a1_text(r).len() ==> !is_white_space(#[trigger] a1_text(r)[i]),
        trim(a1_text(r)) == a1_text(r),
{
    let p: Seq<char> = if r.abs_col { seq!['$'] } else { Seq::empty() };
    let l = column_letters(r.col as nat);
    let q: Seq<char> = if r.abs_row { seq!['$'] } else { Seq::empty() };
    let d = decimal(r.row as nat);
    lemma_column_letters(r.col as nat);
    lemma_decimal(r.row as nat);
    let t = a1_text(r);
    assert(t == p + l + q + d);
    assert forall|i: int| 0 <= i < t.len() implies !is_white_space(#[trigger] t[i]) && t[i] != ':' by {
        if i < p.len() {
            assert(t[i] == '$');
        } else if i < p.len() + l.len() {
            assert(t[i] == l[i - p.len()]);
            assert(is_ascii_upper(l[i - p.len()]));
        } else if i < p.len() + l.len() + q.len() {
            assert(t[i] == '$');
        } else {
            assert(t[i] == d[i - p.len() - l.len() - q.len()]);
            assert(is_ascii_digit(d[i - p.len() - l.len() - q.len()]));
        }
    }
    lemma_trim_identity(t);
}

/// Reading back the text of a valid reference gives the same reference.
#[verifier::spinoff_prover]
#[verifier::rlimit(60)]
pub proof fn lemma_a1_roundtrip(r: HyperlinkCellRef)
    requires
        valid_cell(r),
    ensures
        a1_spec(a1_text(r)) == Some(r),
{
    let p: Seq<char> = if r.abs_col { seq!['$'] } else { Seq::empty() };
    let l = column_letters(r.col as nat);
    let q: Seq<char> = if r.abs_row { seq!['$'] } else { Seq::empty() };
    let d = decimal(r.row as nat);
    lemma_column_letters(r.col as nat);
    lemma_decimal(r.row as nat);
    lemma_a1_text_shape(r);
    let t = a1_text(r);
    assert(t == p + l + q + d);
    assert(trim(t) == t);
    let cs = a1_col_start(t);
    assert(cs == p.len()) by {
        if !r.abs_col {
            assert(t[0] == l[0]);
            assert(is_ascii_upper(l[0]));
        }
    }
    let e: int = (p.len() + l.len()) as int;
    assert forall|k: int| cs <= k < e implies is_ascii_alpha(#[trigger] t[k]) by {
        assert(t[k] == l[k - p.len()]);
        assert(is_ascii_upper(l[k - p.len()]));
    }
    assert(!is_ascii_alpha(t[e])) by {
        if r.abs_row {
            assert(t[e] == '$');
        } else {
            assert(t[e] == d[0]);
            assert(is_ascii_digit(d[0]));
        }
    }
    lemma_alpha_run_end_exact(t, cs, e);
    assert(a1_col_end(t) == e);
    let rs = a1_row_start(t);
    assert(rs == e + q.len()) by {
        if !r.abs_row {
            assert(t[e] == d[0]);
            assert(is_ascii_digit(d[0]));
        }
    }
    assert(t.subrange(cs, e) =~= l);
    assert(t.subrange(rs, t.len() as int) =~= d);
    lemma_parse_decimal_u32(r.row);
}

/// A cell reference read in any spelling (lower case, `$` markers, blanks
/// around it) and written back as plain `A1` text reads as the same cell.
pub proof fn lemma_cell_ref_canonical(s: Seq<char>)
    requires
        cell_ref_spec(s) is Some,
    ensures
        cell_ref_spec(cell_text(cell_ref_spec(s).unwrap().0, cell_ref_spec(s).unwrap().1)) == cell_ref_spec(s),
{
    let a = a1_spec(s).unwrap();
    lemma_a1_valid(s);
    let plain = HyperlinkCellRef { col: a.col, row: a.row, abs_col: false, abs_row: false };
    lemma_a1_roundtrip(plain);
    assert(a1_text(plain) =~= cell_text(a.col, a.row));
}

/// Column letters in either case that name a column give a number whose
/// spelling is upper case and names the same column again.
pub proof fn lemma_column_letters_roundtrip(letters: Seq<char>)
    requires
        column_index_spec(letters) is Some,
    ensures
        column_index_spec(column_letters(column_index_spec(letters).unwrap() as nat)) == column_index_spec(letters),
        forall|i: int|
            0 <= i < column_letters(column_index_spec(letters).unwrap() as nat).len() ==> is_ascii_upper(
                #[trigger] column_letters(column_index_spec(letters).unwrap() as nat)[i],
            ),
{
    let c = column_index_spec(letters).unwrap();
    assert(letters.len() > 0) by {
        crate::text::lemma_trim_bounds(letters);
    }
    lemma_letters_value_positive(letters);
    lemma_column_letters(c as nat);
    let l = column_letters(c as nat);
    assert(is_ascii_alpha(l[0]) && is_ascii_alpha(l.last()));
    lemma_trim_identity(l);
}

/// A column number beyond `XFD` spells letters that name no column.
pub proof fn lemma_column_letters_out_of_range(n: nat)
    requires
        n > 16384,
    ensures
        column_index_spec(column_letters(n)) is None,
{
    lemma_column_letters(n);
}

/// Normalizing a hyperlink reference twice gives the same text as once.
pub proof fn lemma_normalize_hyperlink_ref_idempotent(s: Seq<char>)
    requires
        hyperlink_ref_spec(s) is Some,
    ensures
        hyperlink_ref_spec(hyperlink_ref_spec(s).unwrap()) == hyperlink_ref_spec(s),
{
    let t = trim(s);
    let y = hyperlink_ref_spec(s).unwrap();
    if contains_char(t, ':') {
        let c1 = find_from(t, ':', 0);
        lemma_find_contains(t, ':');
        lemma_find_from(t, ':', 0);
        let start = t.subrange(0, c1);
        let end = t.subrange(c1 + 1, t.len() as int);
        let a = a1_spec(start).unwrap();
        let b = a1_spec(end).unwrap();
        lemma_a1_valid(start);
        lemma_a1_valid(end);
        lemma_a1_text_shape(a);
        lemma_a1_text_shape(b);
        lemma_a1_roundtrip(a);
        lemma_a1_roundtrip(b);
        if a == b {
            assert(y == a1_text(a));
            lemma_find_contains(y, ':');
        } else {
            let ta = a1_text(a);
            let tb = a1_text(b);
            assert(y == ta + seq![':'] + tb);
            assert(y[0] == ta[0]);
            assert(y.last() == tb.last());
            lemma_trim_identity(y);
            assert(y[ta.len() as int] == ':');
            assert(contains_char(y, ':'));
            lemma_find_from(y, ':', 0);
            assert forall|k: int| 0 <= k < ta.len() implies y[k] != ':' by {
                assert(y[k] == ta[k]);
            }
            assert(find_from(y, ':', 0) == ta.len() as int) by {
                lemma_find_first(y, ':', ta.len() as int);
            }
            assert forall|k: int| ta.len() + 1 <= k < y.len() implies y[k] != ':' by {
                assert(y[k] == tb[k - ta.len() - 1]);
            }
            lemma_find_none(y, ':', ta.len() + 1int);
            assert(y.subrange(0, ta.len() as int) =~= ta);
            assert(y.subrange(ta.len() + 1int, y.len() as int) =~= tb);
        }
    } else {
        let a = a1_spec(t).unwrap();
        lemma_a1_valid(t);
        lemma_a1_text_shape(a);
        lemma_a1_roundtrip(a);
        lemma_find_contains(a1_text(a), ':');
    }
}

/// A parsed reference is within the sheet's bounds.
pub proof fn lemma_a1_valid(s: Seq<char>)
    requires
        a1_spec(s) is Some,
    ensures
        valid_cell(a1_spec(s).unwrap()),
{
    let t = trim(s);
    let letters = t.subrange(a1_col_start(t), a1_col_end(t));
    lemma_alpha_run_end(t, a1_col_start(t));
    assert(letters.len() > 0);
    lemma_letters_value_positive(letters);
}

pub proof fn lemma_letters_value_positive(s: Seq<char>)
    requires
        s.len() > 0,
        all_alpha(s),
    ensures
        letters_value(s) >= 1,
{
    assert(is_ascii_alpha(s.last()));
}

pub proof fn lemma_find_first(s: Seq<char>, c: char, k: int)
    requires
        0 <= k < s.len(),
        s[k] == c,
        forall|j: int| 0 <= j < k ==> s[j] != c,
    ensures
        find_from(s, c, 0) == k,
{
    lemma_find_first_from(s, c, 0, k);
}

proof fn lemma_find_first_from(s: Seq<char>, c: char, i: int, k: int)
    requires
        0 <= i <= k < s.len(),
        s[k] == c,
        forall|j: int| i <= j < k ==> s[j] != c,
    ensures
        find_from(s, c, i) == k,
    decreases k - i,
{
    if i < k {
        lemma_find_first_from(s, c, i + 1, k);
    }
}

pub proof fn lemma_find_none(s: Seq<char>, c: char, i: int)
    requires
        0 <= i <= s.len(),
        forall|j: int| i <= j < s.len() ==> s[j] != c,
    ensures
        find_from(s, c, i) == -1,
    decreases s.len() - i,
{
    if i < s.len() {
        lemma_find_none(s, c, i + 1);
    }
}

} // verus!

verus! {

/// Reading back `col_name(col)` followed by the row number gives the cell.
pub proof fn lemma_cell_text_roundtrip(col: u32, row: u32)
    requires
        1 <= col <= 16384,
        1 <= row <= 1_048_576,
    ensures
        cell_ref_spec(cell_text(col, row)) == Some((col, row)),
{
    let r = HyperlinkCellRef { col, row, abs_col: false, abs_row: false };
    assert(a1_text(r) =~= cell_text(col, row));
    lemma_a1_roundtrip(r);
}

pub open spec fn valid_range(b: RangeBounds) -> bool {
    1 <= b.start_col <= 16384 && 1 <= b.end_col <= 16384 && 1 <= b.start_row <= 1_048_576 && 1
        <= b.end_row <= 1_048_576
}

/// Reading back the text that `range_bounds_ref` writes gives the same range.
pub proof fn lemma_range_text_roundtrip(b: RangeBounds)
    requires
        valid_range(b),
    ensures
        range_spec(range_text(b)) == Some(b),
{
    let ra = HyperlinkCellRef { col: b.start_col, row: b.start_row, abs_col: false, abs_row: false };
    let rb = HyperlinkCellRef { col: b.end_col, row: b.end_row, abs_col: false, abs_row: false };
    assert(a1_text(ra) =~= cell_text(b.start_col, b.start_row));
    assert(a1_text(rb) =~= cell_text(b.end_col, b.end_row));
    lemma_a1_text_shape(ra);
    lemma_a1_text_shape(rb);
    lemma_cell_text_roundtrip(b.start_col, b.start_row);
    lemma_cell_text_roundtrip(b.end_col, b.end_row);
    let s = cell_text(b.start_col, b.start_row);
    let e = cell_text(b.end_col, b.end_row);
    let y = range_text(b);
    if s == e {
        lemma_find_contains(s, ':');
        assert(b.start_col == b.end_col && b.start_row == b.end_row);
    } else {
        assert(y == s + seq![':'] + e);
        assert(y[0] == s[0]);
        assert(y.last() == e.last());
        lemma_trim_identity(y);
        assert(y[s.len() as int] == ':');
        assert forall|k: int| 0 <= k < s.len() implies y[k] != ':' by {
            assert(y[k] == s[k]);
            lemma_find_contains(s, ':');
        }
        lemma_find_first(y, ':', s.len() as int);
        assert forall|k: int| s.len() + 1 <= k < y.len() implies y[k] != ':' by {
            assert(y[k] == e[k - s.len() - 1]);
            lemma_find_contains(e, ':');
        }
        lemma_find_none(y, ':', s.len() + 1int);
        assert(y.subrange(0, s.len() as int) =~= s);
        assert(y.subrange(s.len() + 1int, y.len() as int) =~= e);
        assert(trim(e) == e);
    }
}

/// A normalized range holds exactly the cells of the original one.
pub proof fn lemma_normalized_same_cells(b: RangeBounds, n: RangeBounds, col: u32, row: u32)
    requires
        n.start_col == b.lo_col(),
        n.start_row == b.lo_row(),
        n.end_col == b.hi_col(),
        n.end_row == b.hi_row(),
    ensures
        n.holds(col, row) == b.holds(col, row),
        n.start_col <= n.end_col,
        n.start_row <= n.end_row,
{
}

} // verus!
