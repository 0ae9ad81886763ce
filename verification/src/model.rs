//! The read model of a workbook: built-in number formats and date detection,
//! used-range summaries, output limits, and the element paths the readers
//! recognise.
use vstd::prelude::*;
use crate::cellref::{cell_text, col_name, RangeBounds};
use crate::text::{ascii_lower, concat4, str_chars, u32_to_string};

verus! {

// ---------------------------------------------------------------------------
// Number formats
// ---------------------------------------------------------------------------

/// The code of a built-in number format id.
pub open spec fn builtin_code_spec(id: u32) -> Option<Seq<char>> {
    if id == 0 {
        Some("General"@)
    } else if id == 1 {
        Some("0"@)
    } else if id == 2 {
        Some("0.00"@)
    } else if id == 3 {
        Some("#,##0"@)
    } else if id == 4 {
        Some("#,##0.00"@)
    } else if id == 9 {
        Some("0%"@)
    } else if id == 10 {
        Some("0.00%"@)
    } else if id == 14 {
        Some("m/d/yy"@)
    } else if id == 15 {
        Some("d-mmm-yy"@)
    } else if id == 16 {
        Some("d-mmm"@)
    } else if id == 17 {
        Some("mmm-yy"@)
    } else if id == 18 {
        Some("h:mm AM/PM"@)
    } else if id == 19 {
        Some("h:mm:ss AM/PM"@)
    } else if id == 20 {
        Some("h:mm"@)
    } else if id == 21 {
        Some("h:mm:ss"@)
    } else if id == 22 {
        Some("m/d/yy h:mm"@)
    } else if id == 45 {
        Some("mm:ss"@)
    } else if id == 46 {
        Some("[h]:mm:ss"@)
    } else if id == 47 {
        Some("mmss.0"@)
    } else if id == 49 {
        Some("@"@)
    } else {
        None
    }
}

/// `builtin_num_format_code`: the code of a built-in number format.
pub fn builtin_num_format_code(id: u32) -> (r: Option<&'static str>)
    ensures
        r is Some <==> builtin_code_spec(id) is Some,
        r is Some ==> r.unwrap()@ == builtin_code_spec(id).unwrap(),
{
    match id {
        0 => Some("General"),
        1 => Some("0"),
        2 => Some("0.00"),
        3 => Some("#,##0"),
        4 => Some("#,##0.00"),
        9 => Some("0%"),
        10 => Some("0.00%"),
        14 => Some("m/d/yy"),
        15 => Some("d-mmm-yy"),
        16 => Some("d-mmm"),
        17 => Some("mmm-yy"),
        18 => Some("h:mm AM/PM"),
        19 => Some("h:mm:ss AM/PM"),
        20 => Some("h:mm"),
        21 => Some("h:mm:ss"),
        22 => Some("m/d/yy h:mm"),
        45 => Some("mm:ss"),
        46 => Some("[h]:mm:ss"),
        47 => Some("mmss.0"),
        49 => Some("@"),
        _ => None,
    }
}

/// Whether a built-in number format id is a date or time format.
pub open spec fn builtin_date_spec(id: u32) -> bool {
    (14 <= id <= 22) || (45 <= id <= 47)
}

/// `is_builtin_date_num_fmt`.
pub fn is_builtin_date_num_fmt(id: u32) -> (r: bool)
    ensures
        r == builtin_date_spec(id),
{
    (14 <= id && id <= 22) || (45 <= id && id <= 47)
}

/// A format code with quoted literals dropped and ASCII letters lowered.
pub open spec fn cleaned_code(s: Seq<char>, in_quote: bool) -> Seq<char>
    decreases s.len(),
{
    if s.len() == 0 {
        Seq::empty()
    } else if s[0] == '"' {
        cleaned_code(s.drop_first(), !in_quote)
    } else if !in_quote {
        seq![ascii_lower(s[0])] + cleaned_code(s.drop_first(), in_quote)
    } else {
        cleaned_code(s.drop_first(), in_quote)
    }
}

/// Whether `p` occurs in `s`.
pub open spec fn contains_seq(s: Seq<char>, p: Seq<char>) -> bool {
    crate::xml::rfind_seq(s, p) >= 0
}

/// Whether a format code formats dates or times: outside quotes it has `y`,
/// `d`, `h:` or `m/`.
pub open spec fn date_code_spec(code: Seq<char>) -> bool {
    let c = cleaned_code(code, false);
    contains_seq(c, seq!['y']) || contains_seq(c, seq!['d']) || contains_seq(c, seq!['h', ':'])
        || contains_seq(c, seq!['m', '/'])
}

fn chars_contain(s: &Vec<char>, p: &Vec<char>) -> (r: bool)
    ensures
        r == contains_seq(s@, p@),
{
    crate::xml::vec_rfind(s, p).is_some()
}

/// `is_date_format_code`: whether a format code shows a date or time.
pub fn is_date_format_code(code: &str) -> (r: bool)
    ensures
        r == date_code_spec(code@),
{
    let v = str_chars(code);
    let mut cleaned: Vec<char> = Vec::new();
    let mut in_quote = false;
    let mut i: usize = 0;
    proof {
        assert(v@.subrange(0, v@.len() as int) =~= v@);
    }
    while i < v.len()
        invariant
            0 <= i <= v.len(),
            v@ == code@,
            cleaned@ + cleaned_code(v@.subrange(i as int, v@.len() as int), in_quote) == cleaned_code(code@, false),
        decreases v.len() - i,
    {
        let ch = v[i];
        let ghost rest = v@.subrange(i as int, v@.len() as int);
        proof {
            assert(rest[0] == ch);
            assert(rest.drop_first() =~= v@.subrange(i + 1, v@.len() as int));
        }
        if ch == '"' {
            in_quote = !in_quote;
        } else if !in_quote {
            let ghost before = cleaned@;
            cleaned.push(crate::text::char_to_ascii_lower(ch));
            proof {
                assert(cleaned@ =~= before + seq![ascii_lower(ch)]);
                assert(before + (seq![ascii_lower(ch)] + cleaned_code(rest.drop_first(), in_quote)) =~= cleaned@ + cleaned_code(rest.drop_first(), in_quote));
            }
        }
        i = i + 1;
    }
    proof {
        assert(cleaned@ + Seq::<char>::empty() =~= cleaned@);
    }
    let mut y: Vec<char> = Vec::new();
    y.push('y');
    let mut d: Vec<char> = Vec::new();
    d.push('d');
    let mut h: Vec<char> = Vec::new();
    h.push('h');
    h.push(':');
    let mut m: Vec<char> = Vec::new();
    m.push('m');
    m.push('/');
    proof {
        assert(y@ =~= seq!['y']);
        assert(d@ =~= seq!['d']);
        assert(h@ =~= seq!['h', ':']);
        assert(m@ =~= seq!['m', '/']);
    }
    chars_contain(&cleaned, &y) || chars_contain(&cleaned, &d) || chars_contain(&cleaned, &h)
        || chars_contain(&cleaned, &m)
}

// ---------------------------------------------------------------------------
// Used ranges
// ---------------------------------------------------------------------------

/// The smallest rectangle holding the cells of a sheet (or none).
#[derive(Clone, Copy, PartialEq, Eq, Structural, Debug)]
pub struct UsedRangeSummary {
    pub min_row: u32,
    pub max_row: u32,
    pub min_col: u32,
    pub max_col: u32,
    pub empty: bool,
}

/// `used_range_ref`: the used range as an `A1:B2` reference.
pub fn used_range_ref(used: UsedRangeSummary) -> (r: Option<String>)
    ensures
        r is None <==> used.empty,
        r is Some ==> r.unwrap()@ == cell_text(used.min_col, used.min_row) + seq![':'] + cell_text(
            used.max_col,
            used.max_row,
        ),
{
    if used.empty {
        None
    } else {
        let a = col_name(used.min_col);
        let b = u32_to_string(used.min_row);
        let c = col_name(used.max_col);
        let d = u32_to_string(used.max_row);
        let first = crate::text::concat3(a.as_str(), b.as_str(), ":");
        proof {
            reveal_strlit(":");
        }
        Some(crate::text::concat3(first.as_str(), c.as_str(), d.as_str()))
    }
}

/// `output_xlsx_bounds`: the rectangle to print, `(first col, first row,
/// last col, last row)`: the requested range, else the used range.
pub fn output_xlsx_bounds(range: Option<RangeBounds>, used: UsedRangeSummary) -> (r: Option<(u32, u32, u32, u32)>)
    ensures
        r == match range {
            Some(b) => Some((b.start_col, b.start_row, b.end_col, b.end_row)),
            None => if used.empty {
                None
            } else {
                Some((used.min_col, used.min_row, used.max_col, used.max_row))
            },
        },
{
    match range {
        Some(b) => Some((b.start_col, b.start_row, b.end_col, b.end_row)),
        None => if used.empty {
            None
        } else {
            Some((used.min_col, used.min_row, used.max_col, used.max_row))
        },
    }
}

/// The position of a cell in row-major order within a range (with `u32`
/// coordinates it fits a `u64`, so the saturating arithmetic never saturates).
pub open spec fn ordinal_spec(bounds: RangeBounds, col: u32, row: u32) -> int {
    (row - bounds.lo_row()) * (bounds.hi_col() - bounds.lo_col() + 1) + (col - bounds.lo_col())
}

/// `coordinate_in_output_prefix`: whether a cell of the range is among the
/// first `limit` cells in row-major order (every cell is, without a limit).
pub fn coordinate_in_output_prefix(bounds: RangeBounds, col: u32, row: u32, output_cell_limit: Option<u64>) -> (r: bool)
    requires
        row >= bounds.lo_row(),
        col >= bounds.lo_col(),
        bounds.hi_col() - bounds.lo_col() < u32::MAX,
    ensures
        r == match output_cell_limit {
            None => true,
            Some(limit) => ordinal_spec(bounds, col, row) < limit,
        },
{
    let normalized = bounds.normalized();
    let dr = (row - normalized.start_row) as u64;
    let n = normalized.col_count() as u64;
    let dc = (col - normalized.start_col) as u64;
    proof {
        assert(dr * n <= 0xffff_ffff * 0xffff_ffff) by (nonlinear_arith)
            requires
                dr <= 0xffff_ffff,
                n <= 0xffff_ffff,
        ;
    }
    let ordinal = dr * n + dc;
    match output_cell_limit {
        None => true,
        Some(limit) => ordinal < limit,
    }
}

// ---------------------------------------------------------------------------
// Element paths
// ---------------------------------------------------------------------------

/// An open element while reading a SpreadsheetML part: its local name and
/// whether it is in the SpreadsheetML namespace.
#[derive(Debug)]
pub struct SpreadsheetFrame {
    pub local_name: String,
    pub valid_namespace: bool,
}

/// Whether the open elements are exactly the path, each in the namespace.
pub open spec fn parent_path_spec(stack: Seq<SpreadsheetFrame>, path: Seq<Seq<char>>) -> bool {
    stack.len() == path.len() && forall|i: int| 0 <= i < stack.len() ==> (#[trigger] stack[i]).valid_namespace
        && stack[i].local_name@ == path[i]
}

pub open spec fn strs_view(path: Seq<&str>) -> Seq<Seq<char>> {
    Seq::new(path.len(), |i: int| path[i]@)
}

/// `worksheet_parent_path`: whether the open elements are the given path.
pub fn worksheet_parent_path(stack: &[SpreadsheetFrame], path: &[&str]) -> (r: bool)
    ensures
        r == parent_path_spec(stack@, strs_view(path@)),
{
    if stack.len() != path.len() {
        return false;
    }
    let mut i: usize = 0;
    while i < stack.len()
        invariant
            0 <= i <= stack.len(),
            stack.len() == path.len(),
            forall|k: int| 0 <= k < i ==> (#[trigger] stack@[k]).valid_namespace && stack@[k].local_name@ == strs_view(path@)[k],
        decreases stack.len() - i,
    {
        if !(stack[i].valid_namespace && crate::text::str_eq(stack[i].local_name.as_str(), path[i])) {
            return false;
        }
        i = i + 1;
    }
    true
}

/// `shared_string_parent_path`: the same test, for the shared strings part.
pub fn shared_string_parent_path(stack: &[SpreadsheetFrame], path: &[&str]) -> (r: bool)
    ensures
        r == parent_path_spec(stack@, strs_view(path@)),
{
    worksheet_parent_path(stack, path)
}

fn prefix_path_matches(stack: &[SpreadsheetFrame], path: &[&str]) -> (r: bool)
    requires
        path@.len() <= stack@.len(),
    ensures
        r == parent_path_spec(stack@.subrange(0, path@.len() as int), strs_view(path@)),
{
    let ghost pre = stack@.subrange(0, path@.len() as int);
    let mut i: usize = 0;
    while i < path.len()
        invariant
            0 <= i <= path.len(),
            path@.len() <= stack@.len(),
            pre == stack@.subrange(0, path@.len() as int),
            forall|k: int| 0 <= k < i ==> (#[trigger] pre[k]).valid_namespace && pre[k].local_name@ == strs_view(path@)[k],
        decreases path.len() - i,
    {
        proof {
            assert(pre[i as int] == stack@[i as int]);
        }
        if !(stack[i].valid_namespace && crate::text::str_eq(stack[i].local_name.as_str(), path[i])) {
            return false;
        }
        i = i + 1;
    }
    true
}

fn all_valid_from(stack: &[SpreadsheetFrame], from: usize) -> (r: bool)
    ensures
        r == forall|i: int| from <= i < stack@.len() ==> (#[trigger] stack@[i]).valid_namespace,
{
    let mut i = from;
    while i < stack.len()
        invariant
            from <= i || i >= stack.len(),
            i >= from,
            forall|k: int| from <= k < i && k < stack@.len() ==> (#[trigger] stack@[k]).valid_namespace,
        decreases stack.len() - i,
    {
        if !stack[i].valid_namespace {
            return false;
        }
        i = i + 1;
    }
    true
}

/// Text inside an inline string of a cell: `worksheet/sheetData/row/c/is`,
/// then anything, all in the namespace.
pub open spec fn inline_text_path_spec(stack: Seq<SpreadsheetFrame>) -> bool {
    stack.len() >= 5 && parent_path_spec(stack.subrange(0, 4), seq!["worksheet"@, "sheetData"@, "row"@, "c"@])
        && stack[4].valid_namespace && stack[4].local_name@ == "is"@ && forall|i: int|
        5 <= i < stack.len() ==> (#[trigger] stack[i]).valid_namespace
}

/// `worksheet_inline_text_parent_path`.
pub fn worksheet_inline_text_parent_path(stack: &[SpreadsheetFrame]) -> (r: bool)
    ensures
        r == inline_text_path_spec(stack@),
{
    if stack.len() < 5 {
        return false;
    }
    let path: [&str; 4] = ["worksheet", "sheetData", "row", "c"];
    proof {
        assert(strs_view(path@) =~= seq!["worksheet"@, "sheetData"@, "row"@, "c"@]);
    }
    let head = prefix_path_matches(stack, path.as_slice());
    head && stack[4].valid_namespace && crate::text::str_eq(stack[4].local_name.as_str(), "is")
        && all_valid_from(stack, 5)
}

/// Text inside a shared string: `sst/si`, then anything, all in the namespace.
pub open spec fn shared_text_path_spec(stack: Seq<SpreadsheetFrame>) -> bool {
    stack.len() >= 2 && parent_path_spec(stack.subrange(0, 2), seq!["sst"@, "si"@]) && forall|i: int|
        2 <= i < stack.len() ==> (#[trigger] stack[i]).valid_namespace
}

/// `shared_string_text_parent_path`.
pub fn shared_string_text_parent_path(stack: &[SpreadsheetFrame]) -> (r: bool)
    ensures
        r == shared_text_path_spec(stack@),
{
    if stack.len() < 2 {
        return false;
    }
    let path: [&str; 2] = ["sst", "si"];
    proof {
        assert(strs_view(path@) =~= seq!["sst"@, "si"@]);
    }
    let head = prefix_path_matches(stack, path.as_slice());
    head && all_valid_from(stack, 2)
}

} // verus!
