//! Shared pieces of the cell and range writers: output flags, matrix cells,
//! cell targets, empty cells, and the worksheet `dimension` element.
use vstd::prelude::*;
use crate::attrmap::{remove_key, sorted_insert, AttrMap, Entries};
use crate::cellref::{cell_ref_spec, cell_text, normalize_xlsx_cell_ref, parse_cell_ref, parse_cli_range, range_spec, RangeBounds};
use crate::elements::render_attrs_spec;
use crate::error::{CliError, CliResult, ErrorKind};
use crate::sheets::{cell_handle_spec, count_sheet_id, is_handle_spec, is_xlsx_handle, parse_xlsx_cell_handle, WorkbookSheet};
use crate::text::{
    ascii_lower_seq, concat2, concat3, concat4, contains_char, decimal, is_blank, is_present, present,
    str_chars, str_eq, string_from_chars, to_string, trim, trim_chars, trim_lower, trim_string,
    u32_to_string, vec_contains_char, slice_vec,
};

verus! {

// ---------------------------------------------------------------------------
// Output flags
// ---------------------------------------------------------------------------

/// Which error, if any, a combination of output flags gets.
pub open spec fn output_flags_ok(out: Option<&str>, in_place: bool, backup: Option<&str>, dry_run: bool) -> bool {
    let has_out = present(out);
    let has_backup = present(backup);
    !(dry_run && (has_out || in_place)) && !(dry_run && has_backup) && !(!dry_run && !has_out && !in_place)
        && !(has_out && in_place) && !(has_backup && !in_place)
}

/// `validate_xlsx_mutation_output_flags`: exactly one of `--out`,
/// `--in-place` and `--dry-run`, and `--backup` only with `--in-place`.
pub fn validate_xlsx_mutation_output_flags(out: Option<&str>, in_place: bool, backup: Option<&str>, dry_run: bool) -> (r: CliResult<()>)
    ensures
        r is Ok <==> output_flags_ok(out, in_place, backup, dry_run),
        r is Err ==> r->Err_0.kind == ErrorKind::InvalidArgs,
{
    let has_out = is_present(out);
    let has_backup = is_present(backup);
    if dry_run && (has_out || in_place) {
        return Err(CliError::invalid_args(to_string("--dry-run cannot be combined with --out or --in-place")));
    }
    if dry_run && has_backup {
        return Err(CliError::invalid_args(to_string("--backup cannot be used with --dry-run")));
    }
    if !dry_run && !has_out && !in_place {
        return Err(CliError::invalid_args(to_string("must specify exactly one of --out, --in-place, or --dry-run")));
    }
    if has_out && in_place {
        return Err(CliError::invalid_args(to_string("cannot specify both --out and --in-place")));
    }
    if has_backup && !in_place {
        return Err(CliError::invalid_args(to_string("--backup can only be used with --in-place")));
    }
    Ok(())
}

// ---------------------------------------------------------------------------
// Matrix cells
// ---------------------------------------------------------------------------

/// One value to write: its type, value, formula, and whether it is null.
#[derive(Debug)]
pub struct XlsxMatrixCell {
    pub kind: String,
    pub value: String,
    pub formula: String,
    pub null: bool,
}

pub open spec fn cell_view(c: XlsxMatrixCell) -> (Seq<char>, Seq<char>, Seq<char>, bool) {
    (c.kind@, c.value@, c.formula@, c.null)
}

impl XlsxMatrixCell {
    pub fn clone_cell(&self) -> (r: XlsxMatrixCell)
        ensures
            cell_view(r) == cell_view(*self),
    {
        XlsxMatrixCell { kind: self.kind.clone(), value: self.value.clone(), formula: self.formula.clone(), null: self.null }
    }
}

/// `xlsx_range_cell_touches_existing`: whether writing the cell changes what
/// is there (a null cell under the `skip` policy does not).
pub fn xlsx_range_cell_touches_existing(cell: &XlsxMatrixCell, null_policy: &str) -> (r: bool)
    ensures
        r == !(cell.null && ascii_lower_seq(trim(null_policy@)) == "skip"@),
{
    let p = trim_lower(null_policy);
    !(cell.null && crate::text::chars_eq_str(&p, "skip"))
}

/// Whether a null policy is one of `skip`, `clear`, `empty-string` (any case,
/// surrounding white space ignored).
pub open spec fn null_policy_ok(policy: Seq<char>) -> bool {
    let p = ascii_lower_seq(trim(policy));
    p == "skip"@ || p == "clear"@ || p == "empty-string"@
}

/// `validate_xlsx_null_policy`.
pub fn validate_xlsx_null_policy(policy: &str) -> (r: CliResult<()>)
    ensures
        r is Ok <==> null_policy_ok(policy@),
        r is Err ==> r->Err_0.kind == ErrorKind::InvalidArgs,
{
    let p = trim_lower(policy);
    if crate::text::chars_eq_str(&p, "skip") || crate::text::chars_eq_str(&p, "clear") || crate::text::chars_eq_str(&p, "empty-string") {
        Ok(())
    } else {
        Err(CliError::invalid_args(to_string("invalid null policy (must be skip, clear, or empty-string)")))
    }
}

/// The canonical name of a `--type` value.
pub open spec fn value_type_spec(v: Seq<char>) -> Option<Seq<char>> {
    let p = ascii_lower_seq(trim(v));
    if p == ""@ || p == "string"@ {
        Some("string"@)
    } else if p == "number"@ {
        Some("number"@)
    } else if p == "bool"@ || p == "boolean"@ {
        Some("bool"@)
    } else if p == "formula"@ {
        Some("formula"@)
    } else if p == "auto"@ {
        Some("auto"@)
    } else {
        None
    }
}

/// `normalize_xlsx_cell_value_type`: the canonical name of a value type.
pub fn normalize_xlsx_cell_value_type(value: &str) -> (r: CliResult<String>)
    ensures
        r is Ok <==> value_type_spec(value@) is Some,
        r is Ok ==> r->Ok_0@ == value_type_spec(value@).unwrap(),
        r is Err ==> r->Err_0.kind == ErrorKind::InvalidArgs,
{
    let p = trim_lower(value);
    proof {
        reveal_strlit("");
    }
    if crate::text::chars_eq_str(&p, "") || crate::text::chars_eq_str(&p, "string") {
        Ok(to_string("string"))
    } else if crate::text::chars_eq_str(&p, "number") {
        Ok(to_string("number"))
    } else if crate::text::chars_eq_str(&p, "bool") || crate::text::chars_eq_str(&p, "boolean") {
        Ok(to_string("bool"))
    } else if crate::text::chars_eq_str(&p, "formula") {
        Ok(to_string("formula"))
    } else if crate::text::chars_eq_str(&p, "auto") {
        Ok(to_string("auto"))
    } else {
        let q = crate::text::debug_quoted(value);
        Err(CliError::invalid_args(concat3("invalid --type ", q.as_str(), " (must be string, number, bool, formula, or auto)")))
    }
}

// ---------------------------------------------------------------------------
// Empty cells
// ---------------------------------------------------------------------------

/// The attributes of an emptied cell: its old ones, with `r` set and `t` dropped.
pub open spec fn empty_cell_attrs(addr: Seq<char>, attrs: Option<Entries>) -> Entries {
    let base = match attrs {
        Some(a) => a,
        None => Seq::empty(),
    };
    remove_key(sorted_insert(base, "r"@, addr), "t"@)
}

pub open spec fn opt_map_view(attrs: Option<&AttrMap>) -> Option<Entries> {
    match attrs {
        Some(a) => Some(a.view()),
        None => None,
    }
}

/// `render_empty_xlsx_cell_with_attrs_prefixed`: an empty `c` element keeping
/// the cell's other attributes.
pub fn render_empty_xlsx_cell_with_attrs_prefixed(addr: &str, attrs: Option<&AttrMap>, prefix: &str) -> (r: String)
    ensures
        r@ == seq!['<'] + prefix@ + seq!['c'] + render_attrs_spec(empty_cell_attrs(addr@, opt_map_view(attrs))) + "/>"@,
{
    let mut m = match attrs {
        Some(a) => AttrMap { entries: clone_entries(&a.entries) },
        None => AttrMap::new(),
    };
    m.insert(to_string("r"), to_string(addr));
    m.remove("t");
    let rendered = crate::elements::render_xml_attrs(&m.entries);
    proof {
        reveal_strlit("<");
        reveal_strlit("c");
    }
    concat4("<", prefix, "c", concat2(rendered.as_str(), "/>").as_str())
}

/// `render_empty_xlsx_cell_with_attrs`: the same without a prefix.
pub fn render_empty_xlsx_cell_with_attrs(addr: &str, attrs: Option<&AttrMap>) -> (r: String)
    ensures
        r@ == seq!['<', 'c'] + render_attrs_spec(empty_cell_attrs(addr@, opt_map_view(attrs))) + "/>"@,
{
    proof {
        reveal_strlit("");
    }
    let r = render_empty_xlsx_cell_with_attrs_prefixed(addr, attrs, "");
    proof {
        assert(seq!['<'] + ""@ + seq!['c'] =~= seq!['<', 'c']);
    }
    r
}

/// A copy of a list of pairs.
pub fn clone_entries(v: &Vec<(String, String)>) -> (r: Vec<(String, String)>)
    ensures
        r.deep_view() == v.deep_view(),
{
    let mut out: Vec<(String, String)> = Vec::new();
    let mut i: usize = 0;
    while i < v.len()
        invariant
            0 <= i <= v.len(),
            out.deep_view() == v.deep_view().subrange(0, i as int),
        decreases v.len() - i,
    {
        let a = v[i].0.clone();
        let b = v[i].1.clone();
        let ghost before = out.deep_view();
        proof {
            assert(v.deep_view()[i as int] == (v@[i as int].0@, v@[i as int].1@));
        }
        out.push((a, b));
        proof {
            assert(out.deep_view() =~= before.push((a@, b@)));
            assert(out.deep_view() =~= v.deep_view().subrange(0, i + 1));
        }
        i = i + 1;
    }
    proof {
        assert(v.deep_view().subrange(0, v.deep_view().len() as int) =~= v.deep_view());
    }
    out
}

// ---------------------------------------------------------------------------
// Cell targets
// ---------------------------------------------------------------------------

/// The cell a set command writes: normalized, and the sheet id a handle named.
#[derive(Debug)]
pub struct XlsxCellsSetTarget {
    pub cell_ref: String,
    pub handle_sheet_id: Option<u32>,
    pub from_handle: bool,
}

/// The target a `--cell` (or `--ref`) value names.
pub open spec fn set_target_spec(cell: Option<Seq<char>>, ref_: Option<Seq<char>>) -> Option<(Seq<char>, Option<u32>, bool)> {
    if cell is Some && ref_ is Some {
        None
    } else {
        let raw = if cell is Some {
            cell
        } else {
            ref_
        };
        match raw {
            None => None,
            Some(r) => {
                let t = trim(r);
                if t.len() == 0 {
                    None
                } else if is_handle_spec(t) {
                    match cell_handle_spec(t) {
                        Some(h) => Some((h.1, Some(h.0), true)),
                        None => None,
                    }
                } else if contains_char(t, ':') {
                    None
                } else {
                    match cell_ref_spec(t) {
                        Some(c) => Some((cell_text(c.0, c.1), None, false)),
                        None => None,
                    }
                }
            },
        }
    }
}

pub open spec fn opt_view(o: Option<&str>) -> Option<Seq<char>> {
    match o {
        Some(s) => Some(s@),
        None => None,
    }
}

/// `resolve_xlsx_cells_set_cell`: the cell to write, from `--cell` or `--ref`,
/// as an `A1` reference or a cell handle.
pub fn resolve_xlsx_cells_set_cell(cell: Option<&str>, ref_: Option<&str>) -> (r: CliResult<XlsxCellsSetTarget>)
    ensures
        r is Ok <==> set_target_spec(opt_view(cell), opt_view(ref_)) is Some,
        r is Ok ==> (r->Ok_0.cell_ref@, r->Ok_0.handle_sheet_id, r->Ok_0.from_handle) == set_target_spec(opt_view(cell), opt_view(ref_)).unwrap(),
        r is Err ==> r->Err_0.kind == ErrorKind::InvalidArgs,
{
    if cell.is_some() && ref_.is_some() {
        return Err(CliError::invalid_args(to_string("cannot specify both --cell and --ref")));
    }
    let raw = match cell {
        Some(c) => c,
        None => match ref_ {
            Some(r) => r,
            None => {
                return Err(CliError::invalid_args(to_string("must specify --cell")));
            },
        },
    };
    let t = trim_string(raw);
    if t.unicode_len() == 0 {
        return Err(CliError::invalid_args(to_string("must specify --cell")));
    }
    proof {
        crate::cellref::lemma_trim_idempotent(raw@);
    }
    if is_xlsx_handle(t.as_str()) {
        let (sheet_id, cell_ref) = parse_xlsx_cell_handle(t.as_str())?;
        return Ok(XlsxCellsSetTarget { cell_ref, handle_sheet_id: Some(sheet_id), from_handle: true });
    }
    let tv = str_chars(t.as_str());
    if vec_contains_char(&tv, ':') {
        return Err(CliError::invalid_args(to_string("--cell must be a single cell reference, not a range")));
    }
    let cell_ref = normalize_xlsx_cell_ref(t.as_str(), "--cell")?;
    Ok(XlsxCellsSetTarget { cell_ref, handle_sheet_id: None, from_handle: false })
}

/// The cells a clear command empties, and the sheet id a handle named.
#[derive(Debug)]
pub struct XlsxCellsClearTarget {
    pub bounds: RangeBounds,
    pub handle_sheet_id: Option<u32>,
    pub from_handle: bool,
}

/// The target a `--range` (or `--ref`) value names.
pub open spec fn clear_target_spec(range: Option<Seq<char>>, ref_: Option<Seq<char>>) -> Option<(RangeBounds, Option<u32>, bool)> {
    if range is Some && ref_ is Some {
        None
    } else {
        let raw = if range is Some {
            range
        } else {
            ref_
        };
        match raw {
            None => None,
            Some(r) => {
                let t = trim(r);
                if t.len() == 0 {
                    None
                } else if is_handle_spec(t) {
                    match cell_handle_spec(t) {
                        Some(h) => match cell_ref_spec(h.1) {
                            Some(c) => Some((RangeBounds { start_col: c.0, start_row: c.1, end_col: c.0, end_row: c.1 }, Some(h.0), true)),
                            None => None,
                        },
                        None => None,
                    }
                } else {
                    match range_spec(t) {
                        Some(b) => Some((b, None, false)),
                        None => None,
                    }
                }
            },
        }
    }
}

/// `resolve_xlsx_cells_clear_range`: the cells to clear, from `--range` or
/// `--ref`, as a range or a cell handle.
pub fn resolve_xlsx_cells_clear_range(range: Option<&str>, ref_: Option<&str>) -> (r: CliResult<XlsxCellsClearTarget>)
    ensures
        r is Ok <==> clear_target_spec(opt_view(range), opt_view(ref_)) is Some,
        r is Ok ==> (r->Ok_0.bounds, r->Ok_0.handle_sheet_id, r->Ok_0.from_handle) == clear_target_spec(opt_view(range), opt_view(ref_)).unwrap(),
        r is Err ==> r->Err_0.kind == ErrorKind::InvalidArgs,
{
    if range.is_some() && ref_.is_some() {
        return Err(CliError::invalid_args(to_string("cannot specify both --range and --ref")));
    }
    let raw = match range {
        Some(c) => c,
        None => match ref_ {
            Some(r) => r,
            None => {
                return Err(CliError::invalid_args(to_string("must specify --range")));
            },
        },
    };
    let t = trim_string(raw);
    if t.unicode_len() == 0 {
        return Err(CliError::invalid_args(to_string("must specify --range")));
    }
    proof {
        crate::cellref::lemma_trim_idempotent(raw@);
    }
    if is_xlsx_handle(t.as_str()) {
        let (sheet_id, cell_ref) = parse_xlsx_cell_handle(t.as_str())?;
        let (col, row) = parse_cell_ref(cell_ref.as_str())?;
        return Ok(XlsxCellsClearTarget {
            bounds: RangeBounds { start_col: col, start_row: row, end_col: col, end_row: row },
            handle_sheet_id: Some(sheet_id),
            from_handle: true,
        });
    }
    let bounds = parse_cli_range(t.as_str())?;
    Ok(XlsxCellsClearTarget { bounds, handle_sheet_id: None, from_handle: false })
}

/// `xlsx_cell_handle_string`: the handle of a cell, when its sheet's id is
/// unique and the reference is not blank.
pub fn xlsx_cell_handle_string(sheet: &WorkbookSheet, cell_ref: &str, sheets: &Vec<WorkbookSheet>) -> (r: Option<String>)
    ensures
        r is Some <==> !is_blank(cell_ref@) && count_sheet_id(sheets@, sheet.sheet_id) == 1,
        r is Some ==> r.unwrap()@ == "H:xlsx/ws:"@ + decimal(sheet.sheet_id as nat) + "/cell:a:"@ + cell_ref@,
{
    if trim_chars(cell_ref).len() == 0 {
        return None;
    }
    let mut count: usize = 0;
    let mut i: usize = 0;
    while i < sheets.len()
        invariant
            0 <= i <= sheets.len(),
            count <= i,
            count == count_sheet_id(sheets@.subrange(0, i as int), sheet.sheet_id),
        decreases sheets.len() - i,
    {
        proof {
            assert(sheets@.subrange(0, i + 1).drop_last() =~= sheets@.subrange(0, i as int));
        }
        if sheets[i].sheet_id == sheet.sheet_id {
            count = count + 1;
        }
        i = i + 1;
    }
    proof {
        assert(sheets@.subrange(0, sheets@.len() as int) =~= sheets@);
    }
    if count != 1 {
        return None;
    }
    let id = u32_to_string(sheet.sheet_id);
    Some(concat4("H:xlsx/ws:", id.as_str(), "/cell:a:", cell_ref))
}


// ---------------------------------------------------------------------------
// Finding elements by scanning
// ---------------------------------------------------------------------------

/// An ASCII white-space character: space, tab, line feed, form feed or carriage return.
pub open spec fn is_ascii_ws(c: char) -> bool {
    c == ' ' || c == '\t' || c == '\n' || c == '\x0C' || c == '\r'
}

/// Where a tag name that starts a text ends: at white space, `>` or `/`.
pub open spec fn name_end_from(s: Seq<char>, k: int) -> int
    decreases s.len() - k,
{
    if k < 0 || k >= s.len() {
        s.len() as int
    } else if is_ascii_ws(s[k]) || s[k] == '>' || s[k] == '/' {
        k
    } else {
        name_end_from(s, k + 1)
    }
}

proof fn lemma_name_end_from(s: Seq<char>, k: int)
    requires
        0 <= k <= s.len(),
    ensures
        k <= name_end_from(s, k) <= s.len(),
    decreases s.len() - k,
{
    if k < s.len() && !(is_ascii_ws(s[k]) || s[k] == '>' || s[k] == '/') {
        lemma_name_end_from(s, k + 1);
    }
}

/// The first element from `cursor` on whose name is `local`, with or without
/// a prefix: where its `<` is, and its prefix with the colon.
pub open spec fn element_start_from(s: Seq<char>, local: Seq<char>, cursor: int) -> Option<(int, Seq<char>)>
    decreases s.len() - cursor,
{
    if cursor < 0 || cursor > s.len() {
        None
    } else {
        let start = crate::text::find_from(s, '<', cursor);
        if start == -1 || start + 1 >= s.len() {
            None
        } else {
            proof {
                crate::text::lemma_find_from(s, '<', cursor);
            }
            let c = s[start + 1];
            if c == '/' || c == '?' || c == '!' {
                element_start_from(s, local, start + 1)
            } else {
                let after = s.subrange(start + 1, s.len() as int);
                let qn = after.subrange(0, name_end_from(after, 0));
                if qn == local {
                    Some((start, Seq::empty()))
                } else if crate::text::has_suffix(qn, local) && crate::text::has_suffix(
                    qn.subrange(0, qn.len() - local.len()),
                    seq![':'],
                ) {
                    Some((start, qn.subrange(0, qn.len() - local.len())))
                } else {
                    element_start_from(s, local, start + 1)
                }
            }
        }
    }
}

/// `find_xlsx_element_start`: where the first element with the local name
/// starts, and its prefix (with the colon; empty without one).
pub fn find_xlsx_element_start(xml: &str, local_name: &str) -> (r: Option<(usize, String)>)
    ensures
        r is Some <==> element_start_from(xml@, local_name@, 0) is Some,
        r is Some ==> r.unwrap().0 as int == element_start_from(xml@, local_name@, 0).unwrap().0
            && r.unwrap().1@ == element_start_from(xml@, local_name@, 0).unwrap().1,
        r is Some ==> r.unwrap().0 < xml@.len(),
{
    let v = str_chars(xml);
    let lv = str_chars(local_name);
    let mut cursor: usize = 0;
    loop
        invariant
            cursor <= v.len(),
            v@ == xml@,
            lv@ == local_name@,
            element_start_from(xml@, local_name@, cursor as int) == element_start_from(xml@, local_name@, 0),
        decreases v.len() - cursor,
    {
        proof {
            crate::text::lemma_find_from(v@, '<', cursor as int);
        }
        let start = match crate::text::vec_find_char(&v, '<', cursor) {
            None => {
                return None;
            },
            Some(s) => s,
        };
        if start + 1 >= v.len() {
            return None;
        }
        let c = v[start + 1];
        if c == '/' || c == '?' || c == '!' {
            cursor = start + 1;
        } else {
            let after = slice_vec(&v, start + 1, v.len());
            let mut k: usize = 0;
            while k < after.len() && !(after[k] == ' ' || after[k] == '\t' || after[k] == '\n' || after[k] == '\x0C'
                || after[k] == '\r' || after[k] == '>' || after[k] == '/')
                invariant
                    0 <= k <= after.len(),
                    name_end_from(after@, k as int) == name_end_from(after@, 0),
                decreases after.len() - k,
            {
                k = k + 1;
            }
            let qn = slice_vec(&after, 0, k);
            if crate::text::vec_eq(&qn, &lv) {
                let e = String::new();
                proof {
                    assert(e@ =~= Seq::<char>::empty());
                }
                return Some((start, e));
            }
            if crate::text::vec_ends_with(&qn, &lv) {
                let pre = slice_vec(&qn, 0, qn.len() - lv.len());
                let mut colon: Vec<char> = Vec::new();
                colon.push(':');
                proof {
                    assert(colon@ =~= seq![':']);
                }
                if crate::text::vec_ends_with(&pre, &colon) {
                    return Some((start, string_from_chars(pre.as_slice())));
                }
            }
            cursor = start + 1;
        }
    }
}

/// The worksheet with its `dimension` set to a range: the existing element
/// replaced (or removed, without a range), else a new one before `sheetData`.
pub open spec fn replace_dimension_spec(xml: Seq<char>, range: Option<Seq<char>>) -> Seq<char> {
    let existing = element_start_from(xml, "dimension"@, 0);
    let ended = match existing {
        Some(e) => {
            let a = crate::text::find_seq_from(xml, "/>"@, e.0);
            if a != -1 {
                a + 2
            } else {
                let b = crate::text::find_from(xml, '>', e.0);
                if b != -1 {
                    b + 1
                } else {
                    -1
                }
            }
        },
        None => -1,
    };
    if existing is Some && ended != -1 {
        let p = existing.unwrap().1;
        let dim = match range {
            Some(r) => seq!['<'] + p + "dimension ref=\""@ + r + "\"/>"@,
            None => Seq::empty(),
        };
        xml.subrange(0, existing.unwrap().0) + dim + xml.subrange(ended, xml.len() as int)
    } else {
        match (range, element_start_from(xml, "sheetData"@, 0)) {
            (Some(r), Some(sd)) => {
                let dim = seq!['<'] + sd.1 + "dimension ref=\""@ + r + "\"/>"@;
                xml.subrange(0, sd.0) + dim + xml.subrange(sd.0, xml.len() as int)
            },
            _ => xml,
        }
    }
}

fn dimension_element(prefix: &str, range: &str) -> (r: String)
    ensures
        r@ == seq!['<'] + prefix@ + "dimension ref=\""@ + range@ + "\"/>"@,
{
    proof {
        reveal_strlit("<");
    }
    let a = concat4("<", prefix, "dimension ref=\"", range);
    concat2(a.as_str(), "\"/>")
}

/// `replace_xlsx_dimension`: the worksheet with its `dimension` element set.
pub fn replace_xlsx_dimension(xml: &str, range: Option<&str>) -> (r: String)
    ensures
        r@ == replace_dimension_spec(xml@, opt_view(range)),
{
    let v = str_chars(xml);
    match find_xlsx_element_start(xml, "dimension") {
        Some((start, prefix)) => {
            let close = str_chars("/>");
            proof {
                reveal_strlit("/>");
                crate::text::lemma_find_seq_from(v@, close@, start as int);
                crate::text::lemma_find_from(v@, '>', start as int);
            }
            let end: Option<usize> = match crate::text::vec_find_seq(&v, &close, start) {
                Some(a) => Some(a + 2),
                None => match crate::text::vec_find_char(&v, '>', start) {
                    Some(b) => Some(b + 1),
                    None => None,
                },
            };
            match end {
                Some(e) => {
                    let before = slice_vec(&v, 0, start);
                    let after = slice_vec(&v, e, v.len());
                    let bs = string_from_chars(before.as_slice());
                    let afs = string_from_chars(after.as_slice());
                    let dim = match range {
                        Some(r) => dimension_element(prefix.as_str(), r),
                        None => {
                            let s = String::new();
                            proof {
                                assert(s@ =~= Seq::<char>::empty());
                            }
                            s
                        },
                    };
                    return crate::text::concat3(bs.as_str(), dim.as_str(), afs.as_str());
                },
                None => {},
            }
        },
        None => {},
    }
    match range {
        Some(r) => match find_xlsx_element_start(xml, "sheetData") {
            Some((sd, prefix)) => {
                let dim = dimension_element(prefix.as_str(), r);
                crate::xml::insert_text(xml, sd, dim.as_str())
            },
            None => to_string(xml),
        },
        None => to_string(xml),
    }
}

} // verus!
