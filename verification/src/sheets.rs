//! Worksheets of a workbook and the selectors and handles that name them.
use vstd::prelude::*;
use vstd::string::StringExecFns;
use crate::cellref::{cell_ref_spec, cell_text, normalize_xlsx_cell_ref};
use crate::error::{CliError, CliResult, ErrorKind};
use crate::text::{
    chars_eq_str, concat2, find_from, has_prefix, lemma_find_from, parse_u32, parse_u32_chars,
    parse_u32_spec, slice_vec, str_chars, str_eq, str_strip_all_prefix, strip_all_prefix,
    strip_prefix_spec, to_string, trim, trim_chars, trim_string, u32_to_string, vec_find_char, concat3,
    vec_strip_all_prefix, vec_strip_prefix, vec_to_string, concat4, concat5, debug_quoted, decimal,
    str_debug_text,
};

verus! {

/// A sheet entry of the workbook part.
#[derive(Debug)]
pub struct WorkbookSheet {
    pub name: String,
    pub sheet_id: u32,
    pub position: u32,
    pub rel_id: String,
    pub state: String,
}

pub open spec fn sheet_view(s: WorkbookSheet) -> (Seq<char>, u32, u32, Seq<char>, Seq<char>) {
    (s.name@, s.sheet_id, s.position, s.rel_id@, s.state@)
}

impl WorkbookSheet {
    pub fn clone_sheet(&self) -> (r: WorkbookSheet)
        ensures
            sheet_view(r) == sheet_view(*self),
    {
        WorkbookSheet {
            name: self.name.clone(),
            sheet_id: self.sheet_id,
            position: self.position,
            rel_id: self.rel_id.clone(),
            state: self.state.clone(),
        }
    }
}

// ---------------------------------------------------------------------------
// Selectors
// ---------------------------------------------------------------------------

/// `xlsx_sheet_selectors`: every selector that names a sheet, most specific first.
pub fn xlsx_sheet_selectors(name: &str, sheet_id: u32, position: u32, rel_id: &str, part_uri: &str) -> (r:
    Vec<String>)
    ensures
        r@.len() == 9,
        r@[0]@ == "sheetId:"@ + crate::text::decimal(sheet_id as nat),
        r@[1]@ == "sheet:"@ + crate::text::decimal(position as nat),
        r@[2]@ == "#"@ + crate::text::decimal(position as nat),
        r@[3]@ == "rId:"@ + rel_id@,
        r@[4]@ == "rid:"@ + rel_id@,
        r@[5]@ == "part:"@ + part_uri@,
        r@[6]@ == "name:"@ + name@,
        r@[7]@ == "~"@ + name@,
        r@[8]@ == name@,
{
    let id = u32_to_string(sheet_id);
    let pos = u32_to_string(position);
    let mut v: Vec<String> = Vec::new();
    v.push(concat2("sheetId:", id.as_str()));
    v.push(concat2("sheet:", pos.as_str()));
    v.push(concat2("#", pos.as_str()));
    v.push(concat2("rId:", rel_id));
    v.push(concat2("rid:", rel_id));
    v.push(concat2("part:", part_uri));
    v.push(concat2("name:", name));
    v.push(concat2("~", name));
    v.push(to_string(name));
    v
}

/// The selector `sheetId:<id>` of a sheet.
pub open spec fn sheet_id_selector(sheet_id: u32) -> Seq<char> {
    "sheetId:"@ + crate::text::decimal(sheet_id as nat)
}

/// `xlsx_sheet_selector`: the stable selector of a sheet, by its sheet id.
pub fn xlsx_sheet_selector(sheet: &WorkbookSheet) -> (r: String)
    ensures
        r@ == sheet_id_selector(sheet.sheet_id),
{
    let id = u32_to_string(sheet.sheet_id);
    concat2("sheetId:", id.as_str())
}

/// `freeze_sheet_selector`: the same selector as [`xlsx_sheet_selector`].
pub fn freeze_sheet_selector(sheet: &WorkbookSheet) -> (r: String)
    ensures
        r@ == sheet_id_selector(sheet.sheet_id),
{
    xlsx_sheet_selector(sheet)
}

// ---------------------------------------------------------------------------
// Part names
// ---------------------------------------------------------------------------

/// A relationship target as a part name under `xl/`.
pub open spec fn xl_target_spec(target: Seq<char>) -> Seq<char> {
    let t = strip_all_prefix(target, "/"@);
    if has_prefix(t, "xl/"@) {
        t
    } else {
        "xl/"@ + strip_all_prefix(t, "../"@)
    }
}

/// A normalized target is a part name under `xl/`, and normalizing it again
/// changes nothing.
pub proof fn lemma_xl_target_normal(target: Seq<char>)
    ensures
        has_prefix(xl_target_spec(target), "xl/"@),
        xl_target_spec(xl_target_spec(target)) == xl_target_spec(target),
{
    reveal_strlit("/");
    reveal_strlit("xl/");
    reveal_strlit("../");
    let r = xl_target_spec(target);
    let t = strip_all_prefix(target, "/"@);
    if !has_prefix(t, "xl/"@) {
        assert(("xl/"@ + strip_all_prefix(t, "../"@)).subrange(0, 3) =~= "xl/"@);
    }
    assert(has_prefix(r, "xl/"@));
    assert(r.subrange(0, 3) == "xl/"@);
    assert(r[0] == r.subrange(0, 3)[0]);
    assert(r[0] == 'x');
    assert(r.subrange(0, 1)[0] == r[0]);
    assert(!has_prefix(r, "/"@));
    assert(strip_all_prefix(r, "/"@) == r);
}

/// `normalize_xl_target`: a workbook relationship target as a package part name.
pub fn normalize_xl_target(target: &str) -> (r: String)
    ensures
        r@ == xl_target_spec(target@),
{
    proof {
        reveal_strlit("/");
        reveal_strlit("../");
    }
    let t = str_strip_all_prefix(target, "/");
    let xl = str_chars("xl/");
    if crate::text::vec_starts_with(&t, &xl) {
        vec_to_string(&t)
    } else {
        let dots = str_chars("../");
        let rest = vec_strip_all_prefix(&t, &dots);
        let rs = vec_to_string(&rest);
        concat2("xl/", rs.as_str())
    }
}

// ---------------------------------------------------------------------------
// Handles
// ---------------------------------------------------------------------------

/// Whether a value is a handle: it starts, after trimming, with `H:`.
pub open spec fn is_handle_spec(value: Seq<char>) -> bool {
    has_prefix(trim(value), "H:"@)
}

/// `is_xlsx_handle`.
pub fn is_xlsx_handle(value: &str) -> (r: bool)
    ensures
        r == is_handle_spec(value@),
{
    let t = trim_chars(value);
    let h = str_chars("H:");
    crate::text::vec_starts_with(&t, &h)
}

/// The numeric sheet id of a handle's worksheet scope: non-blank and a `u32`.
pub open spec fn handle_sheet_id_spec(sheet_id: Seq<char>) -> Option<u32> {
    if trim(sheet_id).len() == 0 {
        None
    } else {
        parse_u32_spec(sheet_id)
    }
}

/// An error message that ends by quoting the handle as `{:?}` does.
pub open spec fn handle_message(head: Seq<char>, handle: Seq<char>) -> Seq<char> {
    head + " (handle "@ + str_debug_text(handle) + ")"@
}

fn handle_error(head: &str, handle: &str) -> (e: CliError)
    ensures
        e.kind == ErrorKind::InvalidArgs,
        e.message@ == handle_message(head@, handle@),
{
    let q = debug_quoted(handle);
    CliError::invalid_args(concat4(head, " (handle ", q.as_str(), ")"))
}

/// The message for a sheet id that is blank or not a `u32`.
pub open spec fn handle_sheet_id_error(sheet_id: Seq<char>, handle: Seq<char>) -> Seq<char> {
    if trim(sheet_id).len() == 0 {
        handle_message("HANDLE_MALFORMED: empty worksheet sheetId"@, handle)
    } else {
        handle_message("HANDLE_MALFORMED: worksheet sheetId must be numeric"@, handle)
    }
}

/// `parse_xlsx_handle_sheet_id`.
pub fn parse_xlsx_handle_sheet_id(sheet_id: &str, handle: &str) -> (r: CliResult<u32>)
    ensures
        r is Ok <==> handle_sheet_id_spec(sheet_id@) is Some,
        r is Ok ==> r->Ok_0 == handle_sheet_id_spec(sheet_id@).unwrap(),
        r is Err ==> r->Err_0.kind == ErrorKind::InvalidArgs,
        r is Err ==> r->Err_0.message@ == handle_sheet_id_error(sheet_id@, handle@),
{
    let t = trim_chars(sheet_id);
    if t.len() == 0 {
        return Err(handle_error("HANDLE_MALFORMED: empty worksheet sheetId", handle));
    }
    match parse_u32(sheet_id) {
        Some(id) => Ok(id),
        None => Err(handle_error("HANDLE_MALFORMED: worksheet sheetId must be numeric", handle)),
    }
}

/// The pieces of `s` between `/` separators.
pub open spec fn slash_count_at_least(s: Seq<char>, k: nat) -> bool
    decreases k,
{
    if k == 0 {
        true
    } else {
        let f = find_from(s, '/', 0);
        f != -1 && slash_count_at_least(s.subrange(f + 1, s.len() as int), (k - 1) as nat)
    }
}

/// The first piece of `s` before a `/` (all of `s` when there is none).
pub open spec fn first_piece(s: Seq<char>) -> Seq<char> {
    let f = find_from(s, '/', 0);
    if f == -1 {
        s
    } else {
        s.subrange(0, f)
    }
}

/// What follows the first `/` of `s`.
pub open spec fn after_first_slash(s: Seq<char>) -> Seq<char> {
    let f = find_from(s, '/', 0);
    s.subrange(f + 1, s.len() as int)
}

/// The number of pieces of `s` between `/` separators, capped at 4.
pub open spec fn piece_count(s: Seq<char>) -> nat {
    if find_from(s, '/', 0) == -1 {
        1
    } else if find_from(after_first_slash(s), '/', 0) == -1 {
        2
    } else if find_from(after_first_slash(after_first_slash(s)), '/', 0) == -1 {
        3
    } else {
        4
    }
}

pub open spec fn format_mismatch_head() -> Seq<char> {
    "HANDLE_FORMAT_MISMATCH: handle format tag does not match package format \"xlsx\""@
}

pub open spec fn not_sheet_handle_head() -> Seq<char> {
    "HANDLE_MALFORMED: expected a sheet handle (H:xlsx/ws:<sheetId>); a cell/comment handle belongs on the cell/comment flag"@
}

/// The sheet id a sheet handle `H:xlsx/ws:<sheetId>` names: `Ok(None)` for a
/// value that is no handle, and for a malformed one the error message.
pub open spec fn sheet_handle_spec(value: Seq<char>) -> Result<Option<u32>, Seq<char>> {
    let v = trim(value);
    if !has_prefix(v, "H:"@) {
        Ok(None)
    } else {
        let body = strip_all_prefix(v, "H:"@);
        let p0 = first_piece(body);
        if piece_count(body) == 2 && p0 == "xlsx"@ && has_prefix(after_first_slash(body), "ws:"@) {
            let id_text = strip_prefix_spec(after_first_slash(body), "ws:"@).unwrap();
            match handle_sheet_id_spec(id_text) {
                Some(id) => Ok(Some(id)),
                None => Err(handle_sheet_id_error(id_text, v)),
            }
        } else if p0 != "xlsx"@ {
            Err(handle_message(format_mismatch_head(), v))
        } else {
            Err(handle_message(not_sheet_handle_head(), v))
        }
    }
}

/// The sheet handle of a sheet id: `H:xlsx/ws:<sheetId>`.
pub open spec fn sheet_handle_text(id: u32) -> Seq<char> {
    "H:xlsx/ws:"@ + decimal(id as nat)
}

/// A sheet handle reads back as the sheet id it was written for.
pub proof fn lemma_sheet_handle_roundtrip(id: u32)
    ensures
        sheet_handle_spec(sheet_handle_text(id)) == Ok::<Option<u32>, Seq<char>>(Some(id)),
{
    reveal_strlit("H:xlsx/ws:");
    reveal_strlit("H:");
    reveal_strlit("xlsx");
    reveal_strlit("ws:");
    let d = decimal(id as nat);
    crate::text::lemma_decimal(id as nat);
    crate::text::lemma_parse_decimal_u32(id);
    let s = sheet_handle_text(id);
    assert(s[0] == 'H');
    assert(s.last() == d.last());
    assert(crate::text::is_ascii_digit(d[d.len() - 1]));
    crate::cellref::lemma_trim_identity(s);
    assert(s.subrange(0, 2) =~= "H:"@);
    let body = s.subrange(2, s.len() as int);
    let lit = seq!['x', 'l', 's', 'x', '/', 'w', 's', ':'];
    assert(body =~= lit + d);
    assert(!has_prefix(body, "H:"@)) by {
        assert(body.subrange(0, 2)[0] == 'x');
    }
    assert(strip_all_prefix(body, "H:"@) == body);
    assert(strip_all_prefix(s, "H:"@) == body);
    assert(find_from(body, '/', 4) == 4);
    assert(find_from(body, '/', 3) == 4);
    assert(find_from(body, '/', 2) == 4);
    assert(find_from(body, '/', 1) == 4);
    assert(find_from(body, '/', 0) == 4);
    assert(first_piece(body) =~= "xlsx"@);
    let after = after_first_slash(body);
    assert(after =~= seq!['w', 's', ':'] + d);
    lemma_find_from(after, '/', 0);
    if find_from(after, '/', 0) != -1 {
        let r = find_from(after, '/', 0);
        if r >= 3 {
            assert(after[r] == d[r - 3]);
        }
    }
    assert(piece_count(body) == 2);
    assert(after.subrange(0, 3) =~= "ws:"@);
    assert(strip_prefix_spec(after, "ws:"@).unwrap() =~= d);
    crate::cellref::lemma_trim_identity(d);
}

/// Splits `v` at its first `/`, when there is one.
pub fn split_first_slash(v: &Vec<char>) -> (r: Option<(Vec<char>, Vec<char>)>)
    ensures
        r is None <==> find_from(v@, '/', 0) == -1,
        r is Some ==> r.unwrap().0@ == first_piece(v@) && r.unwrap().1@ == after_first_slash(v@),
{
    proof {
        lemma_find_from(v@, '/', 0);
    }
    match vec_find_char(v, '/', 0) {
        None => None,
        Some(f) => {
            assert(f < v.len());
            Some((slice_vec(v, 0, f), slice_vec(v, f + 1, v.len())))
        },
    }
}

/// `parse_xlsx_sheet_handle`: the sheet id of a sheet handle, `None` for a
/// value that is not a handle.
pub fn parse_xlsx_sheet_handle(value: &str) -> (r: CliResult<Option<u32>>)
    ensures
        r is Ok <==> sheet_handle_spec(value@) is Ok,
        r is Ok ==> r->Ok_0 == sheet_handle_spec(value@)->Ok_0,
        r is Err ==> r->Err_0.kind == ErrorKind::InvalidArgs,
        r is Err ==> r->Err_0.message@ == sheet_handle_spec(value@)->Err_0,
{
    let v = trim_string(value);
    if !is_xlsx_handle(value) {
        return Ok(None);
    }
    proof {
        reveal_strlit("H:");
    }
    let body = str_strip_all_prefix(v.as_str(), "H:");
    let (p0, rest) = match split_first_slash(&body) {
        None => {
            if chars_eq_str(&body, "xlsx") {
                return Err(handle_error(
                    "HANDLE_MALFORMED: expected a sheet handle (H:xlsx/ws:<sheetId>); a cell/comment handle belongs on the cell/comment flag",
                    v.as_str(),
                ));
            }
            return Err(handle_error(
                "HANDLE_FORMAT_MISMATCH: handle format tag does not match package format \"xlsx\"",
                v.as_str(),
            ));
        },
        Some(p) => p,
    };
    let is_xlsx = chars_eq_str(&p0, "xlsx");
    let two = split_first_slash(&rest).is_none();
    if two && is_xlsx {
        match vec_strip_prefix(&rest, "ws:") {
            Some(id) => {
                let ids = vec_to_string(&id);
                return match parse_xlsx_handle_sheet_id(ids.as_str(), v.as_str()) {
                    Ok(n) => Ok(Some(n)),
                    Err(e) => Err(e),
                };
            },
            None => {},
        }
    }
    if !is_xlsx {
        return Err(handle_error(
            "HANDLE_FORMAT_MISMATCH: handle format tag does not match package format \"xlsx\"",
            v.as_str(),
        ));
    }
    Err(handle_error(
        "HANDLE_MALFORMED: expected a sheet handle (H:xlsx/ws:<sheetId>); a cell/comment handle belongs on the cell/comment flag",
        v.as_str(),
    ))
}

/// The sheet id and normalized cell of a cell handle `H:xlsx/ws:<id>/cell:a:<A1>`.
pub open spec fn cell_handle_spec(value: Seq<char>) -> Option<(u32, Seq<char>)> {
    let body = strip_all_prefix(trim(value), "H:"@);
    let p1 = after_first_slash(body);
    let p2 = after_first_slash(p1);
    if first_piece(body) != "xlsx"@ || piece_count(body) != 3 || !has_prefix(first_piece(p1), "ws:"@)
        || !has_prefix(p2, "cell:a:"@) {
        None
    } else {
        match (
            handle_sheet_id_spec(strip_prefix_spec(first_piece(p1), "ws:"@).unwrap()),
            cell_ref_spec(strip_prefix_spec(p2, "cell:a:"@).unwrap()),
        ) {
            (Some(id), Some(c)) => Some((id, cell_text(c.0, c.1))),
            _ => None,
        }
    }
}

/// `parse_xlsx_cell_handle`: the sheet id and `A1` cell of a cell handle.
pub fn parse_xlsx_cell_handle(value: &str) -> (r: CliResult<(u32, String)>)
    ensures
        r is Ok <==> cell_handle_spec(value@) is Some,
        r is Ok ==> r->Ok_0.0 == cell_handle_spec(value@).unwrap().0,
        r is Ok ==> r->Ok_0.1@ == cell_handle_spec(value@).unwrap().1,
        r is Err ==> r->Err_0.kind == ErrorKind::InvalidArgs,
{
    let v = trim_string(value);
    proof {
        reveal_strlit("H:");
    }
    let body = str_strip_all_prefix(v.as_str(), "H:");
    let bad_tag = handle_error(
        "HANDLE_FORMAT_MISMATCH: handle format tag does not match package format \"xlsx\"",
        v.as_str(),
    );
    let (p0, rest1) = match split_first_slash(&body) {
        None => {
            return Err(bad_tag);
        },
        Some(p) => p,
    };
    if !chars_eq_str(&p0, "xlsx") {
        return Err(bad_tag);
    }
    let (p1, rest2) = match split_first_slash(&rest1) {
        None => {
            return Err(CliError::invalid_args(to_string("--cell handle must be a cell handle (H:xlsx/ws:<sheetId>/cell:a:<A1>)")));
        },
        Some(p) => p,
    };
    if split_first_slash(&rest2).is_some() {
        return Err(CliError::invalid_args(to_string("--cell handle must be a cell handle (H:xlsx/ws:<sheetId>/cell:a:<A1>)")));
    }
    let id = match vec_strip_prefix(&p1, "ws:") {
        None => {
            return Err(handle_error("HANDLE_MALFORMED: worksheet scope is malformed", v.as_str()));
        },
        Some(id) => id,
    };
    let cell = match vec_strip_prefix(&rest2, "cell:a:") {
        None => {
            return Err(CliError::invalid_args(to_string("--cell handle must be a cell handle (H:xlsx/ws:<sheetId>/cell:a:<A1>)")));
        },
        Some(c) => c,
    };
    let ids = vec_to_string(&id);
    let sheet_id = parse_xlsx_handle_sheet_id(ids.as_str(), v.as_str())?;
    let cs = vec_to_string(&cell);
    let cell_ref = normalize_xlsx_cell_ref(cs.as_str(), "cell ref in handle")?;
    Ok((sheet_id, cell_ref))
}

// ---------------------------------------------------------------------------
// Resolving a selector
// ---------------------------------------------------------------------------

/// The index of the first sheet from `i` on that satisfies `p`, or -1.
pub open spec fn first_sheet_from(
    sheets: Seq<WorkbookSheet>,
    p: spec_fn(WorkbookSheet) -> bool,
    i: int,
) -> int
    decreases sheets.len() - i,
{
    if i < 0 || i >= sheets.len() {
        -1
    } else if p(sheets[i]) {
        i
    } else {
        first_sheet_from(sheets, p, i + 1)
    }
}

pub open spec fn first_sheet(sheets: Seq<WorkbookSheet>, p: spec_fn(WorkbookSheet) -> bool) -> int {
    first_sheet_from(sheets, p, 0)
}

pub proof fn lemma_first_sheet_from(sheets: Seq<WorkbookSheet>, p: spec_fn(WorkbookSheet) -> bool, i: int)
    requires
        0 <= i <= sheets.len(),
    ensures
        first_sheet_from(sheets, p, i) == -1 || (i <= first_sheet_from(sheets, p, i) < sheets.len()
            && p(sheets[first_sheet_from(sheets, p, i)])),
    decreases sheets.len() - i,
{
    if i < sheets.len() && !p(sheets[i]) {
        lemma_first_sheet_from(sheets, p, i + 1);
    }
}

pub open spec fn with_sheet_id(id: u32) -> spec_fn(WorkbookSheet) -> bool {
    |s: WorkbookSheet| s.sheet_id == id
}

pub open spec fn with_position(pos: u32) -> spec_fn(WorkbookSheet) -> bool {
    |s: WorkbookSheet| s.position == pos
}

pub open spec fn with_name(name: Seq<char>) -> spec_fn(WorkbookSheet) -> bool {
    |s: WorkbookSheet| s.name@ == name
}

pub open spec fn with_rel_id(rel_id: Seq<char>) -> spec_fn(WorkbookSheet) -> bool {
    |s: WorkbookSheet| s.rel_id@ == rel_id
}

/// How many sheets carry the sheet id.
pub open spec fn count_sheet_id(sheets: Seq<WorkbookSheet>, id: u32) -> nat
    decreases sheets.len(),
{
    if sheets.len() == 0 {
        0
    } else {
        count_sheet_id(sheets.drop_last(), id) + if sheets.last().sheet_id == id {
            1nat
        } else {
            0nat
        }
    }
}

/// The outcome of resolving a sheet id that must be unique: the index of the
/// sheet, or the kind of the error.
pub open spec fn unique_sheet_id_spec(sheets: Seq<WorkbookSheet>, id: u32) -> Result<int, ErrorKind> {
    if count_sheet_id(sheets, id) == 1 {
        Ok(first_sheet(sheets, with_sheet_id(id)))
    } else {
        Err(ErrorKind::TargetNotFound)
    }
}

fn find_sheet_id(sheets: &Vec<WorkbookSheet>, id: u32) -> (r: Option<usize>)
    ensures
        r is Some ==> r.unwrap() as int == first_sheet(sheets@, with_sheet_id(id)),
        r is None ==> first_sheet(sheets@, with_sheet_id(id)) == -1,
{
    let mut i: usize = 0;
    while i < sheets.len()
        invariant
            0 <= i <= sheets.len(),
            first_sheet_from(sheets@, with_sheet_id(id), i as int) == first_sheet(
                sheets@,
                with_sheet_id(id),
            ),
        decreases sheets.len() - i,
    {
        if sheets[i].sheet_id == id {
            return Some(i);
        }
        i = i + 1;
    }
    None
}

fn find_position(sheets: &Vec<WorkbookSheet>, pos: u32) -> (r: Option<usize>)
    ensures
        r is Some ==> r.unwrap() as int == first_sheet(sheets@, with_position(pos)),
        r is None ==> first_sheet(sheets@, with_position(pos)) == -1,
{
    let mut i: usize = 0;
    while i < sheets.len()
        invariant
            0 <= i <= sheets.len(),
            first_sheet_from(sheets@, with_position(pos), i as int) == first_sheet(
                sheets@,
                with_position(pos),
            ),
        decreases sheets.len() - i,
    {
        if sheets[i].position == pos {
            return Some(i);
        }
        i = i + 1;
    }
    None
}

fn find_name(sheets: &Vec<WorkbookSheet>, name: &Vec<char>) -> (r: Option<usize>)
    ensures
        r is Some ==> r.unwrap() as int == first_sheet(sheets@, with_name(name@)),
        r is None ==> first_sheet(sheets@, with_name(name@)) == -1,
{
    let mut i: usize = 0;
    while i < sheets.len()
        invariant
            0 <= i <= sheets.len(),
            first_sheet_from(sheets@, with_name(name@), i as int) == first_sheet(
                sheets@,
                with_name(name@),
            ),
        decreases sheets.len() - i,
    {
        let n = str_chars(sheets[i].name.as_str());
        if crate::text::vec_eq(&n, name) {
            return Some(i);
        }
        i = i + 1;
    }
    None
}

fn find_rel_id(sheets: &Vec<WorkbookSheet>, rel_id: &Vec<char>) -> (r: Option<usize>)
    ensures
        r is Some ==> r.unwrap() as int == first_sheet(sheets@, with_rel_id(rel_id@)),
        r is None ==> first_sheet(sheets@, with_rel_id(rel_id@)) == -1,
{
    let mut i: usize = 0;
    while i < sheets.len()
        invariant
            0 <= i <= sheets.len(),
            first_sheet_from(sheets@, with_rel_id(rel_id@), i as int) == first_sheet(
                sheets@,
                with_rel_id(rel_id@),
            ),
        decreases sheets.len() - i,
    {
        let n = str_chars(sheets[i].rel_id.as_str());
        if crate::text::vec_eq(&n, rel_id) {
            return Some(i);
        }
        i = i + 1;
    }
    None
}

/// The message for a sheet id that no sheet carries, or that several carry;
/// it quotes the selector as `{:?}` does.
pub open spec fn sheet_id_error(sheets: Seq<WorkbookSheet>, id: u32, selector: Seq<char>) -> Seq<char> {
    if count_sheet_id(sheets, id) == 0 {
        "HANDLE_SCOPE_STALE: worksheet with sheetId "@ + decimal(id as nat) + " was not found (selector "@
            + str_debug_text(selector) + ")"@
    } else {
        "HANDLE_AMBIGUOUS: worksheet sheetId "@ + decimal(id as nat) + " is not unique (selector "@
            + str_debug_text(selector) + ")"@
    }
}

/// `resolve_sheet_by_sheet_id_unique`: the one sheet with the sheet id; an
/// error when there is none or more than one.
pub fn resolve_sheet_by_sheet_id_unique(sheets: &Vec<WorkbookSheet>, sheet_id: u32, selector: &str) -> (r:
    CliResult<WorkbookSheet>)
    ensures
        r is Ok <==> unique_sheet_id_spec(sheets@, sheet_id) is Ok,
        r is Ok ==> {
            let i = unique_sheet_id_spec(sheets@, sheet_id)->Ok_0;
            0 <= i < sheets@.len() && sheet_view(r->Ok_0) == sheet_view(sheets@[i])
        },
        r is Err ==> r->Err_0.kind == ErrorKind::TargetNotFound,
        r is Err ==> r->Err_0.message@ == sheet_id_error(sheets@, sheet_id, selector@),
{
    let mut count: usize = 0;
    let mut i: usize = 0;
    while i < sheets.len()
        invariant
            0 <= i <= sheets.len(),
            count <= i,
            count == count_sheet_id(sheets@.subrange(0, i as int), sheet_id),
        decreases sheets.len() - i,
    {
        proof {
            assert(sheets@.subrange(0, i + 1).drop_last() =~= sheets@.subrange(0, i as int));
        }
        if sheets[i].sheet_id == sheet_id {
            count = count + 1;
        }
        i = i + 1;
    }
    proof {
        assert(sheets@.subrange(0, sheets@.len() as int) =~= sheets@);
    }
    let id = u32_to_string(sheet_id);
    let q = debug_quoted(selector);
    if count == 1 {
        match find_sheet_id(sheets, sheet_id) {
            Some(k) => {
                proof {
                    lemma_first_sheet_from(sheets@, with_sheet_id(sheet_id), 0);
                }
                Ok(sheets[k].clone_sheet())
            },
            None => {
                proof {
                    lemma_count_zero(sheets@, sheet_id);
                }
                Err(CliError::target_not_found(concat5(
                    "HANDLE_SCOPE_STALE: worksheet with sheetId ",
                    id.as_str(),
                    " was not found (selector ",
                    q.as_str(),
                    ")",
                )))
            },
        }
    } else if count == 0 {
        Err(CliError::target_not_found(concat5(
                "HANDLE_SCOPE_STALE: worksheet with sheetId ",
                id.as_str(),
                " was not found (selector ",
                q.as_str(),
                ")",
            )))
    } else {
        Err(CliError::target_not_found(concat5(
            "HANDLE_AMBIGUOUS: worksheet sheetId ",
            id.as_str(),
            " is not unique (selector ",
            q.as_str(),
            ")",
        )))
    }
}

/// No two sheets carry the same sheet id.
pub open spec fn sheet_ids_distinct(sheets: Seq<WorkbookSheet>) -> bool {
    forall|a: int, b: int| 0 <= a < b < sheets.len() ==> sheets[a].sheet_id != sheets[b].sheet_id
}

/// The selector listed for a sheet (`sheetId:<n>`) resolves back to that
/// sheet, when no two sheets share a sheet id.
pub proof fn lemma_sheet_selector_resolves(sheets: Seq<WorkbookSheet>, k: int)
    requires
        sheet_ids_distinct(sheets),
        0 <= k < sheets.len(),
    ensures
        resolve_sheet_spec(sheets, sheet_id_selector(sheets[k].sheet_id)) == Ok::<int, ErrorKind>(k),
{
    reveal_strlit("sheetId:");
    reveal_strlit("H:");
    let id = sheets[k].sheet_id;
    let d = crate::text::decimal(id as nat);
    let sel = sheet_id_selector(id);
    crate::text::lemma_decimal(id as nat);
    crate::text::lemma_parse_decimal_u32(id);
    assert(sel[0] == 's');
    assert(sel.last() == d.last());
    assert(crate::text::is_ascii_digit(d[d.len() - 1]));
    crate::cellref::lemma_trim_identity(sel);
    assert(!has_prefix(sel, "H:"@)) by {
        assert(sel.subrange(0, 2)[0] == 's');
    }
    assert(sheet_handle_spec(sel) == Ok::<Option<u32>, Seq<char>>(None));
    assert(sel.subrange(0, 8) =~= "sheetId:"@);
    assert(strip_prefix_spec(sel, "sheetId:"@) == Some(d)) by {
        assert(sel.subrange(8, sel.len() as int) =~= d);
    }
    lemma_first_sheet_from(sheets, with_sheet_id(id), 0);
    let f = first_sheet(sheets, with_sheet_id(id));
    if f == -1 {
        lemma_first_none(sheets, with_sheet_id(id), 0);
        assert(with_sheet_id(id)(sheets[k]));
    }
    assert(f == k) by {
        if f < k {
            assert(sheets[f].sheet_id != sheets[k].sheet_id);
        } else if f > k {
            assert(sheets[k].sheet_id != sheets[f].sheet_id);
        }
    }
    assert(by_sheet_id_selector(sheets, sel) == k);
}

proof fn lemma_count_one(sheets: Seq<WorkbookSheet>, k: int)
    requires
        sheet_ids_distinct(sheets),
        0 <= k < sheets.len(),
    ensures
        count_sheet_id(sheets, sheets[k].sheet_id) == 1,
    decreases sheets.len(),
{
    let id = sheets[k].sheet_id;
    let d = sheets.drop_last();
    if k == sheets.len() - 1 {
        assert forall|j: int| 0 <= j < d.len() implies (#[trigger] d[j]).sheet_id != id by {
            assert(d[j] == sheets[j]);
        }
        lemma_count_none(d, id);
    } else {
        assert forall|a: int, b: int| 0 <= a < b < d.len() implies d[a].sheet_id != d[b].sheet_id by {
            assert(d[a] == sheets[a] && d[b] == sheets[b]);
        }
        assert(d[k] == sheets[k]);
        lemma_count_one(d, k);
        assert(sheets.last() == sheets[sheets.len() - 1]);
    }
}

/// With sheet ids distinct, the sheet id of each sheet resolves uniquely to
/// that sheet.
pub proof fn lemma_sheet_id_resolves_uniquely(sheets: Seq<WorkbookSheet>, k: int)
    requires
        sheet_ids_distinct(sheets),
        0 <= k < sheets.len(),
    ensures
        unique_sheet_id_spec(sheets, sheets[k].sheet_id) == Ok::<int, ErrorKind>(k),
{
    let id = sheets[k].sheet_id;
    lemma_count_one(sheets, k);
    lemma_first_sheet_from(sheets, with_sheet_id(id), 0);
    let f = first_sheet(sheets, with_sheet_id(id));
    if f == -1 {
        lemma_first_none(sheets, with_sheet_id(id), 0);
        assert(with_sheet_id(id)(sheets[k]));
    }
    assert(f == k) by {
        if f < k {
            assert(sheets[f].sheet_id != sheets[k].sheet_id);
        } else if f > k {
            assert(sheets[k].sheet_id != sheets[f].sheet_id);
        }
    }
}

/// With no sheet carrying the id, it is counted zero times.
pub proof fn lemma_count_zero(sheets: Seq<WorkbookSheet>, id: u32)
    requires
        first_sheet(sheets, with_sheet_id(id)) == -1,
    ensures
        count_sheet_id(sheets, id) == 0,
    decreases sheets.len(),
{
    lemma_first_none(sheets, with_sheet_id(id), 0);
    lemma_count_none(sheets, id);
}

proof fn lemma_first_none(sheets: Seq<WorkbookSheet>, p: spec_fn(WorkbookSheet) -> bool, i: int)
    requires
        0 <= i <= sheets.len(),
        first_sheet_from(sheets, p, i) == -1,
    ensures
        forall|k: int| i <= k < sheets.len() ==> !p(#[trigger] sheets[k]),
    decreases sheets.len() - i,
{
    if i < sheets.len() {
        lemma_first_none(sheets, p, i + 1);
    }
}

proof fn lemma_count_none(sheets: Seq<WorkbookSheet>, id: u32)
    requires
        forall|k: int| 0 <= k < sheets.len() ==> (#[trigger] sheets[k]).sheet_id != id,
    ensures
        count_sheet_id(sheets, id) == 0,
    decreases sheets.len(),
{
    if sheets.len() > 0 {
        assert forall|k: int| 0 <= k < sheets.drop_last().len() implies (
        #[trigger] sheets.drop_last()[k]).sheet_id != id by {
            assert(sheets.drop_last()[k] == sheets[k]);
        }
        lemma_count_none(sheets.drop_last(), id);
        assert(sheets.last() == sheets[sheets.len() - 1]);
    }
}


/// What follows one of two prefixes (`strip_prefix(a).or_else(|| strip_prefix(b))`).
pub open spec fn after_either(s: Seq<char>, a: Seq<char>, b: Seq<char>) -> Option<Seq<char>> {
    match strip_prefix_spec(s, a) {
        Some(r) => Some(r),
        None => strip_prefix_spec(s, b),
    }
}

/// The sheet a `sheetId:<n>` selector finds, or -1.
pub open spec fn by_sheet_id_selector(sheets: Seq<WorkbookSheet>, sel: Seq<char>) -> int {
    match strip_prefix_spec(sel, "sheetId:"@) {
        Some(r) => match parse_u32_spec(r) {
            Some(id) => first_sheet(sheets, with_sheet_id(id)),
            None => -1,
        },
        None => -1,
    }
}

/// The sheet a `sheet:<n>` or `#<n>` selector finds, or -1.
pub open spec fn by_position_selector(sheets: Seq<WorkbookSheet>, sel: Seq<char>) -> int {
    match after_either(sel, "sheet:"@, "#"@) {
        Some(r) => match parse_u32_spec(r) {
            Some(p) => first_sheet(sheets, with_position(p)),
            None => -1,
        },
        None => -1,
    }
}

/// The sheet a `name:<name>` or `~<name>` selector finds, or -1.
pub open spec fn by_name_selector(sheets: Seq<WorkbookSheet>, sel: Seq<char>) -> int {
    match after_either(sel, "name:"@, "~"@) {
        Some(r) => first_sheet(sheets, with_name(r)),
        None => -1,
    }
}

/// The sheet a `rId:<id>` or `rid:<id>` selector finds, or -1.
pub open spec fn by_rel_id_selector(sheets: Seq<WorkbookSheet>, sel: Seq<char>) -> int {
    match after_either(sel, "rId:"@, "rid:"@) {
        Some(r) => first_sheet(sheets, with_rel_id(r)),
        None => -1,
    }
}

/// The sheet a bare number finds by position, or -1.
pub open spec fn by_bare_position(sheets: Seq<WorkbookSheet>, sel: Seq<char>) -> int {
    match parse_u32_spec(sel) {
        Some(p) => first_sheet(sheets, with_position(p)),
        None => -1,
    }
}

/// The sheet a selector that is no handle finds: the forms are tried in turn,
/// and the first that finds a sheet wins; a bare name is the last resort.
pub open spec fn plain_selector_spec(sheets: Seq<WorkbookSheet>, sel: Seq<char>) -> int {
    if by_sheet_id_selector(sheets, sel) != -1 {
        by_sheet_id_selector(sheets, sel)
    } else if by_position_selector(sheets, sel) != -1 {
        by_position_selector(sheets, sel)
    } else if by_name_selector(sheets, sel) != -1 {
        by_name_selector(sheets, sel)
    } else if by_rel_id_selector(sheets, sel) != -1 {
        by_rel_id_selector(sheets, sel)
    } else if by_bare_position(sheets, sel) != -1 {
        by_bare_position(sheets, sel)
    } else {
        first_sheet(sheets, with_name(sel))
    }
}

/// The sheet that a selector resolves to: its index, or the kind of the error.
pub open spec fn resolve_sheet_spec(sheets: Seq<WorkbookSheet>, sel: Seq<char>) -> Result<int, ErrorKind> {
    match sheet_handle_spec(sel) {
        Err(_) => Err(ErrorKind::InvalidArgs),
        Ok(Some(id)) => unique_sheet_id_spec(sheets, id),
        Ok(None) => if plain_selector_spec(sheets, sel) == -1 {
            Err(ErrorKind::InvalidArgs)
        } else {
            Ok(plain_selector_spec(sheets, sel))
        },
    }
}

fn after_either_exec(sel: &Vec<char>, a: &str, b: &str) -> (r: Option<Vec<char>>)
    ensures
        r is Some <==> after_either(sel@, a@, b@) is Some,
        r is Some ==> r.unwrap()@ == after_either(sel@, a@, b@).unwrap(),
{
    match vec_strip_prefix(sel, a) {
        Some(r) => Some(r),
        None => vec_strip_prefix(sel, b),
    }
}

fn plain_selector(sheets: &Vec<WorkbookSheet>, sel: &Vec<char>) -> (r: Option<usize>)
    ensures
        r is Some ==> r.unwrap() as int == plain_selector_spec(sheets@, sel@),
        r is None ==> plain_selector_spec(sheets@, sel@) == -1,
{
    proof {
        lemma_first_sheet_from(sheets@, with_name(sel@), 0);
    }
    let mut by_id: Option<usize> = None;
    match vec_strip_prefix(sel, "sheetId:") {
        Some(r) => {
            match parse_u32_chars(&r, 0, r.len()) {
                Some(id) => {
                    proof { assert(r@.subrange(0, r@.len() as int) =~= r@); }
                    by_id = find_sheet_id(sheets, id);
                },
                None => {
                    proof { assert(r@.subrange(0, r@.len() as int) =~= r@); }
                },
            }
        },
        None => {},
    }
    if by_id.is_some() {
        return by_id;
    }
    let mut by_pos: Option<usize> = None;
    match after_either_exec(sel, "sheet:", "#") {
        Some(r) => {
            proof { assert(r@.subrange(0, r@.len() as int) =~= r@); }
            match parse_u32_chars(&r, 0, r.len()) {
                Some(p) => {
                    by_pos = find_position(sheets, p);
                },
                None => {},
            }
        },
        None => {},
    }
    if by_pos.is_some() {
        return by_pos;
    }
    let mut by_nm: Option<usize> = None;
    match after_either_exec(sel, "name:", "~") {
        Some(r) => {
            by_nm = find_name(sheets, &r);
        },
        None => {},
    }
    if by_nm.is_some() {
        return by_nm;
    }
    let mut by_rel: Option<usize> = None;
    match after_either_exec(sel, "rId:", "rid:") {
        Some(r) => {
            by_rel = find_rel_id(sheets, &r);
        },
        None => {},
    }
    if by_rel.is_some() {
        return by_rel;
    }
    proof { assert(sel@.subrange(0, sel@.len() as int) =~= sel@); }
    match parse_u32_chars(sel, 0, sel.len()) {
        Some(p) => {
            let q = find_position(sheets, p);
            if q.is_some() {
                return q;
            }
        },
        None => {},
    }
    find_name(sheets, sel)
}

/// `resolve_sheet`: the sheet a selector names. A sheet handle must name
/// exactly one sheet; otherwise the selector forms `sheetId:<n>`,
/// `sheet:<n>`/`#<n>`, `name:<s>`/`~<s>`, `rId:<s>`/`rid:<s>`, a bare
/// position and a bare name are tried in that order.
pub fn resolve_sheet(sheets: &Vec<WorkbookSheet>, selector: &str) -> (r: CliResult<WorkbookSheet>)
    ensures
        r is Ok <==> resolve_sheet_spec(sheets@, selector@) is Ok,
        r is Ok ==> {
            let i = resolve_sheet_spec(sheets@, selector@)->Ok_0;
            0 <= i < sheets@.len() && sheet_view(r->Ok_0) == sheet_view(sheets@[i])
        },
        r is Err ==> resolve_sheet_spec(sheets@, selector@) == Err::<int, ErrorKind>(r->Err_0.kind),
        sheet_handle_spec(selector@) is Err ==> r is Err && r->Err_0.message@ == sheet_handle_spec(selector@)->Err_0,
        (sheet_handle_spec(selector@) is Ok && sheet_handle_spec(selector@)->Ok_0 is Some && r is Err) ==> r->Err_0.message@
            == sheet_id_error(sheets@, sheet_handle_spec(selector@)->Ok_0->Some_0, selector@),
{
    match parse_xlsx_sheet_handle(selector) {
        Err(e) => {
            return Err(e);
        },
        Ok(Some(id)) => {
            return resolve_sheet_by_sheet_id_unique(sheets, id, selector);
        },
        Ok(None) => {},
    }
    let sel = str_chars(selector);
    match plain_selector(sheets, &sel) {
        Some(i) => {
            proof {
                lemma_plain_selector_bounds(sheets@, sel@);
            }
            Ok(sheets[i].clone_sheet())
        },
        None => Err(CliError::invalid_args(concat2("sheet not found: ", selector))),
    }
}

/// A selector that finds a sheet finds one within the list.
pub proof fn lemma_plain_selector_bounds(sheets: Seq<WorkbookSheet>, sel: Seq<char>)
    ensures
        plain_selector_spec(sheets, sel) == -1 || 0 <= plain_selector_spec(sheets, sel) < sheets.len(),
{
    lemma_first_sheet_from(sheets, with_name(sel), 0);
    match strip_prefix_spec(sel, "sheetId:"@) {
        Some(r) => match parse_u32_spec(r) {
            Some(id) => lemma_first_sheet_from(sheets, with_sheet_id(id), 0),
            None => {},
        },
        None => {},
    }
    match after_either(sel, "sheet:"@, "#"@) {
        Some(r) => match parse_u32_spec(r) {
            Some(p) => lemma_first_sheet_from(sheets, with_position(p), 0),
            None => {},
        },
        None => {},
    }
    match after_either(sel, "name:"@, "~"@) {
        Some(r) => lemma_first_sheet_from(sheets, with_name(r), 0),
        None => {},
    }
    match after_either(sel, "rId:"@, "rid:"@) {
        Some(r) => lemma_first_sheet_from(sheets, with_rel_id(r), 0),
        None => {},
    }
    match parse_u32_spec(sel) {
        Some(p) => lemma_first_sheet_from(sheets, with_position(p), 0),
        None => {},
    }
}


// ---------------------------------------------------------------------------
// The worksheet part of a selected sheet
// ---------------------------------------------------------------------------

/// The sheet a selector chooses and its part, through the workbook's
/// relationships (`rels`: target by relationship id).
pub open spec fn sheet_part_spec(sheets: Seq<WorkbookSheet>, sel: Seq<char>, rels: crate::attrmap::Entries) -> Result<(int, Seq<char>), ErrorKind> {
    match resolve_sheet_spec(sheets, sel) {
        Err(e) => Err(e),
        Ok(i) => match crate::attrmap::map_get(rels, sheets[i].rel_id@) {
            None => Err(ErrorKind::Unexpected),
            Some(t) => Ok((i, xl_target_spec(t))),
        },
    }
}

fn part_of_sheet(sheet: &WorkbookSheet, rels: &crate::attrmap::AttrMap) -> (r: CliResult<String>)
    ensures
        r is Ok <==> crate::attrmap::map_get(rels.view(), sheet.rel_id@) is Some,
        r is Ok ==> r->Ok_0@ == xl_target_spec(crate::attrmap::map_get(rels.view(), sheet.rel_id@).unwrap()),
        r is Err ==> r->Err_0.kind == ErrorKind::Unexpected,
{
    match rels.get(sheet.rel_id.as_str()) {
        None => Err(CliError::unexpected(concat2("missing relationship ", sheet.rel_id.as_str()))),
        Some(t) => Ok(normalize_xl_target(t.as_str())),
    }
}

/// `resolve_xlsx_sheet_context`: the sheet a selector names and its part.
pub fn resolve_xlsx_sheet_context(sheets: &Vec<WorkbookSheet>, sheet_selector: &str, rels: &crate::attrmap::AttrMap) -> (r: CliResult<(WorkbookSheet, String)>)
    ensures
        r is Ok <==> sheet_part_spec(sheets@, sheet_selector@, rels.view()) is Ok,
        r is Ok ==> {
            let p = sheet_part_spec(sheets@, sheet_selector@, rels.view())->Ok_0;
            0 <= p.0 < sheets@.len() && sheet_view(r->Ok_0.0) == sheet_view(sheets@[p.0]) && r->Ok_0.1@ == p.1
        },
        r is Err ==> sheet_part_spec(sheets@, sheet_selector@, rels.view()) == Err::<(int, Seq<char>), ErrorKind>(r->Err_0.kind),
{
    let sheet = resolve_sheet(sheets, sheet_selector)?;
    let part = part_of_sheet(&sheet, rels)?;
    Ok((sheet, part))
}

/// `resolve_hyperlink_sheet`: the sheet a selector names (the first sheet by
/// default) and its part.
pub fn resolve_hyperlink_sheet(sheets: &Vec<WorkbookSheet>, sheet_selector: Option<&str>, rels: &crate::attrmap::AttrMap) -> (r: CliResult<(WorkbookSheet, String)>)
    ensures
        ({
            let sel = match sheet_selector {
                Some(s) => s@,
                None => "1"@,
            };
            &&& r is Ok <==> sheet_part_spec(sheets@, sel, rels.view()) is Ok
            &&& r is Ok ==> {
                let p = sheet_part_spec(sheets@, sel, rels.view())->Ok_0;
                0 <= p.0 < sheets@.len() && sheet_view(r->Ok_0.0) == sheet_view(sheets@[p.0]) && r->Ok_0.1@ == p.1
            }
            &&& r is Err ==> sheet_part_spec(sheets@, sel, rels.view()) == Err::<(int, Seq<char>), ErrorKind>(r->Err_0.kind)
        }),
{
    let sel = match sheet_selector {
        Some(s) => s,
        None => "1",
    };
    resolve_xlsx_sheet_context(sheets, sel, rels)
}

/// The sheet a freeze command works on (the first sheet for a blank
/// selector) and its part, which must be a worksheet.
pub open spec fn freeze_sheet_spec(sheets: Seq<WorkbookSheet>, selector: Option<Seq<char>>, rels: crate::attrmap::Entries) -> Result<(int, Seq<char>), ErrorKind> {
    if sheets.len() == 0 {
        Err(ErrorKind::InvalidArgs)
    } else {
        let sel = trim(match selector {
            Some(s) => s,
            None => Seq::empty(),
        });
        let found = if sel.len() == 0 {
            Ok(0int)
        } else {
            resolve_sheet_spec(sheets, sel)
        };
        match found {
            Err(e) => Err(e),
            Ok(i) => match crate::attrmap::map_get(rels, sheets[i].rel_id@) {
                None => Err(ErrorKind::Unexpected),
                Some(t) => if has_prefix(xl_target_spec(t), "xl/worksheets/"@) {
                    Ok((i, xl_target_spec(t)))
                } else {
                    Err(ErrorKind::InvalidArgs)
                },
            },
        }
    }
}

/// `resolve_freeze_sheet`: the sheet a freeze command works on and its
/// worksheet part.
pub fn resolve_freeze_sheet(sheets: &Vec<WorkbookSheet>, sheet_selector: Option<&str>, rels: &crate::attrmap::AttrMap) -> (r: CliResult<(WorkbookSheet, String)>)
    ensures
        ({
            let sel = match sheet_selector {
                Some(s) => Some(s@),
                None => None,
            };
            &&& r is Ok <==> freeze_sheet_spec(sheets@, sel, rels.view()) is Ok
            &&& r is Ok ==> {
                let p = freeze_sheet_spec(sheets@, sel, rels.view())->Ok_0;
                0 <= p.0 < sheets@.len() && sheet_view(r->Ok_0.0) == sheet_view(sheets@[p.0]) && r->Ok_0.1@ == p.1
            }
            &&& r is Err ==> freeze_sheet_spec(sheets@, sel, rels.view()) == Err::<(int, Seq<char>), ErrorKind>(r->Err_0.kind)
        }),
{
    if sheets.len() == 0 {
        return Err(CliError::invalid_args(to_string("workbook has no sheets")));
    }
    let sel = match sheet_selector {
        Some(s) => trim_string(s),
        None => {
            let e = String::new();
            proof {
                assert(e@ =~= trim(Seq::<char>::empty()));
            }
            e
        },
    };
    let sheet = if sel.unicode_len() == 0 {
        sheets[0].clone_sheet()
    } else {
        resolve_sheet(sheets, sel.as_str())?
    };
    let part = part_of_sheet(&sheet, rels)?;
    let pv = str_chars(part.as_str());
    let ws = str_chars("xl/worksheets/");
    if !crate::text::vec_starts_with(&pv, &ws) {
        let q = debug_quoted(sheet.name.as_str());
        return Err(CliError::invalid_args(concat3("sheet ", q.as_str(), " is not a worksheet")));
    }
    Ok((sheet, part))
}

} // verus!
