//! Adding, renaming, moving and deleting sheets: the checks on a new sheet
//! name, where a moved sheet goes, how sheet positions are renumbered, and
//! the new sheet's identifiers.
use vstd::prelude::*;
use crate::error::{CliError, CliResult, ErrorKind};
use crate::sheets::WorkbookSheet;
use crate::text::{
    ascii_lower_seq, concat2, concat3, has_prefix, is_white_space, str_chars, str_eq, str_eq_ignore_ascii_case,
    string_from_chars, strip_all_prefix, to_string, trim, trim_chars,
};
use crate::sheets::{resolve_sheet, resolve_sheet_spec};
use crate::xml::rfind_seq;

verus! {

// ---------------------------------------------------------------------------
// Sheet names
// ---------------------------------------------------------------------------

/// The characters a sheet name cannot hold.
pub open spec fn bad_sheet_char(c: char) -> bool {
    c == '[' || c == ']' || c == ':' || c == '*' || c == '?' || c == '/' || c == '\\'
}

pub open spec fn same_name_ic(a: Seq<char>, b: Seq<char>) -> bool {
    ascii_lower_seq(a) == ascii_lower_seq(b)
}

/// Whether a sheet other than the one being renamed (`current`, when not
/// empty) already has the name, ignoring ASCII case.
pub open spec fn name_taken(name: Seq<char>, existing: Seq<WorkbookSheet>, current: Seq<char>) -> bool {
    exists|i: int|
        0 <= i < existing.len() && !(current.len() > 0 && same_name_ic((#[trigger] existing[i]).name@, current))
            && same_name_ic(existing[i].name@, name)
}

/// Whether a sheet name is refused: blank, over 31 characters, the reserved
/// `History`, starting or ending with an apostrophe, holding a character
/// Excel forbids, or taken.
pub open spec fn sheet_name_refused(name: Seq<char>, existing: Seq<WorkbookSheet>, current: Seq<char>) -> bool {
    ||| trim(name).len() == 0
    ||| name.len() > 31
    ||| same_name_ic(name, "History"@)
    ||| name.len() > 0 && (name[0] == '\'' || name[name.len() - 1] == '\'')
    ||| exists|i: int| 0 <= i < name.len() && bad_sheet_char(#[trigger] name[i])
    ||| name_taken(name, existing, current)
}

/// `validate_new_sheet_name`: refuses a name a sheet cannot take.
pub fn validate_new_sheet_name(name: &str, existing: &Vec<WorkbookSheet>, current_name: &str) -> (r: CliResult<()>)
    ensures
        r is Ok <==> !sheet_name_refused(name@, existing@, current_name@),
        r is Err ==> r->Err_0.kind == ErrorKind::InvalidArgs,
{
    if trim_chars(name).len() == 0 {
        return Err(CliError::invalid_args(to_string("sheet name cannot be empty")));
    }
    let v = str_chars(name);
    if v.len() > 31 {
        return Err(CliError::invalid_args(concat3("sheet name \"", name, "\" exceeds Excel's 31-character limit")));
    }
    if str_eq_ignore_ascii_case(name, "History") {
        return Err(CliError::invalid_args(concat3("sheet name \"", name, "\" is reserved by Excel")));
    }
    if v.len() > 0 && (v[0] == '\'' || v[v.len() - 1] == '\'') {
        return Err(CliError::invalid_args(to_string("sheet name cannot begin or end with apostrophe")));
    }
    let mut i: usize = 0;
    while i < v.len()
        invariant
            0 <= i <= v.len(),
            v@ == name@,
            forall|j: int| 0 <= j < i ==> !bad_sheet_char(#[trigger] v@[j]),
        decreases v.len() - i,
    {
        let c = v[i];
        if c == '[' || c == ']' || c == ':' || c == '*' || c == '?' || c == '/' || c == '\\' {
            proof {
                assert(bad_sheet_char(v@[i as int]));
            }
            return Err(CliError::invalid_args(concat3("sheet name \"", name, "\" contains invalid Excel sheet-name characters")));
        }
        i = i + 1;
    }
    let has_current = str_chars(current_name).len() > 0;
    let mut k: usize = 0;
    while k < existing.len()
        invariant
            0 <= k <= existing.len(),
            has_current == (current_name@.len() > 0),
            forall|j: int|
                0 <= j < k ==> !(!(has_current && same_name_ic((#[trigger] existing@[j]).name@, current_name@))
                    && same_name_ic(existing@[j].name@, name@)),
        decreases existing.len() - k,
    {
        let s = &existing[k];
        if !(has_current && str_eq_ignore_ascii_case(s.name.as_str(), current_name)) {
            if str_eq_ignore_ascii_case(s.name.as_str(), name) {
                return Err(CliError::invalid_args(concat3("sheet name \"", name, "\" already exists")));
            }
        }
        k = k + 1;
    }
    Ok(())
}

/// Whether a sheet is visible (no state, or `visible`).
pub open spec fn sheet_visible(s: WorkbookSheet) -> bool {
    s.state@.len() == 0 || s.state@ == "visible"@
}

/// The number of visible sheets among the first `n`.
pub open spec fn visible_count(sheets: Seq<WorkbookSheet>, n: int) -> nat
    decreases n,
{
    if n <= 0 || n > sheets.len() {
        0
    } else {
        visible_count(sheets, n - 1) + if sheet_visible(sheets[n - 1]) { 1nat } else { 0nat }
    }
}

/// `visible_sheet_count`.
pub fn visible_sheet_count(sheets: &Vec<WorkbookSheet>) -> (r: usize)
    ensures
        r == visible_count(sheets@, sheets@.len() as int),
{
    let mut n: usize = 0;
    let mut i: usize = 0;
    while i < sheets.len()
        invariant
            0 <= i <= sheets.len(),
            n == visible_count(sheets@, i as int),
            n <= i,
        decreases sheets.len() - i,
    {
        let st = &sheets[i].state;
        if str_chars(st.as_str()).len() == 0 || str_eq(st.as_str(), "visible") {
            n = n + 1;
        }
        i = i + 1;
    }
    n
}

// ---------------------------------------------------------------------------
// Positions
// ---------------------------------------------------------------------------

/// `inserted_sheet_number`: the 1-based number a new sheet gets when added
/// after position `after_position` (0, or past the end, appends).
pub fn inserted_sheet_number(existing_count: usize, after_position: usize) -> (r: usize)
    requires
        existing_count < usize::MAX,
    ensures
        r == (if existing_count == 0 {
            1
        } else if after_position == 0 || after_position >= existing_count {
            existing_count + 1
        } else {
            after_position + 1
        }),
{
    if existing_count == 0 {
        1
    } else if after_position == 0 || after_position >= existing_count {
        existing_count + 1
    } else {
        after_position + 1
    }
}

/// The new 0-based position of the sheet at position `j` when the sheet at
/// `old` moves to `new` (clamped to the last position).
pub open spec fn moved_position(count: int, old: int, new: int, j: int) -> int {
    let dest = if new >= count - 1 { count - 1 } else { new };
    if j == old {
        dest
    } else {
        let p = if j > old { j - 1 } else { j };
        if p >= dest { p + 1 } else { p }
    }
}

/// The sheets in their new order: the old position of the sheet at each new
/// position.
pub open spec fn move_order(count: int, old: int, new: int, p: int) -> int {
    let dest = if new >= count - 1 { count - 1 } else { new };
    if p == dest {
        old
    } else {
        let b = if p > dest { p - 1 } else { p };
        if b >= old { b + 1 } else { b }
    }
}

proof fn lemma_move_order(count: int, old: int, new: int, p: int)
    requires
        0 <= old < count,
        0 <= new,
        0 <= p < count,
    ensures
        0 <= move_order(count, old, new, p) < count,
        moved_position(count, old, new, move_order(count, old, new, p)) == p,
{
}

proof fn lemma_move_order_injective(count: int, old: int, new: int, p: int, q: int)
    requires
        0 <= old < count,
        0 <= new,
        0 <= p < count,
        0 <= q < count,
        p != q,
    ensures
        move_order(count, old, new, p) != move_order(count, old, new, q),
{
    lemma_move_order(count, old, new, p);
    lemma_move_order(count, old, new, q);
}

/// `move_sheet_position_remap`: for each old position, the new position of
/// its sheet after the sheet at `old_index` moves to `new_index`.
pub fn move_sheet_position_remap(count: usize, old_index: usize, new_index: usize) -> (r: Vec<i32>)
    requires
        old_index < count,
        count <= i32::MAX,
    ensures
        r@.len() == count,
        forall|j: int| 0 <= j < count ==> r@[j] == moved_position(count as int, old_index as int, new_index as int, j),
{
    let mut order: Vec<usize> = Vec::new();
    let mut i: usize = 0;
    while i < count
        invariant
            0 <= i <= count,
            old_index < count,
            order@.len() == if i > old_index { i - 1 } else { i as int },
            forall|k: int| 0 <= k < order@.len() ==> order@[k] == (if k >= old_index { k + 1 } else { k }),
        decreases count - i,
    {
        if i != old_index {
            order.push(i);
        }
        i = i + 1;
    }
    if new_index >= order.len() {
        order.push(old_index);
    } else {
        order.insert(new_index, old_index);
    }
    proof {
        assert forall|p: int| 0 <= p < count implies order@[p] == move_order(count as int, old_index as int, new_index as int, p) by {}
    }
    let mut remap: Vec<i32> = Vec::new();
    let mut z: usize = 0;
    while z < count
        invariant
            0 <= z <= count,
            remap@.len() == z,
            forall|k: int| 0 <= k < z ==> remap@[k] == 0,
        decreases count - z,
    {
        remap.push(0);
        z = z + 1;
    }
    let mut p: usize = 0;
    while p < count
        invariant
            0 <= p <= count,
            count <= i32::MAX,
            old_index < count,
            order@.len() == count,
            remap@.len() == count,
            forall|q: int| 0 <= q < count ==> order@[q] == move_order(count as int, old_index as int, new_index as int, q),
            forall|q: int| 0 <= q < p ==> remap@[order@[q] as int] == q,
        decreases count - p,
    {
        proof {
            lemma_move_order(count as int, old_index as int, new_index as int, p as int);
            assert forall|q: int| 0 <= q < p implies order@[q] != order@[p as int] by {
                lemma_move_order_injective(count as int, old_index as int, new_index as int, q, p as int);
            }
        }
        remap.set(order[p], p as i32);
        p = p + 1;
    }
    proof {
        assert forall|j: int| 0 <= j < count implies remap@[j] == moved_position(count as int, old_index as int, new_index as int, j) by {
            let q = moved_position(count as int, old_index as int, new_index as int, j);
            assert(0 <= q < count);
            assert(move_order(count as int, old_index as int, new_index as int, q) == j);
            assert(order@[q] == j);
            assert(remap@[order@[q] as int] == q);
        }
    }
    remap
}

/// Moving a sheet and moving it back restores every position.
pub proof fn lemma_move_then_move_back(count: int, old: int, new: int, j: int)
    requires
        0 <= old < count,
        0 <= new,
        0 <= j < count,
    ensures
        moved_position(count, if new >= count - 1 { count - 1 } else { new }, old, moved_position(count, old, new, j)) == j,
{
}

/// `delete_sheet_position_remap`: for each old position, its new position
/// after the sheet at `deleted_index` is deleted (-1 for that sheet).
pub fn delete_sheet_position_remap(count: usize, deleted_index: usize) -> (r: Vec<i32>)
    requires
        count <= i32::MAX,
    ensures
        r@.len() == count,
        forall|j: int| 0 <= j < count ==> r@[j] == (if j == deleted_index { -1 } else if j < deleted_index { j } else { j - 1 }),
{
    let mut out: Vec<i32> = Vec::new();
    let mut i: usize = 0;
    while i < count
        invariant
            0 <= i <= count,
            count <= i32::MAX,
            out@.len() == i,
            forall|j: int| 0 <= j < i ==> out@[j] == (if j == deleted_index { -1 } else if j < deleted_index { j } else { j - 1 }),
        decreases count - i,
    {
        let v: i32 = if i == deleted_index {
            -1
        } else if i < deleted_index {
            i as i32
        } else {
            (i - 1) as i32
        };
        out.push(v);
        i = i + 1;
    }
    out
}

/// The first non-negative entry from `i` on.
pub open spec fn first_kept_from(remap: Seq<i32>, i: int) -> Option<i32>
    decreases remap.len() - i,
{
    if i < 0 || i >= remap.len() {
        None
    } else if remap[i] >= 0 {
        Some(remap[i])
    } else {
        first_kept_from(remap, i + 1)
    }
}

/// The last non-negative entry before `i`.
pub open spec fn last_kept_before(remap: Seq<i32>, i: int) -> Option<i32>
    decreases i,
{
    if i <= 0 || i > remap.len() {
        None
    } else if remap[i - 1] >= 0 {
        Some(remap[i - 1])
    } else {
        last_kept_before(remap, i - 1)
    }
}

/// Where a workbook view's sheet index goes: its sheet's new position, else
/// the next kept sheet's, else the previous kept sheet's, else 0 (a negative
/// index, or an empty map, gives 0).
pub open spec fn view_index_spec(value: i32, remap: Seq<i32>) -> i32 {
    if remap.len() == 0 || value < 0 {
        0
    } else {
        let v = if value as int >= remap.len() { remap.len() - 1 } else { value as int };
        match first_kept_from(remap, v) {
            Some(m) => m,
            None => match last_kept_before(remap, v) {
                Some(m) => m,
                None => 0,
            },
        }
    }
}

/// `remap_workbook_view_index`.
pub fn remap_workbook_view_index(value: i32, remap: &Vec<i32>) -> (r: i32)
    ensures
        r == view_index_spec(value, remap@),
{
    if remap.len() == 0 || value < 0 {
        return 0;
    }
    let v: usize = if value as usize >= remap.len() { remap.len() - 1 } else { value as usize };
    let mut i = v;
    while i < remap.len()
        invariant
            v <= i <= remap.len(),
            remap@.len() > 0,
            value >= 0,
            v as int == (if value as int >= remap@.len() { remap@.len() - 1 } else { value as int }),
            first_kept_from(remap@, v as int) == first_kept_from(remap@, i as int),
        decreases remap.len() - i,
    {
        if remap[i] >= 0 {
            return remap[i];
        }
        i = i + 1;
    }
    let mut k = v;
    while k > 0
        invariant
            0 <= k <= v < remap.len(),
            value >= 0,
            v as int == (if value as int >= remap@.len() { remap@.len() - 1 } else { value as int }),
            first_kept_from(remap@, v as int) is None,
            last_kept_before(remap@, v as int) == last_kept_before(remap@, k as int),
        decreases k,
    {
        if remap[k - 1] >= 0 {
            return remap[k - 1];
        }
        k = k - 1;
    }
    0
}

/// After a deletion from two or more sheets, a workbook view's sheet index
/// always lands on a remaining sheet.
pub proof fn lemma_view_index_after_delete(count: int, deleted: int, value: i32, remap: Seq<i32>)
    requires
        2 <= count,
        0 <= deleted < count,
        remap.len() == count,
        forall|j: int| 0 <= j < count ==> remap[j] == (if j == deleted { -1 } else if j < deleted { j } else { j - 1 }),
    ensures
        0 <= view_index_spec(value, remap) < count - 1,
{
    if value >= 0 {
        let v = if value as int >= remap.len() { remap.len() - 1 } else { value as int };
        lemma_first_kept_bounds(remap, v, count, deleted);
        lemma_last_kept_bounds(remap, v, count, deleted);
    }
}

proof fn lemma_first_kept_bounds(remap: Seq<i32>, i: int, count: int, deleted: int)
    requires
        2 <= count,
        0 <= deleted < count,
        remap.len() == count,
        0 <= i,
        forall|j: int| 0 <= j < count ==> remap[j] == (if j == deleted { -1 } else if j < deleted { j } else { j - 1 }),
    ensures
        first_kept_from(remap, i) is Some ==> 0 <= first_kept_from(remap, i)->0 < count - 1,
        first_kept_from(remap, i) is None ==> i >= count - 1,
    decreases remap.len() - i,
{
    if i < remap.len() && remap[i] < 0 {
        lemma_first_kept_bounds(remap, i + 1, count, deleted);
    }
}

proof fn lemma_last_kept_bounds(remap: Seq<i32>, i: int, count: int, deleted: int)
    requires
        2 <= count,
        0 <= deleted < count,
        remap.len() == count,
        i <= count,
        forall|j: int| 0 <= j < count ==> remap[j] == (if j == deleted { -1 } else if j < deleted { j } else { j - 1 }),
    ensures
        last_kept_before(remap, i) is Some ==> 0 <= last_kept_before(remap, i)->0 < count - 1,
        i >= 2 ==> last_kept_before(remap, i) is Some,
    decreases i,
{
    if i > 0 && remap[i - 1] < 0 {
        lemma_last_kept_bounds(remap, i - 1, count, deleted);
    }
}

// ---------------------------------------------------------------------------
// Moving a sheet
// ---------------------------------------------------------------------------

pub open spec fn given(o: Option<&str>) -> bool {
    o is Some && o.unwrap()@.len() > 0
}

/// The rank of sheet `target` among the sheets other than `moving`, reading
/// from sheet `i` with `k` others before it.
pub open spec fn rank_among_others(sheets: Seq<WorkbookSheet>, moving: Seq<char>, target: Seq<char>, i: int, k: int) -> Option<int>
    decreases sheets.len() - i,
{
    if i < 0 || i >= sheets.len() {
        None
    } else if sheets[i].rel_id@ == moving {
        rank_among_others(sheets, moving, target, i + 1, k)
    } else if sheets[i].rel_id@ == target {
        Some(k)
    } else {
        rank_among_others(sheets, moving, target, i + 1, k + 1)
    }
}

/// Where a moved sheet goes (1-based): the `--to` position, or just before
/// or after the sheet `--before` or `--after` names, counted among the other
/// sheets; exactly one of the three must be given.
pub open spec fn move_target_spec(
    sheets: Seq<WorkbookSheet>,
    moving: WorkbookSheet,
    to: Option<i64>,
    to_present: bool,
    before: Option<&str>,
    after: Option<&str>,
) -> Result<int, ErrorKind> {
    let selected = (if to_present { 1int } else { 0int }) + (if given(before) { 1int } else { 0int }) + (if given(after) { 1int } else { 0int });
    if selected != 1 {
        Err(ErrorKind::InvalidArgs)
    } else if to_present {
        let t: i64 = match to {
            Some(x) => x,
            None => 0,
        };
        if t < 1 || t > sheets.len() {
            Err(ErrorKind::InvalidArgs)
        } else {
            Ok(t as int)
        }
    } else {
        let sel = if given(after) { after.unwrap()@ } else { match before { Some(b) => b@, None => Seq::empty() } };
        match resolve_sheet_spec(sheets, sel) {
            Err(k) => Err(k),
            Ok(ti) => {
                let target = sheets[ti];
                if target.rel_id@ == moving.rel_id@ {
                    Ok(moving.position as int)
                } else {
                    match rank_among_others(sheets, moving.rel_id@, target.rel_id@, 0, 0) {
                        None => Err(ErrorKind::InvalidArgs),
                        Some(k) => Ok(if given(after) { k + 2 } else { k + 1 }),
                    }
                }
            },
        }
    }
}

fn is_given(o: Option<&str>) -> (r: bool)
    ensures
        r == given(o),
{
    match o {
        Some(v) => str_chars(v).len() > 0,
        None => false,
    }
}

/// `resolve_move_target_position`: the 1-based position a moved sheet goes to.
pub fn resolve_move_target_position(
    sheets: &Vec<WorkbookSheet>,
    moving: &WorkbookSheet,
    to: Option<i64>,
    to_present: bool,
    before: Option<&str>,
    after: Option<&str>,
) -> (r: CliResult<usize>)
    requires
        sheets@.len() < usize::MAX,
    ensures
        r is Ok <==> move_target_spec(sheets@, *moving, to, to_present, before, after) is Ok,
        r is Ok ==> r->Ok_0 as int == move_target_spec(sheets@, *moving, to, to_present, before, after)->Ok_0,
        r is Err ==> move_target_spec(sheets@, *moving, to, to_present, before, after) == Err::<int, ErrorKind>(r->Err_0.kind),
{
    let has_before = is_given(before);
    let has_after = is_given(after);
    let selected: usize = (if to_present { 1 } else { 0 }) + (if has_before { 1 } else { 0 }) + (if has_after { 1 } else { 0 });
    if selected != 1 {
        return Err(CliError::invalid_args(to_string("must specify exactly one of --to, --before, or --after")));
    }
    if to_present {
        let t: i64 = match to {
            Some(x) => x,
            None => 0,
        };
        if t < 1 || (t as u64) > (sheets.len() as u64) {
            return Err(CliError::invalid_args(concat2("--to must be between 1 and ", crate::text::u64_to_string(sheets.len() as u64).as_str())));
        }
        return Ok(t as usize);
    }
    let sel: &str = if has_after {
        match after {
            Some(a) => a,
            None => "",
        }
    } else {
        match before {
            Some(b) => b,
            None => "",
        }
    };
    proof {
        reveal_strlit("");
    }
    let target = resolve_sheet(sheets, sel)?;
    if str_eq(target.rel_id.as_str(), moving.rel_id.as_str()) {
        return Ok(moving.position as usize);
    }
    let ghost expected = move_target_spec(sheets@, *moving, to, to_present, before, after);
    proof {
        let ti = resolve_sheet_spec(sheets@, sel@)->Ok_0;
        assert(sel@ == (if given(after) { after.unwrap()@ } else { match before { Some(b) => b@, None => Seq::empty() } }));
        assert(sheets@[ti].rel_id@ == target.rel_id@);
        assert(expected == match rank_among_others(sheets@, moving.rel_id@, target.rel_id@, 0, 0) {
            None => Err(ErrorKind::InvalidArgs),
            Some(k) => Ok(if has_after { k + 2 } else { k + 1 }),
        });
    }
    let mut k: usize = 0;
    let mut i: usize = 0;
    while i < sheets.len()
        invariant
            0 <= i <= sheets.len(),
            k <= i,
            sheets@.len() < usize::MAX,
            expected == move_target_spec(sheets@, *moving, to, to_present, before, after),
            expected == match rank_among_others(sheets@, moving.rel_id@, target.rel_id@, 0, 0) {
                None => Err(ErrorKind::InvalidArgs),
                Some(k) => Ok(if has_after { k + 2 } else { k + 1 }),
            },
            rank_among_others(sheets@, moving.rel_id@, target.rel_id@, 0, 0) == rank_among_others(
                sheets@,
                moving.rel_id@,
                target.rel_id@,
                i as int,
                k as int,
            ),
        decreases sheets.len() - i,
    {
        if str_eq(sheets[i].rel_id.as_str(), moving.rel_id.as_str()) {
        } else if str_eq(sheets[i].rel_id.as_str(), target.rel_id.as_str()) {
            return Ok(if has_after { k + 2 } else { k + 1 });
        } else {
            k = k + 1;
        }
        i = i + 1;
    }
    Err(CliError::invalid_args(concat2("sheet not found: ", sel)))
}

// ---------------------------------------------------------------------------
// New sheets
// ---------------------------------------------------------------------------

/// `qualified_name`: `prefix:local`, or `local` without a (non-empty) prefix.
pub fn qualified_name(prefix: Option<&str>, local: &str) -> (r: String)
    ensures
        r@ == (if given(prefix) { prefix.unwrap()@ + ":"@ + local@ } else { local@ }),
{
    match prefix {
        Some(p) => {
            if str_chars(p).len() > 0 {
                concat3(p, ":", local)
            } else {
                to_string(local)
            }
        },
        None => to_string(local),
    }
}

/// The worksheet a new sheet starts as.
pub open spec fn new_worksheet_spec(prefix: Option<&str>) -> Seq<char> {
    if given(prefix) {
        let p = prefix.unwrap()@;
        "<?xml version=\"1.0\" encoding=\"UTF-8\"?><"@ + p + ":worksheet xmlns:"@ + p
            + "=\"http://schemas.openxmlformats.org/spreadsheetml/2006/main\"><"@ + p + ":sheetData/></"@ + p + ":worksheet>"@
    } else {
        "<?xml version=\"1.0\" encoding=\"UTF-8\"?><worksheet xmlns=\"http://schemas.openxmlformats.org/spreadsheetml/2006/main\"><sheetData/></worksheet>"@
    }
}

/// `new_worksheet_xml`: an empty worksheet, with the workbook's prefix.
pub fn new_worksheet_xml(prefix: Option<&str>) -> (r: String)
    ensures
        r@ == new_worksheet_spec(prefix),
{
    match prefix {
        Some(p) => {
            if str_chars(p).len() > 0 {
                let a = crate::text::concat5("<?xml version=\"1.0\" encoding=\"UTF-8\"?><", p, ":worksheet xmlns:", p, "=\"http://schemas.openxmlformats.org/spreadsheetml/2006/main\"><");
                let b = crate::text::concat5(a.as_str(), p, ":sheetData/></", p, ":worksheet>");
                proof {
                    assert(b@ =~= new_worksheet_spec(prefix));
                }
                return b;
            }
        },
        None => {},
    }
    to_string("<?xml version=\"1.0\" encoding=\"UTF-8\"?><worksheet xmlns=\"http://schemas.openxmlformats.org/spreadsheetml/2006/main\"><sheetData/></worksheet>")
}

/// The path of a part relative to the workbook part's folder (the part's
/// path without its leading `/` when it lies elsewhere).
pub open spec fn relationship_target_spec(workbook_part: Seq<char>, part_uri: Seq<char>) -> Seq<char> {
    let w = strip_all_prefix(workbook_part, seq!['/']);
    let c = rfind_seq(w, seq!['/']);
    let prefix = if c <= 0 { Seq::empty() } else { w.subrange(0, c) + seq!['/'] };
    let n = strip_all_prefix(part_uri, seq!['/']);
    if has_prefix(n, prefix) {
        n.subrange(prefix.len() as int, n.len() as int)
    } else {
        n
    }
}

fn vec_has_prefix(s: &Vec<char>, p: &Vec<char>) -> (r: bool)
    ensures
        r == has_prefix(s@, p@),
{
    if p.len() > s.len() {
        return false;
    }
    let mut i: usize = 0;
    while i < p.len()
        invariant
            0 <= i <= p.len() <= s.len(),
            forall|j: int| 0 <= j < i ==> s@[j] == p@[j],
        decreases p.len() - i,
    {
        if s[i] != p[i] {
            proof {
                assert(s@.subrange(0, p@.len() as int)[i as int] != p@[i as int]);
            }
            return false;
        }
        i = i + 1;
    }
    proof {
        assert(s@.subrange(0, p@.len() as int) =~= p@);
    }
    true
}

/// `relationship_target`: a part's path as the workbook's relationships
/// write it.
pub fn relationship_target(workbook_part: &str, part_uri: &str) -> (r: String)
    ensures
        r@ == relationship_target_spec(workbook_part@, part_uri@),
{
    proof {
        reveal_strlit("/");
    }
    let w = crate::text::str_strip_all_prefix(workbook_part, "/");
    let slash = str_chars("/");
    let prefix: Vec<char> = match crate::xml::vec_rfind(&w, &slash) {
        Some(c) => {
            proof {
                crate::xml::lemma_rfind_from(w@, slash@, w@.len() - slash@.len());
            }
            if c == 0 {
                Vec::new()
            } else {
                let mut d = crate::text::slice_vec(&w, 0, c);
                d.push('/');
                d
            }
        },
        None => Vec::new(),
    };
    proof {
        assert(slash@ == seq!['/']);
        let cc = rfind_seq(w@, seq!['/']);
        if cc <= 0 {
            assert(prefix@ =~= Seq::<char>::empty());
        } else {
            assert(prefix@ =~= w@.subrange(0, cc) + seq!['/']);
        }
    }
    let n = crate::text::str_strip_all_prefix(part_uri, "/");
    if vec_has_prefix(&n, &prefix) {
        let rest = crate::text::slice_vec(&n, prefix.len(), n.len());
        string_from_chars(rest.as_slice())
    } else {
        string_from_chars(n.as_slice())
    }
}

/// `element_name_from_fragment`: the qualified name a fragment's first tag
/// starts with, or the fallback.
pub open spec fn fragment_name_spec(fragment: Seq<char>, fallback: Seq<char>) -> Seq<char> {
    let t = fragment.subrange(crate::text::first_non_ws_from(fragment, 0), fragment.len() as int);
    if t.len() == 0 || t[0] != '<' {
        fallback
    } else {
        let rest = t.subrange(1, t.len() as int);
        let e = crate::style::tag_name_end(rest, 0);
        if e == 0 {
            fallback
        } else {
            rest.subrange(0, e)
        }
    }
}


/// `element_name_from_fragment`.
pub fn element_name_from_fragment(fragment: &str, fallback: &str) -> (r: String)
    ensures
        r@ == fragment_name_spec(fragment@, fallback@),
{
    let v = str_chars(fragment);
    let n = v.len();
    let mut i: usize = 0;
    while i < n && crate::text::char_is_white_space(v[i])
        invariant
            n == v@.len(),
            0 <= i <= n,
            crate::text::first_non_ws_from(v@, i as int) == crate::text::first_non_ws_from(v@, 0),
        decreases n - i,
    {
        i = i + 1;
    }
    let ghost t = v@.subrange(i as int, n as int);
    proof {
        assert(t == fragment@.subrange(crate::text::first_non_ws_from(fragment@, 0), fragment@.len() as int));
    }
    if i >= n || v[i] != '<' {
        return to_string(fallback);
    }
    let ghost rest = t.subrange(1, t.len() as int);
    let mut k: usize = i + 1;
    while k < n && !(crate::text::char_is_white_space(v[k]) || v[k] == '/' || v[k] == '>')
        invariant
            n == v@.len(),
            i + 1 <= k <= n,
            rest == v@.subrange(i + 1, n as int),
            crate::style::tag_name_end(rest, k - (i + 1)) == crate::style::tag_name_end(rest, 0),
        decreases n - k,
    {
        k = k + 1;
    }
    proof {
        assert(crate::style::tag_name_end(rest, k - (i + 1)) == k - (i + 1));
    }
    if k == i + 1 {
        return to_string(fallback);
    }
    let name = crate::text::slice_vec(&v, i + 1, k);
    proof {
        assert(name@ =~= rest.subrange(0, k - (i + 1)));
    }
    string_from_chars(name.as_slice())
}


pub open spec fn reps_view(v: Seq<(usize, usize, String)>) -> Seq<(int, int, Seq<char>)> {
    v.map_values(|r: (usize, usize, String)| (r.0 as int, r.1 as int, r.2@))
}

/// The text the first `n` replacements make of `xml` before the cursor
/// they leave (see `replaced_cursor`): the untouched text up to each start
/// (when the start lies past the cursor), then the replacement.
pub open spec fn replaced_prefix(xml: Seq<char>, reps: Seq<(int, int, Seq<char>)>, n: int) -> Seq<char>
    decreases n,
{
    if n <= 0 {
        Seq::empty()
    } else {
        let prev = replaced_prefix(xml, reps, n - 1);
        let cur = replaced_cursor(reps, n - 1);
        let r = reps[n - 1];
        prev + (if r.0 > cur { xml.subrange(cur, r.0) } else { Seq::empty() }) + r.2
    }
}

pub open spec fn replaced_cursor(reps: Seq<(int, int, Seq<char>)>, n: int) -> int {
    if n <= 0 {
        0
    } else {
        reps[n - 1].1
    }
}

/// `xml` with the replacements applied in order.
pub open spec fn apply_replacements_spec(xml: Seq<char>, reps: Seq<(int, int, Seq<char>)>) -> Seq<char> {
    if reps.len() == 0 {
        xml
    } else {
        replaced_prefix(xml, reps, reps.len() as int) + xml.subrange(replaced_cursor(reps, reps.len() as int), xml.len() as int)
    }
}

/// `apply_replacements`: each `(start, end, text)` puts `text` in place of
/// `xml[start..end]`, in order.
pub fn apply_replacements(xml: &str, replacements: &Vec<(usize, usize, String)>) -> (r: String)
    requires
        forall|i: int| 0 <= i < replacements@.len() ==> (#[trigger] replacements@[i]).0 <= xml@.len() && replacements@[i].1 <= xml@.len(),
    ensures
        r@ == apply_replacements_spec(xml@, reps_view(replacements@)),
{
    if replacements.len() == 0 {
        return to_string(xml);
    }
    let v = str_chars(xml);
    let ghost rv = reps_view(replacements@);
    let mut out: Vec<char> = Vec::new();
    let mut cursor: usize = 0;
    let mut i: usize = 0;
    while i < replacements.len()
        invariant
            0 <= i <= replacements.len(),
            v@ == xml@,
            rv == reps_view(replacements@),
            forall|j: int| 0 <= j < replacements@.len() ==> (#[trigger] replacements@[j]).0 <= xml@.len() && replacements@[j].1 <= xml@.len(),
            cursor as int == replaced_cursor(rv, i as int),
            cursor <= v@.len(),
            out@ == replaced_prefix(xml@, rv, i as int),
        decreases replacements.len() - i,
    {
        let (start, end) = (replacements[i].0, replacements[i].1);
        let ghost prev = out@;
        if start > cursor {
            let piece = crate::text::slice_vec(&v, cursor, start);
            crate::text::push_all(&mut out, &piece);
        }
        let rep = str_chars(replacements[i].2.as_str());
        crate::text::push_all(&mut out, &rep);
        proof {
            assert(rv[i as int] == (start as int, end as int, replacements@[i as int].2@));
            assert(out@ =~= replaced_prefix(xml@, rv, i + 1));
        }
        cursor = end;
        i = i + 1;
    }
    let tail = crate::text::slice_vec(&v, cursor, v.len());
    crate::text::push_all(&mut out, &tail);
    string_from_chars(out.as_slice())
}


// ---------------------------------------------------------------------------
// Renumbering sheet positions in the workbook part
// ---------------------------------------------------------------------------

/// `i32::from_str` of the text as it stands.
pub open spec fn i32_text(v: Seq<char>) -> Option<i32> {
    match crate::text::parse_i64_spec(v) {
        Some(n) => if i32::MIN <= n <= i32::MAX { Some(n as i32) } else { None },
        None => None,
    }
}

fn i32_from_text(v: &str) -> (r: Option<i32>)
    ensures
        r == i32_text(v@),
{
    match crate::text::parse_i64(v) {
        Some(n) => if n >= -2147483648 && n <= 2147483647 {
            Some(n as i32)
        } else {
            None
        },
        None => None,
    }
}

/// Whether the tag token's text ends in `/>` (trailing white space aside).
pub open spec fn tag_is_empty(xml: Seq<char>, t: crate::xml::CharToken) -> bool {
    crate::text::has_suffix(crate::text::trim_end(xml.subrange(t.start as int, t.end as int)), "/>"@)
}

/// An element's opening tag with its attributes in name order.
pub open spec fn opening_spec(name: Seq<char>, attrs: crate::attrmap::Entries, empty: bool) -> Seq<char> {
    seq!['<'] + name + crate::elements::render_attrs_spec(attrs) + (if empty { "/>"@ } else { ">"@ })
}

/// The attributes of a tag token, by name.
pub open spec fn token_attr_map(xml: Seq<char>, t: crate::xml::CharToken) -> crate::attrmap::Entries {
    crate::attrmap::map_from_pairs(crate::xml::quick_xml_tag_attributes(xml.subrange(t.start as int, t.end as int)))
}

/// What a `definedName` opening tag becomes when sheet positions move: its
/// `localSheetId` renumbered, the tag dropped when its sheet is gone, left
/// alone when the id is missing, unreadable or out of range.
pub open spec fn defined_name_edit(xml: Seq<char>, t: crate::xml::CharToken, remap: Seq<i32>) -> Option<Seq<char>> {
    let attrs = token_attr_map(xml, t);
    match crate::attrmap::map_get(attrs, "localSheetId"@) {
        None => None,
        Some(raw) => match i32_text(raw) {
            None => None,
            Some(value) => if value < 0 || value >= remap.len() {
                None
            } else if remap[value as int] < 0 {
                Some(Seq::empty())
            } else {
                Some(opening_spec(
                    t.name@,
                    crate::attrmap::sorted_insert(attrs, "localSheetId"@, crate::text::decimal_int(remap[value as int] as int)),
                    tag_is_empty(xml, t),
                ))
            },
        },
    }
}

/// The replacements the first `n` tokens call for.
pub open spec fn defined_name_replacements(xml: Seq<char>, toks: Seq<crate::xml::CharToken>, remap: Seq<i32>, n: int) -> Seq<
    (int, int, Seq<char>),
>
    decreases n,
{
    if n <= 0 {
        Seq::empty()
    } else {
        let prev = defined_name_replacements(xml, toks, remap, n - 1);
        let t = toks[n - 1];
        if crate::xml::is_tag(t) && crate::xml::local_name_of(t.name@) == "definedName"@ {
            match defined_name_edit(xml, t, remap) {
                Some(text) => prev.push((t.start as int, t.end as int, text)),
                None => prev,
            }
        } else {
            prev
        }
    }
}

/// The workbook part with its defined names' sheet positions renumbered.
pub open spec fn remap_defined_names_spec(xml: Seq<char>, remap: Seq<i32>) -> Seq<char> {
    match crate::xml::char_tokens_spec(xml) {
        None => xml,
        Some(p) => apply_replacements_spec(xml, defined_name_replacements(xml, p.0, remap, p.0.len() as int)),
    }
}

fn token_tag_is_empty(chars: &Vec<char>, t: &crate::xml::CharToken) -> (r: bool)
    requires
        t.start <= t.end <= chars@.len(),
    ensures
        r == tag_is_empty(chars@, *t),
{
    let tag = crate::text::slice_vec(chars, t.start, t.end);
    let n = crate::text::trim_end_len(&tag);
    let trimmed = crate::text::slice_vec(&tag, 0, n);
    proof {
        reveal_strlit("/>");
        assert(trimmed@ == crate::text::trim_end(tag@));
    }
    let suffix = str_chars("/>");
    crate::text::vec_ends_with(&trimmed, &suffix)
}

fn render_opening(name: &str, attrs: &crate::attrmap::AttrMap, empty: bool) -> (r: String)
    ensures
        r@ == opening_spec(name@, attrs.view(), empty),
{
    let rendered = crate::elements::render_xml_attrs(&attrs.entries);
    proof {
        reveal_strlit("<");
    }
    let close = if empty { "/>" } else { ">" };
    crate::text::concat4("<", name, rendered.as_str(), close)
}

fn edit_defined_name(chars: &Vec<char>, t: &crate::xml::CharToken, remap: &Vec<i32>) -> (r: Option<String>)
    requires
        t.start <= t.end <= chars@.len(),
    ensures
        r is Some <==> defined_name_edit(chars@, *t, remap@) is Some,
        r is Some ==> r->Some_0@ == defined_name_edit(chars@, *t, remap@)->Some_0,
{
    let tagv = crate::text::slice_vec(chars, t.start, t.end);
    let tag = string_from_chars(tagv.as_slice());
    let pairs = crate::xml::tag_attributes(tag.as_str());
    let mut attrs = crate::attrmap::AttrMap::from_pairs(&pairs);
    let raw = match attrs.get("localSheetId") {
        Some(v) => v,
        None => {
            return None;
        },
    };
    let value = match i32_from_text(raw.as_str()) {
        Some(v) => v,
        None => {
            return None;
        },
    };
    if value < 0 || value as usize >= remap.len() {
        return None;
    }
    let mapped = remap[value as usize];
    if mapped < 0 {
        let e = String::new();
        proof {
            assert(e@ =~= Seq::<char>::empty());
        }
        return Some(e);
    }
    let empty = token_tag_is_empty(chars, t);
    let text = crate::text::i64_to_string(mapped as i64);
    attrs.insert(to_string("localSheetId"), text);
    Some(render_opening(t.name.as_str(), &attrs, empty))
}

/// `remap_defined_name_positions`: the `localSheetId` of every defined name
/// renumbered by `remap` (old position to new, -1 for a deleted sheet).
pub fn remap_defined_name_positions(workbook_xml: &str, remap: &Vec<i32>) -> (r: String)
    ensures
        r@ == remap_defined_names_spec(workbook_xml@, remap@),
{
    let toks = match crate::xml::char_tokens(workbook_xml) {
        Ok(p) => p.0,
        Err(_) => {
            return to_string(workbook_xml);
        },
    };
    let chars = str_chars(workbook_xml);
    let mut reps: Vec<(usize, usize, String)> = Vec::new();
    let mut i: usize = 0;
    while i < toks.len()
        invariant
            0 <= i <= toks.len(),
            crate::xml::char_tokens_spec(workbook_xml@) is Some,
            toks@ == crate::xml::char_tokens_spec(workbook_xml@).unwrap().0,
            crate::xml::tokens_well_formed(toks@, workbook_xml@.len() as int),
            chars@ == workbook_xml@,
            reps_view(reps@) == defined_name_replacements(workbook_xml@, toks@, remap@, i as int),
            forall|j: int| 0 <= j < reps@.len() ==> (#[trigger] reps@[j]).0 <= workbook_xml@.len() && reps@[j].1 <= workbook_xml@.len(),
        decreases toks.len() - i,
    {
        let t = &toks[i];
        proof {
            assert(t.start <= t.end <= chars@.len());
        }
        let is_tag = t.kind == crate::xml::XmlTokenKind::Start || t.kind == crate::xml::XmlTokenKind::Empty;
        if is_tag {
            let ln = crate::xml::local_name(t.name.as_str());
            if str_eq(ln.as_str(), "definedName") {
                match edit_defined_name(&chars, t, remap) {
                    Some(text) => {
                        let ghost prev = reps@;
                        let ghost tv = text@;
                        reps.push((t.start, t.end, text));
                        proof {
                            assert(reps_view(reps@) =~= reps_view(prev).push((t.start as int, t.end as int, tv)));
                        }
                    },
                    None => {},
                }
            }
        }
        i = i + 1;
    }
    apply_replacements(workbook_xml, &reps)
}


/// A workbook view attribute renumbered, when it holds a number.
pub open spec fn view_attr_edit(attrs: crate::attrmap::Entries, key: Seq<char>, remap: Seq<i32>) -> crate::attrmap::Entries {
    match crate::attrmap::map_get(attrs, key) {
        Some(raw) => match i32_text(raw) {
            Some(value) => crate::attrmap::sorted_insert(attrs, key, crate::text::decimal_int(view_index_spec(value, remap) as int)),
            None => attrs,
        },
        None => attrs,
    }
}

/// What a `workbookView` opening tag becomes: `activeTab` and `firstSheet`
/// renumbered.
pub open spec fn workbook_view_edit(xml: Seq<char>, t: crate::xml::CharToken, remap: Seq<i32>) -> Seq<char> {
    let a0 = token_attr_map(xml, t);
    let a1 = view_attr_edit(a0, "activeTab"@, remap);
    let a2 = view_attr_edit(a1, "firstSheet"@, remap);
    opening_spec(t.name@, a2, tag_is_empty(xml, t))
}

pub open spec fn workbook_view_replacements(xml: Seq<char>, toks: Seq<crate::xml::CharToken>, remap: Seq<i32>, n: int) -> Seq<
    (int, int, Seq<char>),
>
    decreases n,
{
    if n <= 0 {
        Seq::empty()
    } else {
        let prev = workbook_view_replacements(xml, toks, remap, n - 1);
        let t = toks[n - 1];
        if crate::xml::is_tag(t) && crate::xml::local_name_of(t.name@) == "workbookView"@ {
            prev.push((t.start as int, t.end as int, workbook_view_edit(xml, t, remap)))
        } else {
            prev
        }
    }
}

/// The workbook part with its views' sheet positions renumbered.
pub open spec fn remap_workbook_views_spec(xml: Seq<char>, remap: Seq<i32>) -> Seq<char> {
    match crate::xml::char_tokens_spec(xml) {
        None => xml,
        Some(p) => apply_replacements_spec(xml, workbook_view_replacements(xml, p.0, remap, p.0.len() as int)),
    }
}

fn edit_view_attr(attrs: &mut crate::attrmap::AttrMap, key: &str, remap: &Vec<i32>)
    ensures
        final(attrs).view() == view_attr_edit(old(attrs).view(), key@, remap@),
{
    match attrs.get(key) {
        Some(raw) => match i32_from_text(raw.as_str()) {
            Some(value) => {
                let mapped = remap_workbook_view_index(value, remap);
                let text = crate::text::i64_to_string(mapped as i64);
                attrs.insert(to_string(key), text);
            },
            None => {},
        },
        None => {},
    }
}

fn edit_workbook_view(chars: &Vec<char>, t: &crate::xml::CharToken, remap: &Vec<i32>) -> (r: String)
    requires
        t.start <= t.end <= chars@.len(),
    ensures
        r@ == workbook_view_edit(chars@, *t, remap@),
{
    let tagv = crate::text::slice_vec(chars, t.start, t.end);
    let tag = string_from_chars(tagv.as_slice());
    let pairs = crate::xml::tag_attributes(tag.as_str());
    let mut attrs = crate::attrmap::AttrMap::from_pairs(&pairs);
    edit_view_attr(&mut attrs, "activeTab", remap);
    edit_view_attr(&mut attrs, "firstSheet", remap);
    let empty = token_tag_is_empty(chars, t);
    render_opening(t.name.as_str(), &attrs, empty)
}

/// `remap_workbook_view_positions`: `activeTab` and `firstSheet` of every
/// workbook view renumbered by `remap`.
pub fn remap_workbook_view_positions(workbook_xml: &str, remap: &Vec<i32>) -> (r: String)
    ensures
        r@ == remap_workbook_views_spec(workbook_xml@, remap@),
{
    let toks = match crate::xml::char_tokens(workbook_xml) {
        Ok(p) => p.0,
        Err(_) => {
            return to_string(workbook_xml);
        },
    };
    let chars = str_chars(workbook_xml);
    let mut reps: Vec<(usize, usize, String)> = Vec::new();
    let mut i: usize = 0;
    while i < toks.len()
        invariant
            0 <= i <= toks.len(),
            crate::xml::char_tokens_spec(workbook_xml@) is Some,
            toks@ == crate::xml::char_tokens_spec(workbook_xml@).unwrap().0,
            crate::xml::tokens_well_formed(toks@, workbook_xml@.len() as int),
            chars@ == workbook_xml@,
            reps_view(reps@) == workbook_view_replacements(workbook_xml@, toks@, remap@, i as int),
            forall|j: int| 0 <= j < reps@.len() ==> (#[trigger] reps@[j]).0 <= workbook_xml@.len() && reps@[j].1 <= workbook_xml@.len(),
        decreases toks.len() - i,
    {
        let t = &toks[i];
        proof {
            assert(t.start <= t.end <= chars@.len());
        }
        let is_tag = t.kind == crate::xml::XmlTokenKind::Start || t.kind == crate::xml::XmlTokenKind::Empty;
        if is_tag {
            let ln = crate::xml::local_name(t.name.as_str());
            if str_eq(ln.as_str(), "workbookView") {
                let text = edit_workbook_view(&chars, t, remap);
                let ghost prev = reps@;
                let ghost tv = text@;
                reps.push((t.start, t.end, text));
                proof {
                    assert(reps_view(reps@) =~= reps_view(prev).push((t.start as int, t.end as int, tv)));
                }
            }
        }
        i = i + 1;
    }
    apply_replacements(workbook_xml, &reps)
}

/// `apply_sheet_position_remap`: workbook views, then defined names.
pub fn apply_sheet_position_remap(workbook_xml: &str, remap: &Vec<i32>) -> (r: String)
    ensures
        r@ == remap_defined_names_spec(remap_workbook_views_spec(workbook_xml@, remap@), remap@),
{
    let updated = remap_workbook_view_positions(workbook_xml, remap);
    remap_defined_name_positions(updated.as_str(), remap)
}

} // verus!
