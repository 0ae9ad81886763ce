//! Workbook defined names: their selectors, scopes, validation and the
//! add / update / rename / delete edits of a workbook's name list.
use vstd::prelude::*;
use crate::cellref::{cell_ref_spec, col_name, column_letters, parse_cell_ref, parse_cli_range, range_spec, RangeBounds};
use crate::commands::{command_arg, command_arg_spec};
use crate::error::{CliError, CliResult, ErrorKind};
use crate::sheets::{
    after_first_slash, first_piece, is_xlsx_handle, piece_count, resolve_sheet, resolve_sheet_spec, sheet_view,
    split_first_slash, WorkbookSheet,
};
use crate::text::{
    chars_eq_str, has_prefix, strip_all_prefix, strip_prefix_spec, str_strip_all_prefix, vec_strip_prefix, trim_string, present, is_present,
    all_digits, ascii_lower_seq, ascii_upper, ascii_upper_seq, char_is_ascii_digit, char_to_ascii_upper, concat2,
    concat3, concat4, concat5, decimal, find_from, i64_to_string, is_ascii_digit, is_blank, replace_all, replace_str,
    str_chars, str_eq, str_eq_ignore_ascii_case, to_string, trim, trim_chars, u32_to_string, vec_to_string,
    debug_quoted, str_debug_text,
};

verus! {

/// One `definedName` of a workbook with the selectors that find it.
#[derive(Debug)]
pub struct XlsxDefinedName {
    pub number: u32,
    pub name: String,
    pub scope: String,
    pub local_sheet_id: Option<i64>,
    pub sheet_number: u32,
    pub sheet_name: String,
    pub ref_text: String,
    pub hidden: bool,
    pub comment: String,
    pub description: String,
    pub primary_selector: String,
    pub selectors: Vec<String>,
}

/// The texts of a list of strings.
pub open spec fn strs(v: Seq<String>) -> Seq<Seq<char>> {
    Seq::new(v.len(), |i: int| v[i]@)
}

/// Two names that hold the same values.
pub open spec fn same_name(a: XlsxDefinedName, b: XlsxDefinedName) -> bool {
    &&& a.number == b.number
    &&& a.name@ == b.name@
    &&& a.scope@ == b.scope@
    &&& a.local_sheet_id == b.local_sheet_id
    &&& a.sheet_number == b.sheet_number
    &&& a.sheet_name@ == b.sheet_name@
    &&& a.ref_text@ == b.ref_text@
    &&& a.hidden == b.hidden
    &&& a.comment@ == b.comment@
    &&& a.description@ == b.description@
    &&& a.primary_selector@ == b.primary_selector@
    &&& strs(a.selectors@) == strs(b.selectors@)
}

/// Two names that agree on everything the selectors are computed from and on
/// what the workbook stores, selectors aside.
pub open spec fn same_data(a: XlsxDefinedName, b: XlsxDefinedName) -> bool {
    &&& a.number == b.number
    &&& a.name@ == b.name@
    &&& a.scope@ == b.scope@
    &&& a.local_sheet_id == b.local_sheet_id
    &&& a.sheet_number == b.sheet_number
    &&& a.sheet_name@ == b.sheet_name@
    &&& a.ref_text@ == b.ref_text@
    &&& a.hidden == b.hidden
    &&& a.comment@ == b.comment@
    &&& a.description@ == b.description@
}

pub open spec fn has_name(d: XlsxDefinedName) -> bool {
    !is_blank(d.name@)
}

/// The selector that names a defined name first: by name for a workbook
/// name, by sheet and name for a sheet name, else by its number.
pub open spec fn primary_selector_spec(d: XlsxDefinedName) -> Seq<char> {
    if d.scope@ == "workbook"@ && has_name(d) {
        "name:"@ + d.name@
    } else if d.scope@ == "sheet"@ && d.sheet_number > 0 && has_name(d) {
        "sheet:"@ + decimal(d.sheet_number as nat) + "/name:"@ + d.name@
    } else if d.number > 0 {
        "definedName:"@ + decimal(d.number as nat)
    } else {
        Seq::empty()
    }
}

/// Every selector a defined name answers to, in order, before duplicates and
/// empty ones are dropped.
pub open spec fn selector_candidates_spec(d: XlsxDefinedName) -> Seq<Seq<char>> {
    let n = decimal(d.number as nat);
    let sn = decimal(d.sheet_number as nat);
    let nm = d.name@;
    let sheet_named = d.scope@ == "sheet"@ && has_name(d);
    seq![primary_selector_spec(d)] + (if d.number > 0 {
        seq!["definedName:"@ + n, "#"@ + n]
    } else {
        Seq::empty()
    }) + (if has_name(d) {
        seq!["name:"@ + nm, "~"@ + nm, nm]
    } else {
        Seq::empty()
    }) + (if d.scope@ == "workbook"@ && has_name(d) {
        seq!["scope:workbook/name:"@ + nm, "workbook:"@ + nm]
    } else {
        Seq::empty()
    }) + (if sheet_named && d.sheet_number > 0 {
        seq!["scope:sheet:"@ + sn + "/name:"@ + nm, "sheet:"@ + sn + "/name:"@ + nm]
    } else {
        Seq::empty()
    }) + (if sheet_named && !is_blank(d.sheet_name@) {
        seq!["scope:sheet:"@ + d.sheet_name@ + "/name:"@ + nm, "sheet:"@ + d.sheet_name@ + "/name:"@ + nm]
    } else {
        Seq::empty()
    })
}

/// A selector list with one more selector: kept as is when the selector is
/// empty or already listed.
pub open spec fn add_selector_spec(list: Seq<Seq<char>>, s: Seq<char>) -> Seq<Seq<char>> {
    if s.len() == 0 || list.contains(s) {
        list
    } else {
        list.push(s)
    }
}

/// The selectors of a candidate list, first occurrences kept, empties dropped.
pub open spec fn dedup_selectors(c: Seq<Seq<char>>) -> Seq<Seq<char>>
    decreases c.len(),
{
    if c.len() == 0 {
        Seq::empty()
    } else {
        add_selector_spec(dedup_selectors(c.drop_last()), c.last())
    }
}

/// The selectors of a defined name.
pub open spec fn selectors_spec(d: XlsxDefinedName) -> Seq<Seq<char>> {
    dedup_selectors(selector_candidates_spec(d))
}

/// A name whose selectors are those its data gives.
pub open spec fn selectors_current(d: XlsxDefinedName) -> bool {
    d.primary_selector@ == primary_selector_spec(d) && strs(d.selectors@) == selectors_spec(d)
}

/// `add_selector`: appends a selector unless it is empty or already listed.
pub fn add_selector(list: &mut Vec<String>, s: String)
    ensures
        strs(final(list)@) == add_selector_spec(strs(old(list)@), s@),
{
    if str_chars(s.as_str()).len() == 0 {
        return;
    }
    let mut i: usize = 0;
    let mut found = false;
    while i < list.len()
        invariant
            0 <= i <= list.len(),
            found == (exists|k: int| 0 <= k < i && #[trigger] list@[k]@ == s@),
        decreases list.len() - i,
    {
        if str_eq(list[i].as_str(), s.as_str()) {
            found = true;
        }
        i = i + 1;
    }
    let ghost before = strs(list@);
    if found {
        proof {
            let k = choose|k: int| 0 <= k < i && #[trigger] list@[k]@ == s@;
            assert(before[k] == s@);
            assert(before.contains(s@));
        }
        return;
    }
    proof {
        assert forall|k: int| 0 <= k < before.len() implies before[k] != s@ by {
            assert(list@[k]@ == before[k]);
        }
    }
    list.push(s);
    proof {
        assert(strs(list@) =~= before.push(s@));
    }
}

impl XlsxDefinedName {
    /// A copy with the same values.
    pub fn clone_name(&self) -> (r: XlsxDefinedName)
        ensures
            same_name(r, *self),
    {
        let mut sel: Vec<String> = Vec::new();
        let mut i: usize = 0;
        while i < self.selectors.len()
            invariant
                0 <= i <= self.selectors.len(),
                sel@.len() == i,
                forall|k: int| 0 <= k < i ==> #[trigger] sel@[k]@ == self.selectors@[k]@,
            decreases self.selectors.len() - i,
        {
            sel.push(self.selectors[i].clone());
            i = i + 1;
        }
        proof {
            assert(strs(sel@) =~= strs(self.selectors@));
        }
        XlsxDefinedName {
            number: self.number,
            name: self.name.clone(),
            scope: self.scope.clone(),
            local_sheet_id: self.local_sheet_id,
            sheet_number: self.sheet_number,
            sheet_name: self.sheet_name.clone(),
            ref_text: self.ref_text.clone(),
            hidden: self.hidden,
            comment: self.comment.clone(),
            description: self.description.clone(),
            primary_selector: self.primary_selector.clone(),
            selectors: sel,
        }
    }

    /// `apply_selectors`: recomputes the primary selector and the selector
    /// list from the name's number, name, scope and sheet.
    pub fn apply_selectors(&mut self)
        ensures
            same_data(*final(self), *old(self)),
            selectors_current(*final(self)),
    {
        let has = trim_chars(self.name.as_str()).len() > 0;
        let wb = str_eq(self.scope.as_str(), "workbook");
        let sh = str_eq(self.scope.as_str(), "sheet");
        let n = u32_to_string(self.number);
        let sn = u32_to_string(self.sheet_number);
        let nm = self.name.as_str();
        let primary = if wb && has {
            concat2("name:", nm)
        } else if sh && self.sheet_number > 0 && has {
            concat4("sheet:", sn.as_str(), "/name:", nm)
        } else if self.number > 0 {
            concat2("definedName:", n.as_str())
        } else {
            String::new()
        };
        let ghost d = *self;
        assert(primary@ == primary_selector_spec(d));
        let mut c: Vec<String> = Vec::new();
        c.push(primary.clone());
        let ghost c0 = strs(c@);
        if self.number > 0 {
            c.push(concat2("definedName:", n.as_str()));
            c.push(concat2("#", n.as_str()));
        }
        let ghost c1 = strs(c@);
        if has {
            c.push(concat2("name:", nm));
            c.push(concat2("~", nm));
            c.push(to_string(nm));
        }
        let ghost c2 = strs(c@);
        if wb && has {
            c.push(concat2("scope:workbook/name:", nm));
            c.push(concat2("workbook:", nm));
        }
        let ghost c3 = strs(c@);
        if sh && has && self.sheet_number > 0 {
            c.push(concat4("scope:sheet:", sn.as_str(), "/name:", nm));
            c.push(concat4("sheet:", sn.as_str(), "/name:", nm));
        }
        let ghost c4 = strs(c@);
        let shn = trim_chars(self.sheet_name.as_str()).len() > 0;
        if sh && has && shn {
            c.push(concat4("scope:sheet:", self.sheet_name.as_str(), "/name:", nm));
            c.push(concat4("sheet:", self.sheet_name.as_str(), "/name:", nm));
        }
        proof {
            let nn = decimal(d.number as nat);
            let s2 = decimal(d.sheet_number as nat);
            let p1: Seq<Seq<char>> = if d.number > 0 {
                seq!["definedName:"@ + nn, "#"@ + nn]
            } else {
                Seq::empty()
            };
            assert(c1 =~= c0 + p1);
            let p2: Seq<Seq<char>> = if has_name(d) {
                seq!["name:"@ + d.name@, "~"@ + d.name@, d.name@]
            } else {
                Seq::empty()
            };
            assert(c2 =~= c1 + p2);
            let p3: Seq<Seq<char>> = if d.scope@ == "workbook"@ && has_name(d) {
                seq!["scope:workbook/name:"@ + d.name@, "workbook:"@ + d.name@]
            } else {
                Seq::empty()
            };
            assert(c3 =~= c2 + p3);
            let p4: Seq<Seq<char>> = if d.scope@ == "sheet"@ && has_name(d) && d.sheet_number > 0 {
                seq!["scope:sheet:"@ + s2 + "/name:"@ + d.name@, "sheet:"@ + s2 + "/name:"@ + d.name@]
            } else {
                Seq::empty()
            };
            assert(c4 =~= c3 + p4);
            let p5: Seq<Seq<char>> = if d.scope@ == "sheet"@ && has_name(d) && !is_blank(d.sheet_name@) {
                seq![
                    "scope:sheet:"@ + d.sheet_name@ + "/name:"@ + d.name@,
                    "sheet:"@ + d.sheet_name@ + "/name:"@ + d.name@,
                ]
            } else {
                Seq::empty()
            };
            assert(strs(c@) =~= c4 + p5);
            assert(c0 =~= seq![primary_selector_spec(d)]);
            assert(strs(c@) =~= selector_candidates_spec(d));
        }
        let mut out: Vec<String> = Vec::new();
        let mut i: usize = 0;
        while i < c.len()
            invariant
                0 <= i <= c.len(),
                strs(c@) == selector_candidates_spec(d),
                strs(out@) == dedup_selectors(strs(c@).take(i as int)),
            decreases c.len() - i,
        {
            let s = c[i].clone();
            proof {
                assert(strs(c@).take(i + 1).drop_last() =~= strs(c@).take(i as int));
                assert(strs(c@).take(i + 1).last() == s@);
            }
            add_selector(&mut out, s);
            i = i + 1;
        }
        proof {
            assert(strs(c@).take(c@.len() as int) =~= strs(c@));
        }
        self.primary_selector = primary;
        self.selectors = out;
    }
}


/// The sheet number a `localSheetId` gives: one more than the id, or 0 for a
/// negative id.
pub open spec fn sheet_number_of(id: i64) -> u32 {
    if id >= 0 {
        ((id as u32) + 1) as u32
    } else {
        0
    }
}

/// Whether a `localSheetId` has a sheet number: one more than its low 32 bits
/// must fit in a `u32`.
pub open spec fn local_id_numbered(id: Option<i64>) -> bool {
    match id {
        Some(v) => v < 0 || (v as u32) < u32::MAX,
        None => true,
    }
}

/// `apply_defined_name_sheet_context`: a name with a `localSheetId` gets
/// sheet scope, the sheet number and (where the id names a sheet) the sheet's
/// name; a name without one gets workbook scope and no sheet.
pub fn apply_defined_name_sheet_context(name: &mut XlsxDefinedName, sheets: &Vec<WorkbookSheet>)
    requires
        local_id_numbered(old(name).local_sheet_id),
    ensures
        final(name).number == old(name).number,
        final(name).name@ == old(name).name@,
        final(name).local_sheet_id == old(name).local_sheet_id,
        final(name).ref_text@ == old(name).ref_text@,
        final(name).hidden == old(name).hidden,
        final(name).comment@ == old(name).comment@,
        final(name).description@ == old(name).description@,
        final(name).primary_selector@ == old(name).primary_selector@,
        strs(final(name).selectors@) == strs(old(name).selectors@),
        match old(name).local_sheet_id {
            Some(id) => {
                &&& final(name).scope@ == "sheet"@
                &&& final(name).sheet_number == sheet_number_of(id)
                &&& final(name).sheet_name@ == if 0 <= id < sheets@.len() {
                    sheets@[id as int].name@
                } else {
                    old(name).sheet_name@
                }
            },
            None => {
                &&& final(name).scope@ == "workbook"@
                &&& final(name).sheet_number == 0
                &&& final(name).sheet_name@ == Seq::<char>::empty()
            },
        },
{
    match name.local_sheet_id {
        Some(id) => {
            name.scope = to_string("sheet");
            if id >= 0 {
                let t = id as u32;
                name.sheet_number = t + 1;
            } else {
                name.sheet_number = 0;
            }
            if id >= 0 && (id as u64) < (sheets.len() as u64) {
                let k = id as usize;
                name.sheet_name = sheets[k].name.clone();
            }
        },
        None => {
            name.scope = to_string("workbook");
            name.sheet_number = 0;
            name.sheet_name = String::new();
        },
    }
}

/// The scope a `localSheetId` gives.
pub open spec fn scope_text_spec(local_sheet_id: Option<i64>) -> Seq<char> {
    if local_sheet_id is Some {
        "sheet"@
    } else {
        "workbook"@
    }
}

/// `defined_name_scope_text`: `sheet` for a name with a `localSheetId`,
/// else `workbook`.
pub fn defined_name_scope_text(local_sheet_id: Option<i64>) -> (r: &'static str)
    ensures
        r@ == scope_text_spec(local_sheet_id),
{
    if local_sheet_id.is_some() {
        "sheet"
    } else {
        "workbook"
    }
}

/// A name renumbered: the same stored data under another number, its
/// selectors recomputed.
pub open spec fn renumbered(a: XlsxDefinedName, b: XlsxDefinedName, number: int) -> bool {
    &&& a.number == number
    &&& a.name@ == b.name@
    &&& a.scope@ == b.scope@
    &&& a.local_sheet_id == b.local_sheet_id
    &&& a.sheet_number == b.sheet_number
    &&& a.sheet_name@ == b.sheet_name@
    &&& a.ref_text@ == b.ref_text@
    &&& a.hidden == b.hidden
    &&& a.comment@ == b.comment@
    &&& a.description@ == b.description@
    &&& selectors_current(a)
}

/// `renumber_defined_names`: numbers the names 1, 2, ... in list order and
/// recomputes their selectors.
pub fn renumber_defined_names(names: &mut Vec<XlsxDefinedName>)
    requires
        old(names)@.len() <= u32::MAX,
    ensures
        final(names)@.len() == old(names)@.len(),
        forall|i: int| 0 <= i < final(names)@.len() ==> renumbered(#[trigger] final(names)@[i], old(names)@[i], i + 1),
{
    let ghost orig = names@;
    let mut i: usize = 0;
    while i < names.len()
        invariant
            0 <= i <= names@.len(),
            names@.len() == orig.len(),
            orig.len() <= u32::MAX,
            forall|k: int| 0 <= k < i ==> renumbered(#[trigger] names@[k], orig[k], k + 1),
            forall|k: int| i <= k < names@.len() ==> #[trigger] names@[k] == orig[k],
        decreases names@.len() - i,
    {
        let mut item = names[i].clone_name();
        item.number = (i as u32) + 1;
        item.apply_selectors();
        names.set(i, item);
        i = i + 1;
    }
}


/// Whether a character has the Unicode `Alphabetic` property, as
/// `char::is_alphabetic` reports it.
pub uninterp spec fn char_alphabetic(c: char) -> bool;

/// `char::is_alphabetic`. The contract ties the result to the property's name
/// and states only that ASCII letters have it.
#[verifier::external_body]
fn is_alphabetic(c: char) -> (r: bool)
    ensures
        r == char_alphabetic(c),
        crate::text::is_ascii_alpha(c) ==> r,
{
    c.is_alphabetic()
}

/// A letter: an ASCII letter, or any other character with the `Alphabetic`
/// property.
pub open spec fn name_letter(c: char) -> bool {
    crate::text::is_ascii_alpha(c) || char_alphabetic(c)
}

/// A character that a defined name may hold.
pub open spec fn name_char_ok(c: char) -> bool {
    name_letter(c) || is_ascii_digit(c) || c == '_' || c == '.' || c == '\\'
}

/// Whether a text reads as an R1C1 reference: `R`, digits, `C`, digits, in
/// either case.
pub open spec fn r1c1_spec(name: Seq<char>) -> bool {
    let u = ascii_upper_seq(name);
    let rest = u.drop_first();
    let c = find_from(rest, 'C', 0);
    &&& u.len() > 0
    &&& u[0] == 'R'
    &&& c > 0
    &&& c + 1 < rest.len()
    &&& all_digits(rest.subrange(0, c))
    &&& all_digits(rest.subrange(c + 1, rest.len() as int))
}

/// `is_r1c1_name`: whether a name reads as an R1C1 cell reference.
pub fn is_r1c1_name(name: &str) -> (r: bool)
    ensures
        r == r1c1_spec(name@),
{
    let v = str_chars(name);
    let mut u: Vec<char> = Vec::new();
    let mut i: usize = 0;
    while i < v.len()
        invariant
            0 <= i <= v.len(),
            v@ == name@,
            u@ == ascii_upper_seq(v@).take(i as int),
        decreases v.len() - i,
    {
        u.push(char_to_ascii_upper(v[i]));
        proof {
            assert(u@ =~= ascii_upper_seq(v@).take(i + 1));
        }
        i = i + 1;
    }
    proof {
        assert(u@ =~= ascii_upper_seq(name@));
    }
    if u.len() == 0 || u[0] != 'R' {
        return false;
    }
    let ghost rest = u@.drop_first();
    let mut c: usize = 1;
    while c < u.len() && u[c] != 'C'
        invariant
            1 <= c <= u.len(),
            rest == u@.drop_first(),
            forall|k: int| 0 <= k < c - 1 ==> rest[k] != 'C',
        decreases u.len() - c,
    {
        c = c + 1;
    }
    proof {
        crate::text::lemma_find_from(rest, 'C', 0);
        if c < u.len() {
            assert(rest[c - 1] == 'C');
            lemma_find_first_at(rest, 'C', (c - 1) as int);
        } else {
            lemma_find_absent(rest, 'C');
        }
    }
    if c >= u.len() || c == 1 || c + 1 >= u.len() {
        return false;
    }
    let mut ok = true;
    let mut k: usize = 1;
    while k < u.len()
        invariant
            1 <= c < u.len(),
            1 <= k <= u.len(),
            rest == u@.drop_first(),
            ok == (forall|j: int| 1 <= j < k && j != c ==> is_ascii_digit(#[trigger] u@[j])),
        decreases u.len() - k,
    {
        if k != c && !char_is_ascii_digit(u[k]) {
            ok = false;
        }
        k = k + 1;
    }
    proof {
        let cc = (c - 1) as int;
        let a = rest.subrange(0, cc);
        let b = rest.subrange(cc + 1, rest.len() as int);
        if ok {
            assert forall|j: int| 0 <= j < a.len() implies is_ascii_digit(#[trigger] a[j]) by {
                assert(a[j] == u@[j + 1]);
            }
            assert forall|j: int| 0 <= j < b.len() implies is_ascii_digit(#[trigger] b[j]) by {
                assert(b[j] == u@[j + cc + 2]);
            }
        } else {
            let j = choose|j: int| 1 <= j < k && j != c && !is_ascii_digit(#[trigger] u@[j]);
            if j < c {
                assert(a[j - 1] == u@[j]);
            } else {
                assert(b[j - c - 1] == u@[j]);
            }
        }
    }
    ok
}

/// The first `C` of `s` at `k` makes `k` the search result.
proof fn lemma_find_first_at(s: Seq<char>, ch: char, k: int)
    requires
        0 <= k < s.len(),
        s[k] == ch,
        forall|j: int| 0 <= j < k ==> s[j] != ch,
    ensures
        find_from(s, ch, 0) == k,
{
    lemma_find_first_from(s, ch, 0, k);
}

proof fn lemma_find_first_from(s: Seq<char>, ch: char, i: int, k: int)
    requires
        0 <= i <= k < s.len(),
        s[k] == ch,
        forall|j: int| i <= j < k ==> s[j] != ch,
    ensures
        find_from(s, ch, i) == k,
    decreases k - i,
{
    if i < k {
        lemma_find_first_from(s, ch, i + 1, k);
    }
}

proof fn lemma_find_absent(s: Seq<char>, ch: char)
    requires
        forall|j: int| 0 <= j < s.len() ==> s[j] != ch,
    ensures
        find_from(s, ch, 0) == -1,
{
    lemma_find_absent_from(s, ch, 0);
}

proof fn lemma_find_absent_from(s: Seq<char>, ch: char, i: int)
    requires
        0 <= i,
        forall|j: int| i <= j < s.len() ==> s[j] != ch,
    ensures
        find_from(s, ch, i) == -1,
    decreases s.len() - i,
{
    if i < s.len() {
        lemma_find_absent_from(s, ch, i + 1);
    }
}

/// A text as the messages show names and references: the way `{:?}` writes it.
pub open spec fn quoted(s: Seq<char>) -> Seq<char> {
    str_debug_text(s)
}

/// What is wrong with a defined name, as the message that says so, or
/// nothing for a valid name.
pub open spec fn defined_name_problem(name: Seq<char>) -> Option<Seq<char>> {
    if name.len() == 0 {
        Some("defined name cannot be empty"@)
    } else if name.len() > 255 {
        Some("defined name "@ + quoted(name) + " exceeds Excel's 255-character limit"@)
    } else if !(name_letter(name[0]) || name[0] == '_' || name[0] == '\\') {
        Some("defined name "@ + quoted(name) + " must start with a letter, underscore, or backslash"@)
    } else if exists|i: int| 0 <= i < name.len() && !name_char_ok(#[trigger] name[i]) {
        Some("defined name "@ + quoted(name) + " contains invalid characters"@)
    } else if cell_ref_spec(name) is Some {
        Some("defined name "@ + quoted(name) + " cannot be an A1 cell reference"@)
    } else if r1c1_spec(name) {
        Some("defined name "@ + quoted(name) + " cannot be an R1C1 cell reference"@)
    } else {
        None
    }
}

/// `validate_defined_name`: a name must be 1 to 255 characters of letters,
/// digits, `_`, `.` and `\`, start with a letter, `_` or `\`, and read as
/// neither an A1 nor an R1C1 reference.
pub fn validate_defined_name(name: &str) -> (r: Result<(), String>)
    ensures
        r is Ok <==> defined_name_problem(name@) is None,
        r is Err ==> r->Err_0@ == defined_name_problem(name@).unwrap(),
{
    let v = str_chars(name);
    if v.len() == 0 {
        return Err(to_string("defined name cannot be empty"));
    }
    if v.len() > 255 {
        {
            let q = debug_quoted(name);
            return Err(concat3("defined name ", q.as_str(), " exceeds Excel's 255-character limit"));
        }
    }
    let first = v[0];
    if !(is_alphabetic(first) || first == '_' || first == '\\') {
        {
            let q = debug_quoted(name);
            return Err(concat3("defined name ", q.as_str(), " must start with a letter, underscore, or backslash"));
        }
    }
    let mut i: usize = 0;
    while i < v.len()
        invariant
            0 <= i <= v.len(),
            v@ == name@,
            0 < v@.len() <= 255,
            name_letter(v@[0]) || v@[0] == '_' || v@[0] == '\\',
            forall|k: int| 0 <= k < i ==> name_char_ok(#[trigger] v@[k]),
        decreases v.len() - i,
    {
        let ch = v[i];
        if !(is_alphabetic(ch) || char_is_ascii_digit(ch) || ch == '_' || ch == '.' || ch == '\\') {
            proof {
                assert(!name_char_ok(name@[i as int]));
            }
            {
            let q = debug_quoted(name);
            return Err(concat3("defined name ", q.as_str(), " contains invalid characters"));
        }
        }
        i = i + 1;
    }
    if parse_cell_ref(name).is_ok() {
        {
            let q = debug_quoted(name);
            return Err(concat3("defined name ", q.as_str(), " cannot be an A1 cell reference"));
        }
    }
    if is_r1c1_name(name) {
        {
            let q = debug_quoted(name);
            return Err(concat3("defined name ", q.as_str(), " cannot be an R1C1 cell reference"));
        }
    }
    Ok(())
}

/// A reference as a defined name stores it: trimmed, one leading `=` and the
/// blanks after it dropped.
pub open spec fn norm_ref_spec(s: Seq<char>) -> Seq<char> {
    let t = trim(s);
    trim(
        if t.len() > 0 && t[0] == '=' {
            t.drop_first()
        } else {
            t
        },
    )
}

fn norm_ref(s: &str) -> (r: Vec<char>)
    ensures
        r@ == norm_ref_spec(s@),
{
    let t = trim_chars(s);
    if t.len() > 0 && t[0] == '=' {
        let rest = crate::text::slice_vec(&t, 1, t.len());
        proof {
            assert(rest@ =~= t@.drop_first());
        }
        let rs = vec_to_string(&rest);
        trim_chars(rs.as_str())
    } else {
        let ts = vec_to_string(&t);
        trim_chars(ts.as_str())
    }
}

/// `normalize_defined_name_ref`: the reference without its `=` and
/// surrounding blanks; an empty reference is refused.
pub fn normalize_defined_name_ref(ref_text: &str) -> (r: Result<String, String>)
    ensures
        r is Ok <==> norm_ref_spec(ref_text@).len() > 0,
        r is Ok ==> r->Ok_0@ == norm_ref_spec(ref_text@),
        r is Err ==> r->Err_0@ == "defined name ref cannot be empty"@,
{
    let n = norm_ref(ref_text);
    if n.len() == 0 {
        Err(to_string("defined name ref cannot be empty"))
    } else {
        Ok(vec_to_string(&n))
    }
}

/// The reference an `--expect-ref` flag asks for, normalized as a stored one.
pub open spec fn expected_ref_spec(expected: Option<&str>) -> Seq<char> {
    match expected {
        Some(e) => norm_ref_spec(e@),
        None => norm_ref_spec(Seq::empty()),
    }
}

/// `check_expected_defined_name_ref`: passes when no reference is expected
/// or the current one is the expected one.
pub fn check_expected_defined_name_ref(actual: &str, expected: Option<&str>) -> (r: Result<(), String>)
    ensures
        r is Ok <==> (expected_ref_spec(expected).len() == 0 || actual@ == expected_ref_spec(expected)),
        r is Err ==> r->Err_0@ == "defined name ref mismatch: expected "@ + quoted(expected_ref_spec(expected))
            + ", found "@ + quoted(actual@),
{
    let e = match expected {
        Some(x) => norm_ref(x),
        None => norm_ref(""),
    };
    proof {
        if expected is None {
            reveal_strlit("");
        }
    }
    if e.len() == 0 {
        return Ok(());
    }
    let es = vec_to_string(&e);
    if str_eq(actual, es.as_str()) {
        Ok(())
    } else {
        let qe = debug_quoted(es.as_str());
        let qa = debug_quoted(actual);
        Err(concat4("defined name ref mismatch: expected ", qe.as_str(), ", found ", qa.as_str()))
    }
}

/// A sheet name quoted for a reference: in single quotes, quotes doubled.
pub open spec fn quote_sheet_spec(sheet_name: Seq<char>) -> Seq<char> {
    "'"@ + replace_all(sheet_name, "'"@, "''"@) + "'"@
}

/// `quote_defined_name_sheet`: a sheet name quoted for a reference.
pub fn quote_defined_name_sheet(sheet_name: &str) -> (r: String)
    ensures
        r@ == quote_sheet_spec(sheet_name@),
{
    proof {
        reveal_strlit("'");
    }
    let inner = replace_str(sheet_name, "'", "''");
    concat3("'", inner.as_str(), "'")
}

/// A cell written with both `$` markers.
pub open spec fn abs_cell_text(col: u32, row: u32) -> Seq<char> {
    "$"@ + column_letters(col as nat) + "$"@ + decimal(row as nat)
}

/// A range written absolute, top-left first: one cell when the corners agree.
pub open spec fn absolute_range_spec(b: RangeBounds) -> Seq<char> {
    let s = abs_cell_text(b.lo_col(), b.lo_row());
    let e = abs_cell_text(b.hi_col(), b.hi_row());
    if s == e {
        s
    } else {
        s + ":"@ + e
    }
}

/// `absolute_range_ref`: a range as `$A$1` or `$A$1:$C$3`.
pub fn absolute_range_ref(range: RangeBounds) -> (r: String)
    ensures
        r@ == absolute_range_spec(range),
{
    let n = range.normalized();
    let sc = col_name(n.start_col);
    let sr = u32_to_string(n.start_row);
    let start = concat4("$", sc.as_str(), "$", sr.as_str());
    let ec = col_name(n.end_col);
    let er = u32_to_string(n.end_row);
    let end = concat4("$", ec.as_str(), "$", er.as_str());
    if str_eq(start.as_str(), end.as_str()) {
        start
    } else {
        concat3(start.as_str(), ":", end.as_str())
    }
}


/// Whether a name is `name` (ASCII case aside) in the scope `local_sheet_id`.
pub open spec fn name_matches(d: XlsxDefinedName, name: Seq<char>, local_sheet_id: Option<i64>) -> bool {
    ascii_lower_seq(d.name@) == ascii_lower_seq(name) && d.local_sheet_id == local_sheet_id
}

/// Whether another entry than `skip` already holds `name` in that scope.
pub open spec fn is_duplicate(
    names: Seq<XlsxDefinedName>,
    name: Seq<char>,
    local_sheet_id: Option<i64>,
    skip: Option<usize>,
) -> bool {
    exists|i: int|
        0 <= i < names.len() && skip != Some(i as usize) && #[trigger] name_matches(names[i], name, local_sheet_id)
}

/// `duplicate_defined_name`: whether an entry other than `skip_index` has the
/// name, ASCII case aside, in the same scope.
pub fn duplicate_defined_name(
    names: &Vec<XlsxDefinedName>,
    name: &str,
    local_sheet_id: Option<i64>,
    skip_index: Option<usize>,
) -> (r: bool)
    ensures
        r == is_duplicate(names@, name@, local_sheet_id, skip_index),
{
    let mut i: usize = 0;
    while i < names.len()
        invariant
            0 <= i <= names.len(),
            forall|k: int|
                0 <= k < i && skip_index != Some(k as usize) ==> !#[trigger] name_matches(names@[k], name@, local_sheet_id),
        decreases names.len() - i,
    {
        let skipped = match skip_index {
            Some(s) => s == i,
            None => false,
        };
        if !skipped && str_eq_ignore_ascii_case(names[i].name.as_str(), name) && names[i].local_sheet_id == local_sheet_id {
            proof {
                assert(name_matches(names@[i as int], name@, local_sheet_id));
            }
            return true;
        }
        i = i + 1;
    }
    false
}

/// The first index at or after `i` of a name matching `name` in that scope,
/// or -1.
pub open spec fn first_match_from(
    names: Seq<XlsxDefinedName>,
    name: Seq<char>,
    local_sheet_id: Option<i64>,
    i: int,
) -> int
    decreases names.len() - i,
{
    if i < 0 || i >= names.len() {
        -1
    } else if name_matches(names[i], name, local_sheet_id) {
        i
    } else {
        first_match_from(names, name, local_sheet_id, i + 1)
    }
}

proof fn lemma_first_match_from(names: Seq<XlsxDefinedName>, name: Seq<char>, local_sheet_id: Option<i64>, i: int)
    requires
        0 <= i <= names.len(),
    ensures
        first_match_from(names, name, local_sheet_id, i) == -1 || (i <= first_match_from(names, name, local_sheet_id, i)
            < names.len() && name_matches(names[first_match_from(names, name, local_sheet_id, i)], name, local_sheet_id)),
    decreases names.len() - i,
{
    if i < names.len() && !name_matches(names[i], name, local_sheet_id) {
        lemma_first_match_from(names, name, local_sheet_id, i + 1);
    }
}

fn find_defined_name(names: &Vec<XlsxDefinedName>, name: &str, local_sheet_id: Option<i64>) -> (r: Option<usize>)
    ensures
        first_match_from(names@, name@, local_sheet_id, 0) == match r {
            Some(k) => k as int,
            None => -1,
        },
{
    let mut i: usize = 0;
    while i < names.len()
        invariant
            0 <= i <= names.len(),
            first_match_from(names@, name@, local_sheet_id, 0) == first_match_from(names@, name@, local_sheet_id, i as int),
        decreases names.len() - i,
    {
        if str_eq_ignore_ascii_case(names[i].name.as_str(), name) && names[i].local_sheet_id == local_sheet_id {
            return Some(i);
        }
        i = i + 1;
    }
    None
}

/// Where a name chosen earlier stands now: at its number where the entry
/// there still matches it, else at the first matching entry.
pub open spec fn defined_name_index_spec(names: Seq<XlsxDefinedName>, target: XlsxDefinedName) -> Option<int> {
    let h = target.number as int - 1;
    if target.number > 0 && h < names.len() && name_matches(names[h], target.name@, target.local_sheet_id) {
        Some(h)
    } else {
        let f = first_match_from(names, target.name@, target.local_sheet_id, 0);
        if f == -1 {
            None
        } else {
            Some(f)
        }
    }
}

/// `defined_name_index`: the index of a chosen name in the list; an error
/// when it is no longer there.
pub fn defined_name_index(names: &Vec<XlsxDefinedName>, target: &XlsxDefinedName) -> (r: CliResult<usize>)
    ensures
        r is Ok <==> defined_name_index_spec(names@, *target) is Some,
        r is Ok ==> r->Ok_0 as int == defined_name_index_spec(names@, *target).unwrap() && r->Ok_0 < names@.len(),
        r is Err ==> r->Err_0.kind == ErrorKind::Unexpected,
{
    proof {
        lemma_first_match_from(names@, target.name@, target.local_sheet_id, 0);
    }
    if target.number > 0 {
        let h = (target.number - 1) as usize;
        if h < names.len() && str_eq_ignore_ascii_case(names[h].name.as_str(), target.name.as_str())
            && names[h].local_sheet_id == target.local_sheet_id {
            return Ok(h);
        }
    }
    match find_defined_name(names, target.name.as_str(), target.local_sheet_id) {
        Some(k) => Ok(k),
        None => Err(CliError::unexpected(concat5(
            "defined name ",
            debug_quoted(target.name.as_str()).as_str(),
            " is no longer present in ",
            target.scope.as_str(),
            " scope",
        ))),
    }
}

/// `readback_xlsx_defined_name`: the first name of a list read back from the
/// written workbook that matches the changed one.
pub fn readback_xlsx_defined_name(names: &Vec<XlsxDefinedName>, name: &str, local_sheet_id: Option<i64>) -> (r:
    CliResult<XlsxDefinedName>)
    ensures
        r is Ok <==> first_match_from(names@, name@, local_sheet_id, 0) != -1,
        r is Ok ==> same_name(r->Ok_0, names@[first_match_from(names@, name@, local_sheet_id, 0)]),
        r is Err ==> r->Err_0.kind == ErrorKind::Unexpected,
{
    proof {
        lemma_first_match_from(names@, name@, local_sheet_id, 0);
    }
    match find_defined_name(names, name, local_sheet_id) {
        Some(k) => Ok(names[k].clone_name()),
        None => Err(CliError::unexpected(concat3("changed defined name ", debug_quoted(name).as_str(), " did not read back"))),
    }
}

/// An optional flag's text, trimmed; empty when the flag is absent.
pub open spec fn opt_trim(o: Option<&str>) -> Seq<char> {
    match o {
        Some(s) => trim(s@),
        None => Seq::empty(),
    }
}

fn opt_trim_string(o: Option<&str>) -> (r: String)
    ensures
        r@ == opt_trim(o),
{
    match o {
        Some(s) => {
            let t = trim_chars(s);
            vec_to_string(&t)
        },
        None => String::new(),
    }
}

/// The scope a `--scope-sheet` flag gives: none (workbook scope) without the
/// flag, else the 0-based position of the sheet it names.
pub open spec fn name_scope_spec(sheets: Seq<WorkbookSheet>, scope_sheet: Option<&str>) -> Result<
    Option<i64>,
    ErrorKind,
> {
    let s = opt_trim(scope_sheet);
    if s.len() == 0 {
        Ok(None)
    } else {
        match resolve_sheet_spec(sheets, s) {
            Ok(i) => Ok(Some((sheets[i].position as int - 1) as i64)),
            Err(k) => Err(k),
        }
    }
}

/// `resolve_defined_name_scope`: the `localSheetId` a `--scope-sheet` flag
/// asks for.
pub fn resolve_defined_name_scope(sheets: &Vec<WorkbookSheet>, scope_sheet: Option<&str>) -> (r: CliResult<Option<i64>>)
    ensures
        match name_scope_spec(sheets@, scope_sheet) {
            Ok(v) => r is Ok && r->Ok_0 == v,
            Err(k) => r is Err && r->Err_0.kind == k,
        },
{
    let s = opt_trim_string(scope_sheet);
    if str_chars(s.as_str()).len() == 0 {
        return Ok(None);
    }
    let sheet = resolve_sheet(sheets, s.as_str())?;
    let p: i64 = sheet.position as i64;
    Ok(Some(p - 1))
}

/// The reference that the `--ref`, `--sheet` and `--range` flags give: the
/// normalized `--ref`, or the quoted sheet and the absolute range.
pub open spec fn ref_from_flags_spec(
    sheets: Seq<WorkbookSheet>,
    exact_ref: Option<&str>,
    sheet_selector: Option<&str>,
    range_text: Option<&str>,
) -> Result<Seq<char>, ErrorKind> {
    let e = opt_trim(exact_ref);
    let rt = opt_trim(range_text);
    let sel = opt_trim(sheet_selector);
    if (e.len() == 0) == (rt.len() == 0) {
        Err(ErrorKind::InvalidArgs)
    } else if e.len() > 0 {
        if norm_ref_spec(e).len() > 0 {
            Ok(norm_ref_spec(e))
        } else {
            Err(ErrorKind::InvalidArgs)
        }
    } else if sel.len() == 0 {
        Err(ErrorKind::InvalidArgs)
    } else {
        match resolve_sheet_spec(sheets, sel) {
            Err(k) => Err(k),
            Ok(i) => match range_spec(rt) {
                None => Err(ErrorKind::InvalidArgs),
                Some(b) => Ok(quote_sheet_spec(sheets[i].name@) + "!"@ + absolute_range_spec(b)),
            },
        }
    }
}

/// `resolve_defined_name_ref_from_flags`: the reference of a defined name
/// from exactly one of `--ref` or `--sheet` with `--range`.
pub fn resolve_defined_name_ref_from_flags(
    sheets: &Vec<WorkbookSheet>,
    exact_ref: Option<&str>,
    sheet_selector: Option<&str>,
    range_text: Option<&str>,
) -> (r: CliResult<String>)
    ensures
        match ref_from_flags_spec(sheets@, exact_ref, sheet_selector, range_text) {
            Ok(v) => r is Ok && r->Ok_0@ == v,
            Err(k) => r is Err && r->Err_0.kind == k,
        },
{
    let e = opt_trim_string(exact_ref);
    let rt = opt_trim_string(range_text);
    let el = str_chars(e.as_str()).len();
    let rl = str_chars(rt.as_str()).len();
    if (el == 0) == (rl == 0) {
        return Err(CliError::invalid_args(to_string("must specify exactly one of --ref or --range")));
    }
    if el > 0 {
        return match normalize_defined_name_ref(e.as_str()) {
            Ok(v) => Ok(v),
            Err(m) => Err(CliError::invalid_args(m)),
        };
    }
    let sel = opt_trim_string(sheet_selector);
    if str_chars(sel.as_str()).len() == 0 {
        return Err(CliError::invalid_args(to_string("--sheet is required when using --range")));
    }
    let sheet = resolve_sheet(sheets, sel.as_str())?;
    let range = parse_cli_range(rt.as_str())?;
    let q = quote_defined_name_sheet(sheet.name.as_str());
    let a = absolute_range_ref(range);
    Ok(concat3(q.as_str(), "!", a.as_str()))
}


/// A name that counts toward the workbook-scope tally.
pub open spec fn counted(d: XlsxDefinedName) -> bool {
    d.scope@ == "workbook"@ && has_name(d)
}

/// How many workbook-scope names are spelled exactly `key`.
pub open spec fn wb_count(names: Seq<XlsxDefinedName>, key: Seq<char>) -> nat
    decreases names.len(),
{
    if names.len() == 0 {
        0
    } else {
        wb_count(names.drop_last(), key) + if counted(names.last()) && names.last().name@ == key {
            1nat
        } else {
            0nat
        }
    }
}

/// The distinct workbook-scope names, in the order they first occur.
pub open spec fn wb_keys(names: Seq<XlsxDefinedName>) -> Seq<Seq<char>>
    decreases names.len(),
{
    if names.len() == 0 {
        Seq::empty()
    } else {
        let k = wb_keys(names.drop_last());
        if counted(names.last()) && !k.contains(names.last().name@) {
            k.push(names.last().name@)
        } else {
            k
        }
    }
}

proof fn lemma_wb_count_bound(names: Seq<XlsxDefinedName>, key: Seq<char>)
    ensures
        wb_count(names, key) <= names.len(),
    decreases names.len(),
{
    if names.len() > 0 {
        lemma_wb_count_bound(names.drop_last(), key);
    }
}

proof fn lemma_wb_keys_distinct(names: Seq<XlsxDefinedName>)
    ensures
        forall|a: int, b: int| 0 <= a < b < wb_keys(names).len() ==> wb_keys(names)[a] != wb_keys(names)[b],
    decreases names.len(),
{
    if names.len() > 0 {
        lemma_wb_keys_distinct(names.drop_last());
        let k = wb_keys(names.drop_last());
        if counted(names.last()) && !k.contains(names.last().name@) {
            assert forall|a: int, b: int| 0 <= a < b < wb_keys(names).len() implies wb_keys(names)[a] != wb_keys(names)[b] by {
                if b == k.len() {
                    assert(wb_keys(names)[a] == k[a]);
                }
            }
        }
    }
}

proof fn lemma_wb_count_absent(names: Seq<XlsxDefinedName>, key: Seq<char>)
    requires
        !wb_keys(names).contains(key),
    ensures
        wb_count(names, key) == 0,
    decreases names.len(),
{
    if names.len() > 0 {
        let k = wb_keys(names.drop_last());
        if k.contains(key) {
            let j = choose|j: int| 0 <= j < k.len() && k[j] == key;
            if counted(names.last()) && !k.contains(names.last().name@) {
                assert(wb_keys(names)[j] == key);
            } else {
                assert(wb_keys(names)[j] == key);
            }
        }
        lemma_wb_count_absent(names.drop_last(), key);
        if counted(names.last()) && names.last().name@ == key {
            if !k.contains(key) {
                assert(wb_keys(names).last() == key);
            }
        }
    }
}

/// `workbook_scoped_defined_name_counts`: each distinct workbook-scope name
/// with how many entries carry it, in the order the names first occur.
pub fn workbook_scoped_defined_name_counts(names: &Vec<XlsxDefinedName>) -> (r: Vec<(String, usize)>)
    ensures
        r@.len() == wb_keys(names@).len(),
        forall|j: int| 0 <= j < r@.len() ==> (#[trigger] r@[j]).0@ == wb_keys(names@)[j] && r@[j].1 == wb_count(names@, wb_keys(names@)[j]),
{
    let mut out: Vec<(String, usize)> = Vec::new();
    let mut i: usize = 0;
    while i < names.len()
        invariant
            0 <= i <= names.len(),
            out@.len() == wb_keys(names@.take(i as int)).len(),
            forall|j: int| 0 <= j < out@.len() ==> (#[trigger] out@[j]).0@ == wb_keys(names@.take(i as int))[j]
                && out@[j].1 == wb_count(names@.take(i as int), wb_keys(names@.take(i as int))[j]),
        decreases names.len() - i,
    {
        let ghost pre = names@.take(i as int);
        let ghost nxt = names@.take(i + 1);
        proof {
            assert(nxt.drop_last() =~= pre);
            assert(nxt.last() == names@[i as int]);
        }
        let d = &names[i];
        let is_counted = str_eq(d.scope.as_str(), "workbook") && trim_chars(d.name.as_str()).len() > 0;
        if is_counted {
            let mut j: usize = 0;
            let mut found: Option<usize> = None;
            while j < out.len()
                invariant
                    0 <= j <= out@.len(),
                    found is None ==> forall|m: int| 0 <= m < j ==> (#[trigger] out@[m]).0@ != d.name@,
                    found is Some ==> found->0 < j && out@[found->0 as int].0@ == d.name@,
                decreases out@.len() - j,
            {
                if found.is_none() && str_eq(out[j].0.as_str(), d.name.as_str()) {
                    found = Some(j);
                }
                j = j + 1;
            }
            match found {
                Some(m) => {
                    proof {
                        lemma_wb_count_bound(pre, out@[m as int].0@);
                        assert(wb_keys(pre)[m as int] == d.name@);
                        assert(wb_keys(pre).contains(d.name@));
                    }
                    let cnt = out[m].1 + 1;
                    let key = out[m].0.clone();
                    let ghost before = out@;
                    out.set(m, (key, cnt));
                    proof {
                        assert(wb_keys(nxt) == wb_keys(pre));
                        lemma_wb_keys_distinct(pre);
                        assert forall|q: int| 0 <= q < out@.len() implies (#[trigger] out@[q]).0@ == wb_keys(nxt)[q]
                            && out@[q].1 == wb_count(nxt, wb_keys(nxt)[q]) by {
                            assert(before[q].0@ == wb_keys(pre)[q]);
                            if q != m {
                                assert(wb_keys(pre)[q] != wb_keys(pre)[m as int]);
                            }
                        }
                    }
                },
                None => {
                    proof {
                        assert forall|q: int| 0 <= q < wb_keys(pre).len() implies wb_keys(pre)[q] != d.name@ by {
                            assert(out@[q].0@ == wb_keys(pre)[q]);
                        }
                        assert(!wb_keys(pre).contains(d.name@));
                        lemma_wb_count_absent(pre, d.name@);
                        assert(wb_keys(nxt) == wb_keys(pre).push(d.name@));
                    }
                    let ghost before = out@;
                    out.push((d.name.clone(), 1));
                    proof {
                        assert forall|q: int| 0 <= q < out@.len() implies (#[trigger] out@[q]).0@ == wb_keys(nxt)[q]
                            && out@[q].1 == wb_count(nxt, wb_keys(nxt)[q]) by {
                            if q < before.len() {
                                assert(before[q].0@ == wb_keys(pre)[q]);
                                assert(wb_keys(pre)[q] != d.name@);
                            }
                        }
                    }
                },
            }
        } else {
            proof {
                assert(wb_keys(nxt) == wb_keys(pre));
                assert forall|q: int| 0 <= q < out@.len() implies (#[trigger] out@[q]).0@ == wb_keys(nxt)[q]
                    && out@[q].1 == wb_count(nxt, wb_keys(nxt)[q]) by {
                }
            }
        }
        i = i + 1;
    }
    proof {
        assert(names@.take(names@.len() as int) =~= names@);
    }
    out
}

/// The command that lists a workbook's defined names.
pub open spec fn names_list_command_spec(file: Seq<char>) -> Seq<char> {
    "ooxml --json xlsx names list "@ + command_arg_spec(file)
}

/// `xlsx_names_list_command`: the command that lists a workbook's defined names.
pub fn xlsx_names_list_command(file: &str) -> (r: String)
    ensures
        r@ == names_list_command_spec(file@),
{
    let f = command_arg(file);
    concat2("ooxml --json xlsx names list ", f.as_str())
}

/// The command that shows one defined name: by name, with the sheet scope
/// for a sheet-scoped name.
pub open spec fn name_show_command_spec(file: Seq<char>, d: XlsxDefinedName) -> Seq<char> {
    "ooxml --json xlsx names show "@ + command_arg_spec(file) + " --name "@ + command_arg_spec(d.name@) + if d.scope@
        == "sheet"@ && d.sheet_number > 0 {
        " --scope-sheet "@ + command_arg_spec("sheet:"@ + decimal(d.sheet_number as nat))
    } else {
        Seq::empty()
    }
}

/// `xlsx_name_show_command`: the command that shows one defined name.
pub fn xlsx_name_show_command(file: &str, name: &XlsxDefinedName) -> (r: String)
    ensures
        r@ == name_show_command_spec(file@, *name),
{
    let f = command_arg(file);
    let n = command_arg(name.name.as_str());
    let base = concat4("ooxml --json xlsx names show ", f.as_str(), " --name ", n.as_str());
    if str_eq(name.scope.as_str(), "sheet") && name.sheet_number > 0 {
        let num = u32_to_string(name.sheet_number);
        let sel = concat2("sheet:", num.as_str());
        let q = command_arg(sel.as_str());
        concat3(base.as_str(), " --scope-sheet ", q.as_str())
    } else {
        proof {
            assert(base@ + Seq::<char>::empty() =~= base@);
        }
        base
    }
}


/// The defined name a handle `H:xlsx/wb/name:n:<name>` names: `Ok(None)` for
/// a value that is no handle, `Err(())` for a malformed one.
pub open spec fn name_handle_spec(selector: Seq<char>) -> Result<Option<Seq<char>>, ()> {
    let v = trim(selector);
    let body = strip_all_prefix(v, "H:"@);
    let rest = after_first_slash(after_first_slash(body));
    if !has_prefix(v, "H:"@) {
        Ok(None)
    } else if first_piece(body) != "xlsx"@ {
        Err(())
    } else if piece_count(body) == 3 && first_piece(after_first_slash(body)) == "wb"@ && has_prefix(rest, "name:n:"@) {
        Ok(Some(strip_prefix_spec(rest, "name:n:"@).unwrap()))
    } else {
        Err(())
    }
}

/// `parse_xlsx_defined_name_handle`: the name a defined-name handle names.
pub fn parse_xlsx_defined_name_handle(selector: &str) -> (r: CliResult<Option<String>>)
    ensures
        r is Ok <==> name_handle_spec(selector@) is Ok,
        r is Ok ==> match r->Ok_0 {
            Some(n) => name_handle_spec(selector@) == Ok::<Option<Seq<char>>, ()>(Some(n@)),
            None => name_handle_spec(selector@) == Ok::<Option<Seq<char>>, ()>(None),
        },
        r is Err ==> r->Err_0.kind == ErrorKind::InvalidArgs,
{
    let v = trim_string(selector);
    if !is_xlsx_handle(selector) {
        return Ok(None);
    }
    proof {
        reveal_strlit("H:");
    }
    let body = str_strip_all_prefix(v.as_str(), "H:");
    let mismatch = concat3(
        "HANDLE_FORMAT_MISMATCH: handle format tag does not match package format \"xlsx\" (handle ",
        debug_quoted(v.as_str()).as_str(),
        ")",
    );
    let (p0, rest) = match split_first_slash(&body) {
        None => {
            if chars_eq_str(&body, "xlsx") {
                return Err(CliError::invalid_args(to_string("expected a defined-name handle (H:xlsx/wb/name:n:<name>)")));
            }
            return Err(CliError::invalid_args(mismatch));
        },
        Some(p) => p,
    };
    if !chars_eq_str(&p0, "xlsx") {
        return Err(CliError::invalid_args(mismatch));
    }
    if let Some((p1, rest2)) = split_first_slash(&rest) {
        if split_first_slash(&rest2).is_none() && chars_eq_str(&p1, "wb") {
            if let Some(n) = vec_strip_prefix(&rest2, "name:n:") {
                return Ok(Some(vec_to_string(&n)));
            }
        }
    }
    Err(CliError::invalid_args(to_string("expected a defined-name handle (H:xlsx/wb/name:n:<name>)")))
}

/// How many names of a list satisfy `p`.
pub open spec fn count_where(s: Seq<XlsxDefinedName>, p: spec_fn(XlsxDefinedName) -> bool) -> nat
    decreases s.len(),
{
    if s.len() == 0 {
        0
    } else {
        count_where(s.drop_last(), p) + if p(s.last()) {
            1nat
        } else {
            0nat
        }
    }
}

/// The first index of a name that satisfies `p`, or -1.
pub open spec fn first_where(s: Seq<XlsxDefinedName>, p: spec_fn(XlsxDefinedName) -> bool) -> int
    decreases s.len(),
{
    if s.len() == 0 {
        -1
    } else {
        let f = first_where(s.drop_last(), p);
        if f != -1 {
            f
        } else if p(s.last()) {
            s.len() - 1
        } else {
            -1
        }
    }
}

proof fn lemma_count_where(s: Seq<XlsxDefinedName>, p: spec_fn(XlsxDefinedName) -> bool)
    ensures
        count_where(s, p) <= s.len(),
        (count_where(s, p) == 0) <==> (first_where(s, p) == -1),
        first_where(s, p) != -1 ==> 0 <= first_where(s, p) < s.len() && p(s[first_where(s, p)]),
    decreases s.len(),
{
    if s.len() > 0 {
        lemma_count_where(s.drop_last(), p);
    }
}

/// A workbook-scope name spelled exactly `h`, as a handle names it.
pub open spec fn handle_match(h: Seq<char>) -> spec_fn(XlsxDefinedName) -> bool {
    |d: XlsxDefinedName| d.local_sheet_id is None && d.name@ == h
}

/// A name that a plain selector picks within the optional scope: by one of its
/// selectors or by its name, ASCII case aside.
pub open spec fn selector_match(sel: Seq<char>, scope_id: Option<i64>) -> spec_fn(XlsxDefinedName) -> bool {
    |d: XlsxDefinedName|
        (scope_id is None || d.local_sheet_id == scope_id) && (strs(d.selectors@).contains(sel)
            || ascii_lower_seq(d.name@) == ascii_lower_seq(sel))
}

/// The unique match of `p`: its index, `TargetNotFound` when none matches and
/// `InvalidArgs` when several do.
pub open spec fn unique_where(s: Seq<XlsxDefinedName>, p: spec_fn(XlsxDefinedName) -> bool) -> Result<int, ErrorKind> {
    let c = count_where(s, p);
    if c == 0 {
        Err(ErrorKind::TargetNotFound)
    } else if c == 1 {
        Ok(first_where(s, p))
    } else {
        Err(ErrorKind::InvalidArgs)
    }
}

/// Counts the names that satisfy a handle or selector match and finds the first.
fn count_matches(names: &Vec<XlsxDefinedName>, handle: Option<&str>, sel: &str, scope_id: Option<i64>) -> (r: (usize, usize))
    ensures
        ({
            let p = match handle {
                Some(h) => handle_match(h@),
                None => selector_match(sel@, scope_id),
            };
            &&& r.0 == count_where(names@, p)
            &&& (r.0 > 0 ==> r.1 == first_where(names@, p))
        }),
{
    let ghost p = match handle {
        Some(h) => handle_match(h@),
        None => selector_match(sel@, scope_id),
    };
    let mut count: usize = 0;
    let mut first: usize = 0;
    let mut i: usize = 0;
    while i < names.len()
        invariant
            0 <= i <= names.len(),
            p == (match handle {
                Some(h) => handle_match(h@),
                None => selector_match(sel@, scope_id),
            }),
            count == count_where(names@.take(i as int), p),
            count > 0 ==> first == first_where(names@.take(i as int), p),
            count <= i,
        decreases names.len() - i,
    {
        let d = &names[i];
        let hit = match handle {
            Some(h) => d.local_sheet_id.is_none() && str_eq(d.name.as_str(), h),
            None => {
                let scoped = match scope_id {
                    Some(_) => d.local_sheet_id == scope_id,
                    None => true,
                };
                scoped && (list_contains(&d.selectors, sel) || str_eq_ignore_ascii_case(d.name.as_str(), sel))
            },
        };
        proof {
            let t = names@.take(i + 1);
            assert(t.drop_last() =~= names@.take(i as int));
            assert(t.last() == names@[i as int]);
            assert(hit == p(names@[i as int]));
            lemma_count_where(names@.take(i as int), p);
        }
        if hit {
            if count == 0 {
                first = i;
            }
            count = count + 1;
        }
        i = i + 1;
    }
    proof {
        assert(names@.take(names@.len() as int) =~= names@);
    }
    (count, first)
}

/// Whether a list of strings holds `s`.
fn list_contains(list: &Vec<String>, s: &str) -> (r: bool)
    ensures
        r == strs(list@).contains(s@),
{
    let mut i: usize = 0;
    while i < list.len()
        invariant
            0 <= i <= list.len(),
            forall|k: int| 0 <= k < i ==> (#[trigger] list@[k])@ != s@,
        decreases list.len() - i,
    {
        if str_eq(list[i].as_str(), s) {
            proof {
                assert(strs(list@)[i as int] == s@);
            }
            return true;
        }
        i = i + 1;
    }
    proof {
        if strs(list@).contains(s@) {
            let k = choose|k: int| 0 <= k < strs(list@).len() && strs(list@)[k] == s@;
            assert(list@[k]@ == s@);
        }
    }
    false
}

/// `resolve_xlsx_defined_name_handle`: the one workbook-scope name spelled as
/// the handle says.
pub fn resolve_xlsx_defined_name_handle(names: &Vec<XlsxDefinedName>, selector: &str, handle_name: &str) -> (r:
    CliResult<XlsxDefinedName>)
    ensures
        match unique_where(names@, handle_match(handle_name@)) {
            Ok(i) => r is Ok && 0 <= i < names@.len() && same_name(r->Ok_0, names@[i]),
            Err(k) => r is Err && r->Err_0.kind == k,
        },
{
    let (count, first) = count_matches(names, Some(handle_name), "", None);
    proof {
        lemma_count_where(names@, handle_match(handle_name@));
    }
    if count == 1 {
        Ok(names[first].clone_name())
    } else if count == 0 {
        Err(CliError::target_not_found(concat5(
            "HANDLE_STALE: no defined name ",
            debug_quoted(handle_name).as_str(),
            " in workbook (selector ",
            debug_quoted(selector).as_str(),
            ")",
        )))
    } else {
        Err(CliError::invalid_args(concat5(
            "HANDLE_AMBIGUOUS: defined name ",
            debug_quoted(handle_name).as_str(),
            " is not unique in workbook (selector ",
            debug_quoted(selector).as_str(),
            ")",
        )))
    }
}

/// The sheet scope a `--scope-sheet` flag selects in: none without the flag,
/// else the `localSheetId` of the sheet it names.
pub open spec fn select_scope_spec(sheets: Seq<WorkbookSheet>, scope_sheet: Option<&str>) -> Result<Option<i64>, ErrorKind> {
    match scope_sheet {
        Some(s) if !is_blank(s@) => match resolve_sheet_spec(sheets, s@) {
            Ok(i) => Ok(Some((sheets[i].position as int - 1) as i64)),
            Err(k) => Err(k),
        },
        _ => Ok(None),
    }
}

/// The index of the name a selector picks, or why none is picked.
pub open spec fn select_spec(
    sheets: Seq<WorkbookSheet>,
    names: Seq<XlsxDefinedName>,
    selector: Seq<char>,
    scope_sheet: Option<&str>,
) -> Result<int, ErrorKind> {
    let sel = trim(selector);
    if sel.len() == 0 {
        Err(ErrorKind::InvalidArgs)
    } else {
        match name_handle_spec(sel) {
            Err(_) => Err(ErrorKind::InvalidArgs),
            Ok(Some(h)) => unique_where(names, handle_match(h)),
            Ok(None) => match select_scope_spec(sheets, scope_sheet) {
                Err(k) => Err(k),
                Ok(scope_id) => unique_where(names, selector_match(sel, scope_id)),
            },
        }
    }
}

/// `select_xlsx_defined_name`: the one defined name a selector (a handle, a
/// selector or a name) picks, within the `--scope-sheet` sheet where given.
pub fn select_xlsx_defined_name(
    sheets: &Vec<WorkbookSheet>,
    names: &Vec<XlsxDefinedName>,
    selector: &str,
    scope_sheet: Option<&str>,
) -> (r: CliResult<XlsxDefinedName>)
    ensures
        match select_spec(sheets@, names@, selector@, scope_sheet) {
            Ok(i) => r is Ok && 0 <= i < names@.len() && same_name(r->Ok_0, names@[i]),
            Err(k) => r is Err && r->Err_0.kind == k,
        },
{
    let sel = trim_string(selector);
    if str_chars(sel.as_str()).len() == 0 {
        return Err(CliError::invalid_args(to_string("--name is required")));
    }
    if let Some(h) = parse_xlsx_defined_name_handle(sel.as_str())? {
        return resolve_xlsx_defined_name_handle(names, sel.as_str(), h.as_str());
    }
    let scope_id = if is_present(scope_sheet) {
        let s = scope_sheet.unwrap();
        let sheet = resolve_sheet(sheets, s)?;
        let p: i64 = sheet.position as i64;
        Some(p - 1)
    } else {
        None
    };
    let (count, first) = count_matches(names, None, sel.as_str(), scope_id);
    proof {
        lemma_count_where(names@, selector_match(sel@, scope_id));
    }
    if count == 1 {
        Ok(names[first].clone_name())
    } else if count == 0 {
        Err(CliError::target_not_found(concat3(
            "defined name not found: ",
            sel.as_str(),
            "; discover with `ooxml --json xlsx names list <file>`",
        )))
    } else {
        Err(CliError::invalid_args(concat3("defined name ", debug_quoted(sel.as_str()).as_str(), " is ambiguous; use --scope-sheet")))
    }
}


/// The names scoped to the sheet with `localSheetId` `id`, in list order.
pub open spec fn in_sheet_scope(names: Seq<XlsxDefinedName>, id: i64) -> Seq<XlsxDefinedName>
    decreases names.len(),
{
    if names.len() == 0 {
        Seq::empty()
    } else {
        let f = in_sheet_scope(names.drop_last(), id);
        if names.last().local_sheet_id == Some(id) {
            f.push(names.last())
        } else {
            f
        }
    }
}

/// Two lists of names that hold the same values, entry by entry.
pub open spec fn same_names(a: Seq<XlsxDefinedName>, b: Seq<XlsxDefinedName>) -> bool {
    a.len() == b.len() && forall|i: int| 0 <= i < a.len() ==> same_name(#[trigger] a[i], b[i])
}

/// `filter_xlsx_defined_names_by_scope_sheet`: all names without a
/// `--scope-sheet` flag, else those scoped to the sheet it names.
pub fn filter_xlsx_defined_names_by_scope_sheet(
    sheets: &Vec<WorkbookSheet>,
    names: Vec<XlsxDefinedName>,
    scope_sheet: Option<&str>,
) -> (r: CliResult<Vec<XlsxDefinedName>>)
    ensures
        match select_scope_spec(sheets@, scope_sheet) {
            Err(k) => r is Err && r->Err_0.kind == k,
            Ok(None) => r is Ok && r->Ok_0@ == names@,
            Ok(Some(id)) => r is Ok && same_names(r->Ok_0@, in_sheet_scope(names@, id)),
        },
{
    if !is_present(scope_sheet) {
        return Ok(names);
    }
    let s = scope_sheet.unwrap();
    let sheet = resolve_sheet(sheets, s)?;
    let p: i64 = sheet.position as i64;
    let id = p - 1;
    let mut out: Vec<XlsxDefinedName> = Vec::new();
    let mut i: usize = 0;
    while i < names.len()
        invariant
            0 <= i <= names.len(),
            same_names(out@, in_sheet_scope(names@.take(i as int), id)),
        decreases names.len() - i,
    {
        proof {
            let t = names@.take(i + 1);
            assert(t.drop_last() =~= names@.take(i as int));
            assert(t.last() == names@[i as int]);
        }
        if names[i].local_sheet_id == Some(id) {
            let c = names[i].clone_name();
            out.push(c);
        }
        i = i + 1;
    }
    proof {
        assert(names@.take(names@.len() as int) =~= names@);
    }
    Ok(out)
}


/// The flags of a defined-name edit.
pub struct XlsxNameMutationOptions<'a> {
    pub name: Option<&'a str>,
    pub new_name: Option<&'a str>,
    pub ref_: Option<&'a str>,
    pub sheet: Option<&'a str>,
    pub range: Option<&'a str>,
    pub scope_sheet: Option<&'a str>,
    pub expect_ref: Option<&'a str>,
    pub hidden: bool,
    pub comment: Option<&'a str>,
    pub out: Option<&'a str>,
    pub backup: Option<&'a str>,
    pub dry_run: bool,
    pub no_validate: bool,
    pub in_place: bool,
}

/// The outcome of a defined-name edit: the new list of names, the name added
/// or changed, the name deleted, and what the changed name held before.
#[derive(Debug)]
pub struct XlsxNameMutationPlan {
    pub names: Vec<XlsxDefinedName>,
    pub changed: Option<XlsxDefinedName>,
    pub deleted: Option<XlsxDefinedName>,
    pub previous_name: String,
    pub previous_ref: String,
}

/// An optional text, empty when absent.
pub open spec fn opt_text(o: Option<&str>) -> Seq<char> {
    match o {
        Some(s) => s@,
        None => Seq::empty(),
    }
}

/// Whether an `--expect-ref` check fails on the current reference.
pub open spec fn expect_fails(actual: Seq<char>, expected: Option<&str>) -> bool {
    !(expected_ref_spec(expected).len() == 0 || actual == expected_ref_spec(expected))
}

/// The index of the entry an update, rename or delete works on, after the
/// checks that come before it.
pub open spec fn target_spec(
    sheets: Seq<WorkbookSheet>,
    names: Seq<XlsxDefinedName>,
    options: XlsxNameMutationOptions,
) -> Result<int, ErrorKind> {
    match select_spec(sheets, names, opt_text(options.name), options.scope_sheet) {
        Err(k) => Err(k),
        Ok(j) => match defined_name_index_spec(names, names[j]) {
            Some(i) => Ok(i),
            None => Err(ErrorKind::Unexpected),
        },
    }
}

/// The error a defined-name edit stops with, or none when it succeeds.
pub open spec fn name_mutation_error(
    sheets: Seq<WorkbookSheet>,
    names: Seq<XlsxDefinedName>,
    action: Seq<char>,
    options: XlsxNameMutationOptions,
) -> Option<ErrorKind> {
    let nm = opt_trim(options.name);
    let new_name = opt_trim(options.new_name);
    let refs = ref_from_flags_spec(sheets, options.ref_, options.sheet, options.range);
    let sel = select_spec(sheets, names, opt_text(options.name), options.scope_sheet);
    if action == "add"@ {
        if nm.len() == 0 || defined_name_problem(nm) is Some {
            Some(ErrorKind::InvalidArgs)
        } else if refs is Err {
            Some(refs->Err_0)
        } else {
            match name_scope_spec(sheets, options.scope_sheet) {
                Err(k) => Some(k),
                Ok(id) => if is_duplicate(names, nm, id, None) {
                    Some(ErrorKind::InvalidArgs)
                } else {
                    None
                },
            }
        }
    } else if action == "update"@ || action == "rename"@ || action == "delete"@ {
        if sel is Err {
            Some(sel->Err_0)
        } else if action == "update"@ && refs is Err {
            Some(refs->Err_0)
        } else if action == "rename"@ && defined_name_problem(new_name) is Some {
            Some(ErrorKind::InvalidArgs)
        } else {
            match target_spec(sheets, names, options) {
                Err(k) => Some(k),
                Ok(i) => if expect_fails(trim(names[i].ref_text@), options.expect_ref) {
                    Some(ErrorKind::InvalidArgs)
                } else if action == "rename"@ && is_duplicate(names, new_name, names[i].local_sheet_id, Some(i as usize)) {
                    Some(ErrorKind::InvalidArgs)
                } else {
                    None
                },
            }
        }
    } else {
        Some(ErrorKind::Unexpected)
    }
}

/// A name with another name and reference, its selectors recomputed.
pub open spec fn edited(a: XlsxDefinedName, b: XlsxDefinedName, name: Seq<char>, ref_text: Seq<char>) -> bool {
    &&& a.number == b.number
    &&& a.name@ == name
    &&& a.scope@ == b.scope@
    &&& a.local_sheet_id == b.local_sheet_id
    &&& a.sheet_number == b.sheet_number
    &&& a.sheet_name@ == b.sheet_name@
    &&& a.ref_text@ == ref_text
    &&& a.hidden == b.hidden
    &&& a.comment@ == b.comment@
    &&& a.description@ == b.description@
    &&& selectors_current(a)
}

/// The name an add creates at the end of a list of `count` names.
pub open spec fn added_name(
    a: XlsxDefinedName,
    sheets: Seq<WorkbookSheet>,
    count: int,
    name: Seq<char>,
    id: Option<i64>,
    ref_text: Seq<char>,
    options: XlsxNameMutationOptions,
) -> bool {
    &&& a.number == count + 1
    &&& a.name@ == name
    &&& a.local_sheet_id == id
    &&& a.scope@ == scope_text_spec(id)
    &&& a.sheet_number == match id {
        Some(v) => sheet_number_of(v),
        None => 0,
    }
    &&& a.sheet_name@ == match id {
        Some(v) => if 0 <= v < sheets.len() {
            sheets[v as int].name@
        } else {
            Seq::empty()
        },
        None => Seq::empty(),
    }
    &&& a.ref_text@ == ref_text
    &&& a.hidden == options.hidden
    &&& a.comment@ == opt_trim(options.comment)
    &&& a.description@ == Seq::<char>::empty()
    &&& selectors_current(a)
}

/// Two lists that agree everywhere but at `i`.
pub open spec fn same_except(a: Seq<XlsxDefinedName>, b: Seq<XlsxDefinedName>, i: int) -> bool {
    a.len() == b.len() && forall|k: int| 0 <= k < a.len() && k != i ==> same_name(#[trigger] a[k], b[k])
}

/// The message an add or a rename stops with when its name is already taken
/// in the scope, ASCII case aside: `None` where the edit does not stop there.
pub open spec fn name_taken_message(
    sheets: Seq<WorkbookSheet>,
    names: Seq<XlsxDefinedName>,
    action: Seq<char>,
    options: XlsxNameMutationOptions,
) -> Option<Seq<char>> {
    let nm = opt_trim(options.name);
    let new_name = opt_trim(options.new_name);
    let refs = ref_from_flags_spec(sheets, options.ref_, options.sheet, options.range);
    let sel = select_spec(sheets, names, opt_text(options.name), options.scope_sheet);
    if action == "add"@ {
        if nm.len() == 0 || defined_name_problem(nm) is Some || refs is Err {
            None
        } else {
            match name_scope_spec(sheets, options.scope_sheet) {
                Err(_) => None,
                Ok(id) => if is_duplicate(names, nm, id, None) {
                    Some(
                        "failed to add defined name: defined name "@ + quoted(nm) + " already exists in "@
                            + scope_text_spec(id) + " scope"@,
                    )
                } else {
                    None
                },
            }
        }
    } else if action == "rename"@ {
        if sel is Err || defined_name_problem(new_name) is Some {
            None
        } else {
            match target_spec(sheets, names, options) {
                Err(_) => None,
                Ok(i) => if expect_fails(trim(names[i].ref_text@), options.expect_ref) {
                    None
                } else if is_duplicate(names, new_name, names[i].local_sheet_id, Some(i as usize)) {
                    Some(
                        "failed to rename defined name: defined name "@ + quoted(new_name) + " already exists in "@
                            + scope_text_spec(names[i].local_sheet_id) + " scope"@,
                    )
                } else {
                    None
                },
            }
        }
    } else {
        None
    }
}

/// What a successful defined-name edit gives.
pub open spec fn name_mutation_done(
    sheets: Seq<WorkbookSheet>,
    names: Seq<XlsxDefinedName>,
    action: Seq<char>,
    options: XlsxNameMutationOptions,
    plan: XlsxNameMutationPlan,
) -> bool {
    let out = plan.names@;
    let refs = ref_from_flags_spec(sheets, options.ref_, options.sheet, options.range);
    let i = target_spec(sheets, names, options)->Ok_0;
    if action == "add"@ {
        let id = name_scope_spec(sheets, options.scope_sheet)->Ok_0;
        &&& out.len() == names.len() + 1
        &&& forall|k: int| 0 <= k < names.len() ==> same_name(#[trigger] out[k], names[k])
        &&& added_name(out.last(), sheets, names.len() as int, opt_trim(options.name), id, refs->Ok_0, options)
        &&& plan.changed is Some && same_name(plan.changed->0, out.last())
        &&& plan.deleted is None
        &&& plan.previous_name@ == Seq::<char>::empty()
        &&& plan.previous_ref@ == Seq::<char>::empty()
    } else if action == "update"@ || action == "rename"@ {
        let name = if action == "rename"@ {
            opt_trim(options.new_name)
        } else {
            names[i].name@
        };
        let ref_text = if action == "update"@ {
            refs->Ok_0
        } else {
            names[i].ref_text@
        };
        &&& same_except(out, names, i)
        &&& edited(out[i], names[i], name, ref_text)
        &&& plan.changed is Some && same_name(plan.changed->0, out[i])
        &&& plan.deleted is None
        &&& plan.previous_name@ == if action == "rename"@ {
            names[i].name@
        } else {
            Seq::empty()
        }
        &&& plan.previous_ref@ == trim(names[i].ref_text@)
    } else {
        &&& out.len() == names.len() - 1
        &&& forall|k: int| 0 <= k < i ==> renumbered(#[trigger] out[k], names[k], k + 1)
        &&& forall|k: int| i <= k < out.len() ==> renumbered(#[trigger] out[k], names[k + 1], k + 1)
        &&& plan.changed is None
        &&& plan.deleted is Some && same_name(plan.deleted->0, names[i])
        &&& plan.previous_name@ == Seq::<char>::empty()
        &&& plan.previous_ref@ == trim(names[i].ref_text@)
    }
}

/// No two defined names share a name (ASCII case aside) in the same scope.
pub open spec fn names_distinct(names: Seq<XlsxDefinedName>) -> bool {
    forall|i: int, j: int|
        0 <= i < j < names.len() ==> !#[trigger] name_matches(names[i], names[j].name@, names[j].local_sheet_id)
            || !#[trigger] name_matches(names[j], names[i].name@, names[i].local_sheet_id)
}

proof fn lemma_distinct_add(names: Seq<XlsxDefinedName>, out: Seq<XlsxDefinedName>, nm: Seq<char>, id: Option<i64>)
    requires
        names_distinct(names),
        out.len() == names.len() + 1,
        forall|k: int| 0 <= k < names.len() ==> same_name(#[trigger] out[k], names[k]),
        out.last().name@ == nm,
        out.last().local_sheet_id == id,
        !is_duplicate(names, nm, id, None),
    ensures
        names_distinct(out),
{
    let n = names.len() as int;
    assert forall|a: int, b: int| 0 <= a < b < out.len() implies !#[trigger] name_matches(
        out[a],
        out[b].name@,
        out[b].local_sheet_id,
    ) || !#[trigger] name_matches(out[b], out[a].name@, out[a].local_sheet_id) by {
        assert(same_name(out[a], names[a]));
        if b < n {
            assert(same_name(out[b], names[b]));
            assert(!name_matches(names[a], names[b].name@, names[b].local_sheet_id) || !name_matches(
                names[b],
                names[a].name@,
                names[a].local_sheet_id,
            ));
        } else {
            assert(out[b] == out.last());
            assert(!name_matches(names[a], out[b].name@, out[b].local_sheet_id));
        }
    }
}

proof fn lemma_distinct_edit(names: Seq<XlsxDefinedName>, out: Seq<XlsxDefinedName>, i: int, nm: Seq<char>)
    requires
        names.len() <= usize::MAX,
        names_distinct(names),
        0 <= i < names.len(),
        same_except(out, names, i),
        out[i].name@ == nm,
        out[i].local_sheet_id == names[i].local_sheet_id,
        nm == names[i].name@ || !is_duplicate(names, nm, names[i].local_sheet_id, Some(i as usize)),
    ensures
        names_distinct(out),
{
    assert forall|a: int, b: int| 0 <= a < b < out.len() implies !#[trigger] name_matches(
        out[a],
        out[b].name@,
        out[b].local_sheet_id,
    ) || !#[trigger] name_matches(out[b], out[a].name@, out[a].local_sheet_id) by {
        if a != i {
            assert(same_name(out[a], names[a]));
        }
        if b != i {
            assert(same_name(out[b], names[b]));
        }
        if nm == names[i].name@ || (a != i && b != i) {
            assert(!name_matches(names[a], names[b].name@, names[b].local_sheet_id) || !name_matches(
                names[b],
                names[a].name@,
                names[a].local_sheet_id,
            ));
        } else {
            let k = if a == i {
                b
            } else {
                a
            };
            if name_matches(names[k], nm, names[i].local_sheet_id) {
                assert(Some(i as usize) != Some(k as usize));
                assert(is_duplicate(names, nm, names[i].local_sheet_id, Some(i as usize)));
            }
        }
    }
}

proof fn lemma_distinct_delete(names: Seq<XlsxDefinedName>, out: Seq<XlsxDefinedName>, i: int)
    requires
        names_distinct(names),
        out.len() == names.len() - 1,
        forall|k: int| 0 <= k < i ==> renumbered(#[trigger] out[k], names[k], k + 1),
        forall|k: int| i <= k < out.len() ==> renumbered(#[trigger] out[k], names[k + 1], k + 1),
    ensures
        names_distinct(out),
{
    assert forall|a: int, b: int| 0 <= a < b < out.len() implies !#[trigger] name_matches(
        out[a],
        out[b].name@,
        out[b].local_sheet_id,
    ) || !#[trigger] name_matches(out[b], out[a].name@, out[a].local_sheet_id) by {
        let a0 = if a < i {
            a
        } else {
            a + 1
        };
        let b0 = if b < i {
            b
        } else {
            b + 1
        };
        assert(renumbered(out[a], names[a0], a + 1));
        assert(renumbered(out[b], names[b0], b + 1));
        assert(!name_matches(names[a0], names[b0].name@, names[b0].local_sheet_id) || !name_matches(
            names[b0],
            names[a0].name@,
            names[a0].local_sheet_id,
        ));
    }
}

/// A successful add, update, rename or delete keeps the defined names
/// distinct: no two share a name, ASCII case aside, in one scope.
pub proof fn lemma_name_mutation_keeps_names_distinct(
    sheets: Seq<WorkbookSheet>,
    names: Seq<XlsxDefinedName>,
    action: Seq<char>,
    options: XlsxNameMutationOptions,
    plan: XlsxNameMutationPlan,
)
    requires
        names.len() <= usize::MAX,
        names_distinct(names),
        name_mutation_error(sheets, names, action, options) is None,
        name_mutation_done(sheets, names, action, options, plan),
    ensures
        names_distinct(plan.names@),
{
    let out = plan.names@;
    reveal_strlit("add");
    reveal_strlit("update");
    reveal_strlit("rename");
    reveal_strlit("delete");
    assert("update"@[0] != "rename"@[0]);
    if action == "add"@ {
        let id = name_scope_spec(sheets, options.scope_sheet)->Ok_0;
        lemma_distinct_add(names, out, opt_trim(options.name), id);
    } else if action == "update"@ || action == "rename"@ {
        lemma_target_in_range(sheets, names, options);
        let i = target_spec(sheets, names, options)->Ok_0;
        let nm = if action == "rename"@ {
            opt_trim(options.new_name)
        } else {
            names[i].name@
        };
        lemma_distinct_edit(names, out, i, nm);
    } else {
        lemma_target_in_range(sheets, names, options);
        let i = target_spec(sheets, names, options)->Ok_0;
        lemma_distinct_delete(names, out, i);
    }
}

/// A copy of a list of names.
pub fn clone_names(names: &Vec<XlsxDefinedName>) -> (r: Vec<XlsxDefinedName>)
    ensures
        same_names(r@, names@),
{
    let mut out: Vec<XlsxDefinedName> = Vec::new();
    let mut i: usize = 0;
    while i < names.len()
        invariant
            0 <= i <= names.len(),
            out@.len() == i,
            forall|k: int| 0 <= k < i ==> same_name(#[trigger] out@[k], names@[k]),
        decreases names.len() - i,
    {
        out.push(names[i].clone_name());
        i = i + 1;
    }
    out
}

/// The result of a successful `--expect-ref` check.
fn expect_ok(actual: &str, expected: Option<&str>, verb: &str) -> (r: CliResult<()>)
    ensures
        r is Ok <==> !expect_fails(actual@, expected),
        r is Err ==> r->Err_0.kind == ErrorKind::InvalidArgs,
{
    match check_expected_defined_name_ref(actual, expected) {
        Ok(()) => Ok(()),
        Err(m) => Err(CliError::invalid_args(concat4("failed to ", verb, " defined name: ", m.as_str()))),
    }
}

/// The edit part of `xlsx_names_mutate`: adds, updates, renames or deletes a
/// defined name in the workbook's list, with the checks the command makes
/// (a valid and unused name, exactly one way to give the reference, the
/// `--expect-ref` guard).
pub fn plan_xlsx_name_mutation(
    sheets: &Vec<WorkbookSheet>,
    names: &Vec<XlsxDefinedName>,
    action: &str,
    options: &XlsxNameMutationOptions,
) -> (r: CliResult<XlsxNameMutationPlan>)
    requires
        names@.len() < u32::MAX,
    ensures
        match name_mutation_error(sheets@, names@, action@, *options) {
            Some(k) => r is Err && r->Err_0.kind == k,
            None => r is Ok && name_mutation_done(sheets@, names@, action@, *options, r->Ok_0),
        },
        name_taken_message(sheets@, names@, action@, *options) is Some ==> r is Err && r->Err_0.message@
            == name_taken_message(sheets@, names@, action@, *options).unwrap(),
{
    if str_eq(action, "add") {
        return plan_add_name(sheets, names, options);
    }
    let is_update = str_eq(action, "update");
    let is_rename = str_eq(action, "rename");
    let is_delete = str_eq(action, "delete");
    if !(is_update || is_rename || is_delete) {
        return Err(CliError::unexpected(concat2("unknown name mutation action ", debug_quoted(action).as_str())));
    }
    plan_edit_name(sheets, names, action, options)
}

/// The add case of [`plan_xlsx_name_mutation`].
#[verifier::rlimit(40)]
fn plan_add_name(
    sheets: &Vec<WorkbookSheet>,
    names: &Vec<XlsxDefinedName>,
    options: &XlsxNameMutationOptions,
) -> (r: CliResult<XlsxNameMutationPlan>)
    requires
        names@.len() < u32::MAX,
    ensures
        match name_mutation_error(sheets@, names@, "add"@, *options) {
            Some(k) => r is Err && r->Err_0.kind == k,
            None => r is Ok && name_mutation_done(sheets@, names@, "add"@, *options, r->Ok_0),
        },
        name_taken_message(sheets@, names@, "add"@, *options) is Some ==> r is Err && r->Err_0.message@
            == name_taken_message(sheets@, names@, "add"@, *options).unwrap(),
{
    let mut updated = clone_names(names);
    let nm = opt_trim_string(options.name);
    if str_chars(nm.as_str()).len() == 0 {
        return Err(CliError::invalid_args(to_string("--name is required")));
    }
    if let Err(m) = validate_defined_name(nm.as_str()) {
        return Err(CliError::invalid_args(concat2("failed to add defined name: ", m.as_str())));
    }
    let ref_text = resolve_defined_name_ref_from_flags(sheets, options.ref_, options.sheet, options.range)?;
    let local_sheet_id = resolve_defined_name_scope(sheets, options.scope_sheet)?;
    if duplicate_defined_name(&updated, nm.as_str(), local_sheet_id, None) {
        proof {
            let k = choose|k: int| 0 <= k < updated@.len() && None::<usize> != Some(k as usize) && #[trigger] name_matches(updated@[k], nm@, local_sheet_id);
            assert(name_matches(names@[k], nm@, local_sheet_id));
        }
        return Err(CliError::invalid_args(concat5(
            "failed to add defined name: defined name ",
            debug_quoted(nm.as_str()).as_str(),
            " already exists in ",
            defined_name_scope_text(local_sheet_id),
            " scope",
        )));
    }
    proof {
        if is_duplicate(names@, nm@, local_sheet_id, None) {
            let k = choose|k: int| 0 <= k < names@.len() && None::<usize> != Some(k as usize) && #[trigger] name_matches(names@[k], nm@, local_sheet_id);
            assert(name_matches(updated@[k], nm@, local_sheet_id));
        }
    }
    let mut added = XlsxDefinedName {
        number: (updated.len() as u32) + 1,
        name: nm,
        scope: to_string(defined_name_scope_text(local_sheet_id)),
        local_sheet_id,
        sheet_number: 0,
        sheet_name: String::new(),
        ref_text,
        hidden: options.hidden,
        comment: opt_trim_string(options.comment),
        description: String::new(),
        primary_selector: String::new(),
        selectors: Vec::new(),
    };
    apply_defined_name_sheet_context(&mut added, sheets);
    added.apply_selectors();
    let changed = added.clone_name();
    let ghost before = updated@;
    updated.push(added);
    proof {
        assert forall|k: int| 0 <= k < names@.len() implies same_name(#[trigger] updated@[k], names@[k]) by {
            assert(updated@[k] == before[k]);
        }
    }
    return Ok(XlsxNameMutationPlan {
        names: updated,
        changed: Some(changed),
        deleted: None,
        previous_name: String::new(),
        previous_ref: String::new(),
    });
}

/// The update, rename and delete cases of [`plan_xlsx_name_mutation`].
#[verifier::rlimit(60)]
fn plan_edit_name(
    sheets: &Vec<WorkbookSheet>,
    names: &Vec<XlsxDefinedName>,
    action: &str,
    options: &XlsxNameMutationOptions,
) -> (r: CliResult<XlsxNameMutationPlan>)
    requires
        names@.len() < u32::MAX,
        action@ == "update"@ || action@ == "rename"@ || action@ == "delete"@,
    ensures
        match name_mutation_error(sheets@, names@, action@, *options) {
            Some(k) => r is Err && r->Err_0.kind == k,
            None => r is Ok && name_mutation_done(sheets@, names@, action@, *options, r->Ok_0),
        },
        name_taken_message(sheets@, names@, action@, *options) is Some ==> r is Err && r->Err_0.message@
            == name_taken_message(sheets@, names@, action@, *options).unwrap(),
{
    let is_update = str_eq(action, "update");
    let is_rename = str_eq(action, "rename");
    let is_delete = str_eq(action, "delete");
    proof {
        lemma_action_words();
    }
    let mut updated = clone_names(names);
    let verb = if is_update {
        "update"
    } else if is_rename {
        "rename"
    } else {
        "delete"
    };
    let target_name = match options.name {
        Some(n) => n,
        None => "",
    };
    proof {
        if options.name is None {
            reveal_strlit("");
        }
    }
    proof {
        lemma_select_same(sheets@, updated@, names@, opt_text(options.name), options.scope_sheet);
        assert(target_name@ == opt_text(options.name));
    }
    let target = match select_xlsx_defined_name(sheets, &updated, target_name, options.scope_sheet) {
        Ok(t) => t,
        Err(e) => {
            proof {
                let sel = select_spec(sheets@, names@, opt_text(options.name), options.scope_sheet);
                assert(sel is Err);
                assert(sel->Err_0 == e.kind);
                assert(action@ != "add"@);
                assert(name_mutation_error(sheets@, names@, action@, *options) == Some(e.kind));
            }
            return Err(e);
        },
    };
    let ghost j = select_spec(sheets@, updated@, opt_text(options.name), options.scope_sheet)->Ok_0;
    let mut new_ref = String::new();
    if is_update {
        new_ref = resolve_defined_name_ref_from_flags(sheets, options.ref_, options.sheet, options.range)?;
    }
    let new_name = opt_trim_string(options.new_name);
    if is_rename {
        if let Err(m) = validate_defined_name(new_name.as_str()) {
            return Err(CliError::invalid_args(concat2("failed to rename defined name: ", m.as_str())));
        }
    }
    proof {
        lemma_index_same(updated@, names@, target, names@[j]);
    }
    let index = defined_name_index(&updated, &target)?;
    let previous_ref = trim_string(updated[index].ref_text.as_str());
    proof {
        assert(same_name(updated@[index as int], names@[index as int]));
        assert(target_spec(sheets@, names@, *options) == Ok::<int, ErrorKind>(index as int));
        assert(previous_ref@ == trim(names@[index as int].ref_text@));
    }
    expect_ok(previous_ref.as_str(), options.expect_ref, verb)?;
    if is_delete {
        let ghost before = updated@;
        let removed = updated.remove(index);
        proof {
            assert forall|k: int| 0 <= k < updated@.len() implies same_name(#[trigger] updated@[k], names@[if k < index { k } else { k + 1 }]) by {
                if k < index {
                    assert(updated@[k] == before[k]);
                } else {
                    assert(updated@[k] == before[k + 1]);
                }
            }
        }
        let ghost mid = updated@;
        renumber_defined_names(&mut updated);
        proof {
            assert forall|k: int| 0 <= k < index implies renumbered(#[trigger] updated@[k], names@[k], k + 1) by {
                assert(renumbered(updated@[k], mid[k], k + 1));
                assert(same_name(mid[k], names@[k]));
            }
            assert forall|k: int| index <= k < updated@.len() implies renumbered(#[trigger] updated@[k], names@[k + 1], k + 1) by {
                assert(renumbered(updated@[k], mid[k], k + 1));
                assert(same_name(mid[k], names@[k + 1]));
            }
            assert(same_name(removed, names@[index as int]));
        }
        return Ok(XlsxNameMutationPlan {
            names: updated,
            changed: None,
            deleted: Some(removed),
            previous_name: String::new(),
            previous_ref,
        });
    }
    let local_sheet_id = updated[index].local_sheet_id;
    if is_rename && duplicate_defined_name(&updated, new_name.as_str(), local_sheet_id, Some(index)) {
        proof {
            let k = choose|k: int| 0 <= k < updated@.len() && Some(index) != Some(k as usize) && #[trigger] name_matches(updated@[k], new_name@, local_sheet_id);
            assert(name_matches(names@[k], new_name@, local_sheet_id));
        }
        return Err(CliError::invalid_args(concat5(
            "failed to rename defined name: defined name ",
            debug_quoted(new_name.as_str()).as_str(),
            " already exists in ",
            defined_name_scope_text(local_sheet_id),
            " scope",
        )));
    }
    proof {
        if is_rename && is_duplicate(names@, new_name@, local_sheet_id, Some(index)) {
            let k = choose|k: int| 0 <= k < names@.len() && Some(index) != Some(k as usize) && #[trigger] name_matches(names@[k], new_name@, local_sheet_id);
            assert(name_matches(updated@[k], new_name@, local_sheet_id));
        }
    }
    let mut item = updated[index].clone_name();
    let mut previous_name = String::new();
    if is_rename {
        previous_name = item.name.clone();
        item.name = new_name;
    } else {
        item.ref_text = new_ref;
    }
    item.apply_selectors();
    let changed = item.clone_name();
    let ghost before = updated@;
    updated.set(index, item);
    proof {
        assert forall|k: int| 0 <= k < updated@.len() && k != index implies same_name(#[trigger] updated@[k], names@[k]) by {
            assert(updated@[k] == before[k]);
        }
    }
    Ok(XlsxNameMutationPlan { names: updated, changed: Some(changed), deleted: None, previous_name, previous_ref })
}

/// The four action words differ from each other.
proof fn lemma_action_words()
    ensures
        "add"@ != "update"@,
        "add"@ != "rename"@,
        "add"@ != "delete"@,
        "update"@ != "rename"@,
        "update"@ != "delete"@,
        "rename"@ != "delete"@,
{
    reveal_strlit("add");
    reveal_strlit("update");
    reveal_strlit("rename");
    reveal_strlit("delete");
    assert("add"@.len() != "update"@.len());
    assert("add"@.len() != "rename"@.len());
    assert("add"@.len() != "delete"@.len());
    assert("update"@[0] != "rename"@[0]);
    assert("update"@[0] != "delete"@[0]);
    assert("rename"@[0] != "delete"@[0]);
}

/// Selecting in a copy of a list picks what selecting in the list picks.
proof fn lemma_select_same(
    sheets: Seq<WorkbookSheet>,
    a: Seq<XlsxDefinedName>,
    b: Seq<XlsxDefinedName>,
    selector: Seq<char>,
    scope_sheet: Option<&str>,
)
    requires
        same_names(a, b),
    ensures
        select_spec(sheets, a, selector, scope_sheet) == select_spec(sheets, b, selector, scope_sheet),
{
    let sel = trim(selector);
    match name_handle_spec(sel) {
        Ok(Some(h)) => {
            lemma_where_same(a, b, handle_match(h));
        },
        _ => {},
    }
    match select_scope_spec(sheets, scope_sheet) {
        Ok(scope_id) => {
            lemma_where_same(a, b, selector_match(sel, scope_id));
        },
        _ => {},
    }
}

proof fn lemma_where_same(a: Seq<XlsxDefinedName>, b: Seq<XlsxDefinedName>, p: spec_fn(XlsxDefinedName) -> bool)
    requires
        same_names(a, b),
        forall|x: XlsxDefinedName, y: XlsxDefinedName| same_name(x, y) ==> p(x) == p(y),
    ensures
        count_where(a, p) == count_where(b, p),
        first_where(a, p) == first_where(b, p),
    decreases a.len(),
{
    if a.len() > 0 {
        assert(same_names(a.drop_last(), b.drop_last()));
        lemma_where_same(a.drop_last(), b.drop_last(), p);
        assert(same_name(a.last(), b.last()));
    }
}

/// Finding a name in a copy of a list finds the same index.
proof fn lemma_index_same(a: Seq<XlsxDefinedName>, b: Seq<XlsxDefinedName>, t: XlsxDefinedName, u: XlsxDefinedName)
    requires
        same_names(a, b),
        same_name(t, u),
    ensures
        defined_name_index_spec(a, t) == defined_name_index_spec(b, u),
{
    lemma_first_match_same(a, b, t.name@, t.local_sheet_id, 0);
}

proof fn lemma_first_match_same(a: Seq<XlsxDefinedName>, b: Seq<XlsxDefinedName>, name: Seq<char>, id: Option<i64>, i: int)
    requires
        same_names(a, b),
        0 <= i <= a.len(),
    ensures
        first_match_from(a, name, id, i) == first_match_from(b, name, id, i),
    decreases a.len() - i,
{
    if i < a.len() {
        assert(same_name(a[i], b[i]));
        lemma_first_match_same(a, b, name, id, i + 1);
    }
}


proof fn lemma_first_match_at(s: Seq<XlsxDefinedName>, name: Seq<char>, id: Option<i64>, i: int, k: int)
    requires
        0 <= i <= k < s.len(),
        name_matches(s[k], name, id),
        forall|m: int| i <= m < k ==> !name_matches(#[trigger] s[m], name, id),
    ensures
        first_match_from(s, name, id, i) == k,
    decreases k - i,
{
    if i < k {
        lemma_first_match_at(s, name, id, i + 1, k);
    }
}

/// After an add succeeds, reading the name back by its name and scope finds
/// the added entry, and that entry holds the reference the flags gave.
pub proof fn lemma_added_name_reads_back(
    sheets: Seq<WorkbookSheet>,
    names: Seq<XlsxDefinedName>,
    options: XlsxNameMutationOptions,
    plan: XlsxNameMutationPlan,
)
    requires
        name_mutation_error(sheets, names, "add"@, options) is None,
        name_mutation_done(sheets, names, "add"@, options, plan),
    ensures
        first_match_from(plan.names@, opt_trim(options.name), name_scope_spec(sheets, options.scope_sheet)->Ok_0, 0)
            == names.len(),
        plan.names@[names.len() as int].ref_text@ == ref_from_flags_spec(sheets, options.ref_, options.sheet, options.range)->Ok_0,
{
    let out = plan.names@;
    let nm = opt_trim(options.name);
    let id = name_scope_spec(sheets, options.scope_sheet)->Ok_0;
    assert(!is_duplicate(names, nm, id, None));
    assert forall|m: int| 0 <= m < names.len() implies !name_matches(#[trigger] out[m], nm, id) by {
        assert(same_name(out[m], names[m]));
        if name_matches(out[m], nm, id) {
            assert(name_matches(names[m], nm, id));
        }
    }
    assert(out.last() == out[names.len() as int]);
    lemma_first_match_at(out, nm, id, 0, names.len() as int);
}

/// After a rename succeeds, reading back the new name in the entry's scope
/// finds the renamed entry.
pub proof fn lemma_renamed_name_reads_back(
    sheets: Seq<WorkbookSheet>,
    names: Seq<XlsxDefinedName>,
    options: XlsxNameMutationOptions,
    plan: XlsxNameMutationPlan,
)
    requires
        names.len() < u32::MAX,
        name_mutation_error(sheets, names, "rename"@, options) is None,
        name_mutation_done(sheets, names, "rename"@, options, plan),
    ensures
        ({
            let i = target_spec(sheets, names, options)->Ok_0;
            first_match_from(plan.names@, opt_trim(options.new_name), names[i].local_sheet_id, 0) == i
        }),
{
    lemma_action_words();
    let out = plan.names@;
    let i = target_spec(sheets, names, options)->Ok_0;
    let nn = opt_trim(options.new_name);
    let id = names[i].local_sheet_id;
    assert(!is_duplicate(names, nn, id, Some(i as usize)));
    lemma_target_in_range(sheets, names, options);
    assert forall|m: int| 0 <= m < i implies !name_matches(#[trigger] out[m], nn, id) by {
        assert(same_name(out[m], names[m]));
        if name_matches(out[m], nn, id) {
            assert(name_matches(names[m], nn, id));
            assert(Some(i as usize) != Some(m as usize));
        }
    }
    lemma_first_match_at(out, nn, id, 0, i);
}

proof fn lemma_target_in_range(sheets: Seq<WorkbookSheet>, names: Seq<XlsxDefinedName>, options: XlsxNameMutationOptions)
    requires
        target_spec(sheets, names, options) is Ok,
    ensures
        0 <= target_spec(sheets, names, options)->Ok_0 < names.len(),
{
    let j = select_spec(sheets, names, opt_text(options.name), options.scope_sheet)->Ok_0;
    lemma_first_match_from(names, names[j].name@, names[j].local_sheet_id, 0);
}

proof fn lemma_dedup_first(c: Seq<Seq<char>>)
    requires
        c.len() > 0,
        c[0].len() > 0,
    ensures
        dedup_selectors(c).len() > 0,
        dedup_selectors(c)[0] == c[0],
    decreases c.len(),
{
    if c.len() > 1 {
        lemma_dedup_first(c.drop_last());
    } else {
        assert(dedup_selectors(c.drop_last()) =~= Seq::<Seq<char>>::empty());
    }
}

proof fn lemma_dedup_distinct(c: Seq<Seq<char>>)
    ensures
        forall|a: int, b: int| 0 <= a < b < dedup_selectors(c).len() ==> dedup_selectors(c)[a] != dedup_selectors(c)[b],
        forall|a: int| 0 <= a < dedup_selectors(c).len() ==> (#[trigger] dedup_selectors(c)[a]).len() > 0,
    decreases c.len(),
{
    if c.len() > 0 {
        lemma_dedup_distinct(c.drop_last());
        let k = dedup_selectors(c.drop_last());
        if !(c.last().len() == 0 || k.contains(c.last())) {
            assert forall|a: int, b: int| 0 <= a < b < dedup_selectors(c).len() implies dedup_selectors(c)[a] != dedup_selectors(c)[b] by {
                if b == k.len() {
                    assert(dedup_selectors(c)[a] == k[a]);
                }
            }
        }
    }
}

/// The selectors of a name are non-empty and listed once each, and a
/// non-empty primary selector comes first.
pub proof fn lemma_selectors_well_formed(d: XlsxDefinedName)
    requires
        selectors_current(d),
    ensures
        forall|a: int, b: int| 0 <= a < b < strs(d.selectors@).len() ==> strs(d.selectors@)[a] != strs(d.selectors@)[b],
        forall|a: int| 0 <= a < strs(d.selectors@).len() ==> (#[trigger] strs(d.selectors@)[a]).len() > 0,
        d.primary_selector@.len() > 0 ==> strs(d.selectors@).len() > 0 && strs(d.selectors@)[0] == d.primary_selector@,
{
    lemma_dedup_distinct(selector_candidates_spec(d));
    if d.primary_selector@.len() > 0 {
        lemma_dedup_first(selector_candidates_spec(d));
    }
}

} // verus!
