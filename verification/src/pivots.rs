//! Pivot tables: the field lists a pivot is asked for, the fields and items
//! its cache holds, the parts it is written as, and how a pivot is picked
//! out by a selector.
use vstd::prelude::*;
use crate::cellref::{col_name, column_letters};
use crate::error::{CliError, CliResult, ErrorKind};
use crate::names::strs;
use crate::text::{
    ascii_lower_seq, chars_eq_str, concat2, concat3, decimal, decimal_int, find_from, lemma_find_from,
    lemma_trim_bounds, slice_vec, str_chars, str_eq, str_strip_all_prefix, string_from_chars,
    strip_all_prefix, to_string, trim, trim_bounds, trim_lower, u64_to_string, vec_find_char,
};
use crate::xml::{rfind_seq, vec_rfind};
use crate::elements::{attr_escape, attr_get, attr_lookup, xml_attr_escape};
use crate::xml::{
    char_tokens, char_tokens_spec, is_tag, local_name, local_name_of, quick_xml_tag_attributes, splice, tag_attributes,
    tokens_well_formed, CharToken, XmlTokenKind,
};
use crate::text::{find_seq_from, lemma_find_seq_from, vec_find_seq};

verus! {

// ---------------------------------------------------------------------------
// Field lists
// ---------------------------------------------------------------------------

/// The comma-separated pieces of `s` from index `start` on, each trimmed,
/// blank ones dropped.
pub open spec fn comma_list_from(s: Seq<char>, start: int) -> Seq<Seq<char>>
    decreases s.len() - start,
{
    if start < 0 || start > s.len() {
        Seq::empty()
    } else {
        let j = find_from(s, ',', start);
        let end = if j < start { s.len() as int } else { j };
        let piece = trim(s.subrange(start, end));
        let head = if piece.len() > 0 { seq![piece] } else { Seq::<Seq<char>>::empty() };
        if j < start {
            head
        } else {
            proof {
                lemma_find_from(s, ',', start);
            }
            head + comma_list_from(s, j + 1)
        }
    }
}

/// `split_comma_list`: the trimmed, non-blank pieces of a comma list.
pub fn split_comma_list(value: &str) -> (r: Vec<String>)
    ensures
        strs(r@) == comma_list_from(value@, 0),
{
    let v = str_chars(value);
    let mut out: Vec<String> = Vec::new();
    let mut start: usize = 0;
    loop
        invariant
            v@ == value@,
            0 <= start <= v.len(),
            strs(out@) + comma_list_from(v@, start as int) == comma_list_from(v@, 0),
        decreases v.len() - start,
    {
        let found = vec_find_char(&v, ',', start);
        proof {
            lemma_find_from(v@, ',', start as int);
        }
        let end = match found {
            Some(j) => j,
            None => v.len(),
        };
        let piece = slice_vec(&v, start, end);
        let (a, b) = trim_bounds(&piece);
        let ghost before = strs(out@);
        let ghost t = trim(v@.subrange(start as int, end as int));
        if a < b {
            let t_chars = slice_vec(&piece, a, b);
            out.push(string_from_chars(t_chars.as_slice()));
            proof {
                assert(strs(out@) =~= before.push(t));
            }
        } else {
            proof {
                assert(strs(out@) =~= before);
            }
        }
        match found {
            Some(j) => {
                proof {
                    let head = if t.len() > 0 { seq![t] } else { Seq::<Seq<char>>::empty() };
                    assert(comma_list_from(v@, start as int) == head + comma_list_from(v@, j + 1));
                    assert(strs(out@) == before + head);
                    assert(strs(out@) + comma_list_from(v@, j + 1) =~= before + comma_list_from(v@, start as int));
                }
                start = j + 1;
            },
            None => {
                proof {
                    assert(strs(out@) =~= before + comma_list_from(v@, start as int));
                }
                return out;
            },
        }
    }
}

/// A value field as asked for: a header name and an aggregation.
#[derive(Debug)]
pub struct PivotValueSpec {
    pub name: String,
    pub aggregation: String,
}

pub open spec fn value_spec_view(s: PivotValueSpec) -> (Seq<char>, Seq<char>) {
    (s.name@, s.aggregation@)
}

pub open spec fn value_specs_view(v: Seq<PivotValueSpec>) -> Seq<(Seq<char>, Seq<char>)> {
    v.map_values(|s: PivotValueSpec| value_spec_view(s))
}

/// `name:aggregation`, split at the last colon (both parts trimmed); without
/// a colon the whole text names the field and the aggregation is `sum`.
pub open spec fn value_spec_of(raw: Seq<char>) -> (Seq<char>, Seq<char>) {
    let t = trim(raw);
    let c = rfind_seq(t, seq![':']);
    if c < 0 {
        (t, "sum"@)
    } else {
        (trim(t.subrange(0, c)), trim(t.subrange(c + 1, t.len() as int)))
    }
}

/// The value fields of the first `n` specs: blank specs skipped, `None` at
/// the first spec with an empty field name.
pub open spec fn value_specs_prefix(specs: Seq<Seq<char>>, n: int) -> Option<Seq<(Seq<char>, Seq<char>)>>
    decreases n,
{
    if n <= 0 {
        Some(Seq::empty())
    } else {
        match value_specs_prefix(specs, n - 1) {
            None => None,
            Some(acc) => {
                if trim(specs[n - 1]).len() == 0 {
                    Some(acc)
                } else if value_spec_of(specs[n - 1]).0.len() == 0 {
                    None
                } else {
                    Some(acc.push(value_spec_of(specs[n - 1])))
                }
            },
        }
    }
}

pub open spec fn value_specs_spec(specs: Seq<Seq<char>>) -> Option<Seq<(Seq<char>, Seq<char>)>> {
    match value_specs_prefix(specs, specs.len() as int) {
        Some(v) => if v.len() > 0 { Some(v) } else { None },
        None => None,
    }
}

proof fn lemma_value_specs_stay_none(specs: Seq<Seq<char>>, j: int, k: int)
    requires
        0 < j <= k,
        value_specs_prefix(specs, j) is None,
    ensures
        value_specs_prefix(specs, k) is None,
    decreases k - j,
{
    if k > j {
        lemma_value_specs_stay_none(specs, j, k - 1);
    }
}

fn value_spec_from(raw: &str) -> (r: PivotValueSpec)
    requires
        trim(raw@).len() > 0,
    ensures
        value_spec_view(r) == value_spec_of(raw@),
{
    let t_chars = crate::text::trim_chars(raw);
    let t = string_from_chars(t_chars.as_slice());
    let colon = str_chars(":");
    proof {
        reveal_strlit(":");
        assert(colon@ =~= seq![':']);
    }
    match vec_rfind(&t_chars, &colon) {
        None => PivotValueSpec { name: t, aggregation: to_string("sum") },
        Some(c) => {
            proof {
                crate::xml::lemma_rfind_from(t_chars@, colon@, t_chars@.len() - colon@.len());
            }
            let tn = t_chars.len();
            proof {
                assert(c + 1 <= t_chars@.len());
            }
            let head = slice_vec(&t_chars, 0, c);
            let tail = slice_vec(&t_chars, c + 1, tn);
            let (a, b) = trim_bounds(&head);
            let (x, y) = trim_bounds(&tail);
            let name = slice_vec(&head, a, b);
            let agg = slice_vec(&tail, x, y);
            PivotValueSpec { name: string_from_chars(name.as_slice()), aggregation: string_from_chars(agg.as_slice()) }
        },
    }
}

/// `parse_pivot_value_fields`: the value fields a `--values` list asks for.
pub fn parse_pivot_value_fields(specs: &Vec<String>) -> (r: CliResult<Vec<PivotValueSpec>>)
    ensures
        r is Ok <==> value_specs_spec(strs(specs@)) is Some,
        r is Ok ==> value_specs_view(r->Ok_0@) == value_specs_spec(strs(specs@))->Some_0,
        r is Err ==> r->Err_0.kind == ErrorKind::InvalidArgs,
{
    let mut out: Vec<PivotValueSpec> = Vec::new();
    let mut i: usize = 0;
    while i < specs.len()
        invariant
            0 <= i <= specs.len(),
            value_specs_prefix(strs(specs@), i as int) == Some(value_specs_view(out@)),
        decreases specs.len() - i,
    {
        let raw = specs[i].as_str();
        let t = crate::text::trim_chars(raw);
        proof {
            assert(strs(specs@)[i as int] == raw@);
        }
        if t.len() > 0 {
            let spec = value_spec_from(raw);
            if str_chars(spec.name.as_str()).len() == 0 {
                proof {
                    lemma_value_specs_stay_none(strs(specs@), i as int + 1, specs@.len() as int);
                }
                return Err(CliError::invalid_args(to_string("value field name cannot be empty")));
            }
            let ghost prev = out@;
            let ghost sv = value_spec_view(spec);
            out.push(spec);
            proof {
                assert(value_specs_view(out@) =~= value_specs_view(prev).push(sv));
            }
        }
        i = i + 1;
    }
    proof {
        assert(strs(specs@).len() == specs@.len());
    }
    if out.len() == 0 {
        return Err(CliError::invalid_args(to_string("specify at least one --values field")));
    }
    Ok(out)
}

// ---------------------------------------------------------------------------
// Small spellings
// ---------------------------------------------------------------------------

/// The aggregation a value field asks for, by its name (trimmed, any ASCII
/// case; blank means `sum`), as the pivot table writes it.
pub open spec fn aggregation_spec(value: Seq<char>) -> Option<Seq<char>> {
    let k = ascii_lower_seq(trim(value));
    if k == ""@ || k == "sum"@ {
        Some("sum"@)
    } else if k == "count"@ {
        Some("count"@)
    } else if k == "average"@ || k == "avg"@ {
        Some("average"@)
    } else if k == "max"@ {
        Some("max"@)
    } else if k == "min"@ {
        Some("min"@)
    } else if k == "product"@ {
        Some("product"@)
    } else if k == "countnums"@ {
        Some("countNums"@)
    } else if k == "stddev"@ {
        Some("stdDev"@)
    } else if k == "var"@ {
        Some("var"@)
    } else {
        None
    }
}

/// The aggregation of a value field is the function it names: each function
/// a pivot table writes is taken under its own name (trimmed, in any ASCII
/// case); a blank name means `sum`, and `avg`, `countnums` and `stddev` are
/// the spellings of `average`, `countNums` and `stdDev`; nothing else is
/// accepted.
pub proof fn lemma_aggregation_names_the_function(value: Seq<char>)
    ensures
        ({
            let k = ascii_lower_seq(trim(value));
            k == "sum"@ || k == "count"@ || k == "average"@ || k == "max"@ || k == "min"@ || k == "product"@ || k == "var"@ ==> aggregation_spec(value) == Some(k)
        }),
        ascii_lower_seq(trim(value)) == ""@ ==> aggregation_spec(value) == Some("sum"@),
        ascii_lower_seq(trim(value)) == "avg"@ ==> aggregation_spec(value) == Some("average"@),
        ascii_lower_seq(trim(value)) == "countnums"@ ==> aggregation_spec(value) == Some("countNums"@),
        ascii_lower_seq(trim(value)) == "stddev"@ ==> aggregation_spec(value) == Some("stdDev"@),
        aggregation_spec(value) is Some ==> ({
            let k = ascii_lower_seq(trim(value));
            k == "sum"@ || k == "count"@ || k == "average"@ || k == "max"@ || k == "min"@ || k == "product"@ || k == "var"@ || k == ""@ || k == "avg"@ || k == "countnums"@ || k == "stddev"@
        }),
{
    // The names are told apart by their lengths, and names of one length by
    // the first character at which they differ.
    reveal_strlit("sum");
    reveal_strlit("count");
    reveal_strlit("average");
    reveal_strlit("avg");
    reveal_strlit("max");
    reveal_strlit("min");
    reveal_strlit("product");
    reveal_strlit("countnums");
    reveal_strlit("stddev");
    reveal_strlit("var");
    reveal_strlit("");
    assert("sum"@.len() == 3);
    assert("count"@.len() == 5);
    assert("average"@.len() == 7);
    assert("avg"@.len() == 3);
    assert("max"@.len() == 3);
    assert("min"@.len() == 3);
    assert("product"@.len() == 7);
    assert("countnums"@.len() == 9);
    assert("stddev"@.len() == 6);
    assert("var"@.len() == 3);
    assert(""@.len() == 0);
    assert("avg"@[0] == 'a' && "sum"@[0] == 's');
    assert("max"@[0] == 'm' && "sum"@[0] == 's');
    assert("max"@[0] == 'm' && "avg"@[0] == 'a');
    assert("min"@[0] == 'm' && "sum"@[0] == 's');
    assert("min"@[0] == 'm' && "avg"@[0] == 'a');
    assert("min"@[1] == 'i' && "max"@[1] == 'a');
    assert("product"@[0] == 'p' && "average"@[0] == 'a');
    assert("var"@[0] == 'v' && "sum"@[0] == 's');
    assert("var"@[0] == 'v' && "avg"@[0] == 'a');
    assert("var"@[0] == 'v' && "max"@[0] == 'm');
    assert("var"@[0] == 'v' && "min"@[0] == 'm');
}

/// `normalize_pivot_aggregation`.
pub fn normalize_pivot_aggregation(value: &str) -> (r: Option<String>)
    ensures
        r is Some <==> aggregation_spec(value@) is Some,
        r is Some ==> r->Some_0@ == aggregation_spec(value@)->Some_0,
{
    let k = trim_lower(value);
    if chars_eq_str(&k, "") || chars_eq_str(&k, "sum") {
        Some(to_string("sum"))
    } else if chars_eq_str(&k, "count") {
        Some(to_string("count"))
    } else if chars_eq_str(&k, "average") || chars_eq_str(&k, "avg") {
        Some(to_string("average"))
    } else if chars_eq_str(&k, "max") {
        Some(to_string("max"))
    } else if chars_eq_str(&k, "min") {
        Some(to_string("min"))
    } else if chars_eq_str(&k, "product") {
        Some(to_string("product"))
    } else if chars_eq_str(&k, "countnums") {
        Some(to_string("countNums"))
    } else if chars_eq_str(&k, "stddev") {
        Some(to_string("stdDev"))
    } else if chars_eq_str(&k, "var") {
        Some(to_string("var"))
    } else {
        None
    }
}

/// The label a data field's caption starts with.
pub open spec fn caption_label(subtotal: Seq<char>) -> Seq<char> {
    if subtotal == "sum"@ {
        "Sum"@
    } else if subtotal == "count"@ || subtotal == "countNums"@ {
        "Count"@
    } else if subtotal == "average"@ {
        "Average"@
    } else if subtotal == "max"@ {
        "Max"@
    } else if subtotal == "min"@ {
        "Min"@
    } else if subtotal == "product"@ {
        "Product"@
    } else if subtotal == "stdDev"@ {
        "StdDev"@
    } else if subtotal == "var"@ {
        "Var"@
    } else {
        "Sum"@
    }
}

fn caption_label_of(subtotal: &str) -> (r: &'static str)
    ensures
        r@ == caption_label(subtotal@),
{
    if str_eq(subtotal, "sum") {
        "Sum"
    } else if str_eq(subtotal, "count") || str_eq(subtotal, "countNums") {
        "Count"
    } else if str_eq(subtotal, "average") {
        "Average"
    } else if str_eq(subtotal, "max") {
        "Max"
    } else if str_eq(subtotal, "min") {
        "Min"
    } else if str_eq(subtotal, "product") {
        "Product"
    } else if str_eq(subtotal, "stdDev") {
        "StdDev"
    } else if str_eq(subtotal, "var") {
        "Var"
    } else {
        "Sum"
    }
}

/// `pivot_data_caption`: `Sum of Amount` and the like.
pub fn pivot_data_caption(subtotal: &str, field: &str) -> (r: String)
    ensures
        r@ == caption_label(subtotal@) + " of "@ + field@,
{
    concat3(caption_label_of(subtotal), " of ", field)
}

/// The axis a pivot field sits on, as listings name it.
pub open spec fn axis_spec(value: Seq<char>) -> Seq<char> {
    if value == "axisRow"@ {
        "row"@
    } else if value == "axisCol"@ {
        "column"@
    } else if value == "axisPage"@ {
        "filter"@
    } else if value == "axisValues"@ {
        "data"@
    } else {
        value
    }
}

/// `normalize_axis`.
pub fn normalize_axis(value: &str) -> (r: String)
    ensures
        r@ == axis_spec(value@),
{
    if str_eq(value, "axisRow") {
        to_string("row")
    } else if str_eq(value, "axisCol") {
        to_string("column")
    } else if str_eq(value, "axisPage") {
        to_string("filter")
    } else if str_eq(value, "axisValues") {
        to_string("data")
    } else {
        to_string(value)
    }
}

pub open spec fn opt_text(value: Option<&str>) -> Seq<char> {
    match value {
        Some(v) => v@,
        None => Seq::empty(),
    }
}

/// A true flag: `1`, `true` or `on` (trimmed, any ASCII case).
pub open spec fn bool_attr_spec(value: Option<&str>) -> bool {
    let k = ascii_lower_seq(trim(opt_text(value)));
    k == "1"@ || k == "true"@ || k == "on"@
}

/// `parse_bool_attr`.
pub fn parse_bool_attr(value: Option<&str>) -> (r: bool)
    ensures
        r == bool_attr_spec(value),
{
    let text: &str = match value {
        Some(v) => v,
        None => "",
    };
    proof {
        reveal_strlit("");
    }
    proof {
        assert(text@ == opt_text(value));
    }
    let k = trim_lower(text);
    chars_eq_str(&k, "1") || chars_eq_str(&k, "true") || chars_eq_str(&k, "on")
}

/// `bool_int`: `1` or `0`.
pub fn bool_int(value: bool) -> (r: &'static str)
    ensures
        r@ == (if value { "1"@ } else { "0"@ }),
{
    if value {
        "1"
    } else {
        "0"
    }
}

/// `i32::from_str` of the trimmed text.
pub open spec fn parse_i32_spec(s: Seq<char>) -> Option<i32> {
    match crate::text::parse_i64_spec(trim(s)) {
        Some(v) => if i32::MIN <= v <= i32::MAX { Some(v as i32) } else { None },
        None => None,
    }
}

/// `parse_i32`: the number an attribute holds, or the fallback.
pub fn parse_i32(value: Option<&str>, fallback: i32) -> (r: i32)
    ensures
        r == (match value {
            Some(v) => match parse_i32_spec(v@) {
                Some(n) => n,
                None => fallback,
            },
            None => fallback,
        }),
{
    match value {
        None => fallback,
        Some(v) => {
            let t = crate::text::trim_string(v);
            match crate::text::parse_i64(t.as_str()) {
                Some(n) => {
                    if n >= -2147483648 && n <= 2147483647 {
                        n as i32
                    } else {
                        fallback
                    }
                },
                None => fallback,
            }
        },
    }
}

/// `normalize_part_uri`: the part's path with exactly one leading `/`.
pub fn normalize_part_uri(part_uri: &str) -> (r: String)
    ensures
        r@ == seq!['/'] + strip_all_prefix(part_uri@, seq!['/']),
{
    proof {
        reveal_strlit("/");
        assert("/"@ =~= seq!['/']);
    }
    let n = str_strip_all_prefix(part_uri, "/");
    let mut out = str_chars("/");
    crate::text::push_all(&mut out, &n);
    string_from_chars(out.as_slice())
}

/// `part_name`: the part's path without leading slashes, as a zip entry.
pub fn part_name(part_uri: &str) -> (r: String)
    ensures
        r@ == strip_all_prefix(part_uri@, seq!['/']),
{
    proof {
        reveal_strlit("/");
        assert("/"@ =~= seq!['/']);
    }
    let n = str_strip_all_prefix(part_uri, "/");
    string_from_chars(n.as_slice())
}

/// The cells a new pivot table covers: from the anchor, as many columns as
/// row fields (at least one) plus value fields, and five rows.
pub open spec fn pivot_location_spec(anchor: (u32, u32), row_field_count: int, value_count: int) -> Seq<char> {
    let cols = (if row_field_count > 1 { row_field_count } else { 1 }) + value_count;
    column_letters(anchor.0 as nat) + decimal(anchor.1 as nat) + ":"@ + column_letters((anchor.0 + cols - 1) as nat)
        + decimal((anchor.1 + 4) as nat)
}

/// `pivot_location`.
pub fn pivot_location(anchor: (u32, u32), row_field_count: usize, value_count: usize) -> (r: String)
    requires
        anchor.0 + (if row_field_count > 1 { row_field_count as int } else { 1 }) + value_count <= u32::MAX,
        anchor.1 + 4 <= u32::MAX,
    ensures
        r@ == pivot_location_spec(anchor, row_field_count as int, value_count as int),
{
    let base: usize = if row_field_count > 1 { row_field_count } else { 1 };
    let cols: u32 = (base + value_count) as u32;
    let end_col: u32 = anchor.0 + cols - 1;
    let end_row: u32 = anchor.1 + 4;
    let a = col_name(anchor.0);
    let b = u64_to_string(anchor.1 as u64);
    let c = col_name(end_col);
    let d = u64_to_string(end_row as u64);
    let r = crate::text::concat5(a.as_str(), b.as_str(), ":", c.as_str(), d.as_str());
    proof {
        reveal_strlit(":");
    }
    r
}

// ---------------------------------------------------------------------------
// The source cells and their header
// ---------------------------------------------------------------------------

/// A cell of the pivot's source range: its text, or null for an empty cell.
#[derive(Debug)]
pub struct PivotCell {
    pub value: String,
    pub null: bool,
}

/// The header a source column is known by: the trimmed header cell, or
/// `Field<n>` (1-based) for a blank one.
pub open spec fn header_name(cell: PivotCell, i: int) -> Seq<char> {
    if trim(cell.value@).len() == 0 {
        "Field"@ + decimal((i + 1) as nat)
    } else {
        trim(cell.value@)
    }
}

/// `pivot_headers`: the source's header names; the source needs a header
/// row and at least one data row.
pub fn pivot_headers(cells: &Vec<Vec<PivotCell>>) -> (r: CliResult<Vec<String>>)
    ensures
        r is Ok <==> cells@.len() >= 2,
        r is Ok ==> strs(r->Ok_0@) == Seq::new(cells@[0]@.len(), |i: int| header_name(cells@[0]@[i], i)),
        r is Err ==> r->Err_0.kind == ErrorKind::InvalidArgs,
{
    if cells.len() < 2 {
        return Err(CliError::invalid_args(to_string("pivot source needs a header row and at least one data row")));
    }
    let first = &cells[0];
    let mut headers: Vec<String> = Vec::new();
    let mut i: usize = 0;
    while i < first.len()
        invariant
            first@ == cells@[0]@,
            0 <= i <= first.len(),
            strs(headers@) == Seq::new(i as nat, |k: int| header_name(cells@[0]@[k], k)),
        decreases first.len() - i,
    {
        let t = crate::text::trim_chars(first[i].value.as_str());
        let name = if t.len() == 0 {
            let n = u64_to_string(i as u64 + 1);
            concat2("Field", n.as_str())
        } else {
            string_from_chars(t.as_slice())
        };
        proof {
            reveal_strlit("Field");
        }
        proof {
            assert(first@[i as int] == cells@[0]@[i as int]);
            assert(name@ == header_name(cells@[0]@[i as int], i as int));
        }
        let ghost prev = strs(headers@);
        headers.push(name);
        proof {
            assert(strs(headers@) =~= prev.push(header_name(cells@[0]@[i as int], i as int)));
            assert(strs(headers@) =~= Seq::new((i + 1) as nat, |k: int| header_name(cells@[0]@[k], k)));
        }
        i = i + 1;
    }
    Ok(headers)
}

/// The last column whose header is `x`, among the first `n`.
pub open spec fn header_index(headers: Seq<Seq<char>>, x: Seq<char>, n: int) -> Option<int>
    decreases n,
{
    if n <= 0 {
        None
    } else if headers[n - 1] == x {
        Some(n - 1)
    } else {
        header_index(headers, x, n - 1)
    }
}

pub open spec fn header_of(headers: Seq<Seq<char>>, x: Seq<char>) -> Option<int> {
    header_index(headers, x, headers.len() as int)
}

proof fn lemma_header_index_bounds(headers: Seq<Seq<char>>, x: Seq<char>, n: int)
    requires
        n <= headers.len(),
    ensures
        header_index(headers, x, n) matches Some(k) ==> 0 <= k < n && headers[k] == x,
    decreases n,
{
    if n > 0 && headers[n - 1] != x {
        lemma_header_index_bounds(headers, x, n - 1);
    }
}

/// The column a header name picks out (the last with that name).
pub fn header_position(headers: &Vec<String>, name: &str) -> (r: Option<usize>)
    ensures
        r is Some <==> header_of(strs(headers@), name@) is Some,
        r is Some ==> r->Some_0 as int == header_of(strs(headers@), name@)->Some_0,
        r is Some ==> r->Some_0 < headers.len(),
{
    let mut n: usize = headers.len();
    proof {
        lemma_header_index_bounds(strs(headers@), name@, headers@.len() as int);
    }
    while n > 0
        invariant
            n <= headers.len(),
            header_index(strs(headers@), name@, n as int) == header_of(strs(headers@), name@),
        decreases n,
    {
        if str_eq(headers[n - 1].as_str(), name) {
            return Some(n - 1);
        }
        n = n - 1;
    }
    None
}

/// The first `n` headers joined with `, ` (`[T]::join`).
pub open spec fn joined_headers(headers: Seq<Seq<char>>, n: int) -> Seq<char>
    decreases n,
{
    if n <= 0 {
        Seq::empty()
    } else if n == 1 {
        headers[0]
    } else {
        joined_headers(headers, n - 1) + ", "@ + headers[n - 1]
    }
}

/// The headers joined with `, `, for messages.
fn join_headers(headers: &Vec<String>) -> (r: String)
    ensures
        r@ == joined_headers(strs(headers@), headers@.len() as int),
{
    let mut out: Vec<char> = Vec::new();
    let mut i: usize = 0;
    while i < headers.len()
        invariant
            0 <= i <= headers.len(),
            out@ == joined_headers(strs(headers@), i as int),
        decreases headers.len() - i,
    {
        let ghost prev = out@;
        if i > 0 {
            crate::text::push_all(&mut out, &str_chars(", "));
        }
        crate::text::push_all(&mut out, &str_chars(headers[i].as_str()));
        proof {
            assert(strs(headers@)[i as int] == headers@[i as int]@);
            if i == 0 {
                assert(out@ =~= joined_headers(strs(headers@), 1));
            } else {
                assert(out@ =~= joined_headers(strs(headers@), i + 1));
            }
        }
        i = i + 1;
    }
    string_from_chars(out.as_slice())
}

/// The columns a list of field names picks out, or `None` when one is not a
/// header.
pub open spec fn resolve_fields_spec(fields: Seq<Seq<char>>, headers: Seq<Seq<char>>, n: int) -> Option<Seq<int>>
    decreases n,
{
    if n <= 0 {
        Some(Seq::empty())
    } else {
        match resolve_fields_spec(fields, headers, n - 1) {
            None => None,
            Some(acc) => match header_of(headers, fields[n - 1]) {
                None => None,
                Some(k) => Some(acc.push(k)),
            },
        }
    }
}

pub open spec fn usizes(v: Seq<usize>) -> Seq<int> {
    v.map_values(|x: usize| x as int)
}

proof fn lemma_resolve_len(fields: Seq<Seq<char>>, headers: Seq<Seq<char>>, n: int)
    requires
        0 <= n,
        resolve_fields_spec(fields, headers, n) is Some,
    ensures
        resolve_fields_spec(fields, headers, n)->Some_0.len() == n,
    decreases n,
{
    if n > 0 {
        lemma_resolve_len(fields, headers, n - 1);
    }
}

proof fn lemma_resolve_stays_none(fields: Seq<Seq<char>>, headers: Seq<Seq<char>>, j: int, k: int)
    requires
        0 < j <= k,
        resolve_fields_spec(fields, headers, j) is None,
    ensures
        resolve_fields_spec(fields, headers, k) is None,
    decreases k - j,
{
    if k > j {
        lemma_resolve_stays_none(fields, headers, j, k - 1);
    }
}

/// `resolve_pivot_fields`: the columns of the fields on one axis; they are
/// added to the set of axis columns.
pub fn resolve_pivot_fields(role: &str, fields: &Vec<String>, headers: &Vec<String>, axis: &mut Vec<usize>) -> (r:
    CliResult<Vec<usize>>)
    ensures
        r is Ok <==> resolve_fields_spec(strs(fields@), strs(headers@), fields@.len() as int) is Some,
        r is Ok ==> usizes(r->Ok_0@) == resolve_fields_spec(strs(fields@), strs(headers@), fields@.len() as int)->Some_0,
        r is Ok ==> final(axis)@ == old(axis)@ + r->Ok_0@,
        r is Ok ==> forall|i: int| 0 <= i < r->Ok_0@.len() ==> r->Ok_0@[i] < headers@.len(),
        r is Err ==> final(axis)@ == old(axis)@ && r->Err_0.kind == ErrorKind::InvalidArgs,
{
    let mut resolved: Vec<usize> = Vec::new();
    let mut i: usize = 0;
    while i < fields.len()
        invariant
            0 <= i <= fields.len(),
            axis@ == old(axis)@,
            resolve_fields_spec(strs(fields@), strs(headers@), i as int) == Some(usizes(resolved@)),
            forall|k: int| 0 <= k < resolved@.len() ==> resolved@[k] < headers@.len(),
        decreases fields.len() - i,
    {
        proof {
            assert(strs(fields@)[i as int] == fields@[i as int]@);
        }
        match header_position(headers, fields[i].as_str()) {
            None => {
                proof {
                    lemma_resolve_stays_none(strs(fields@), strs(headers@), i as int + 1, fields@.len() as int);
                }
                let joined = join_headers(headers);
                let q = crate::text::debug_quoted(fields[i].as_str());
                let msg = crate::text::concat5(role, " field ", q.as_str(), " not found in source header (", joined.as_str());
                return Err(CliError::invalid_args(concat2(msg.as_str(), ")")));
            },
            Some(k) => {
                let ghost prev = resolved@;
                resolved.push(k);
                proof {
                    assert(usizes(resolved@) =~= usizes(prev).push(k as int));
                }
            },
        }
        i = i + 1;
    }
    let mut j: usize = 0;
    let ghost start = axis@;
    while j < resolved.len()
        invariant
            0 <= j <= resolved.len(),
            axis@ == start + resolved@.subrange(0, j as int),
        decreases resolved.len() - j,
    {
        axis.push(resolved[j]);
        proof {
            assert(axis@ =~= start + resolved@.subrange(0, j + 1));
        }
        j = j + 1;
    }
    proof {
        assert(resolved@.subrange(0, resolved@.len() as int) =~= resolved@);
    }
    Ok(resolved)
}

/// A data field of the new pivot: the column, its aggregation and caption.
#[derive(Debug)]
pub struct PivotDataField {
    pub field_index: usize,
    pub subtotal: String,
    pub caption: String,
}

pub open spec fn data_field_view(d: PivotDataField) -> (int, Seq<char>, Seq<char>) {
    (d.field_index as int, d.subtotal@, d.caption@)
}

pub open spec fn data_fields_view(v: Seq<PivotDataField>) -> Seq<(int, Seq<char>, Seq<char>)> {
    v.map_values(|d: PivotDataField| data_field_view(d))
}

/// The data fields the value specs ask for: each names a header and a known
/// aggregation; `None` at the first that does not.
pub open spec fn data_fields_spec(specs: Seq<(Seq<char>, Seq<char>)>, headers: Seq<Seq<char>>, n: int) -> Option<
    Seq<(int, Seq<char>, Seq<char>)>,
>
    decreases n,
{
    if n <= 0 {
        Some(Seq::empty())
    } else {
        match data_fields_spec(specs, headers, n - 1) {
            None => None,
            Some(acc) => match header_of(headers, specs[n - 1].0) {
                None => None,
                Some(k) => match aggregation_spec(specs[n - 1].1) {
                    None => None,
                    Some(sub) => Some(acc.push((k, sub, caption_label(sub) + " of "@ + specs[n - 1].0))),
                },
            },
        }
    }
}

proof fn lemma_data_fields_len(specs: Seq<(Seq<char>, Seq<char>)>, headers: Seq<Seq<char>>, n: int)
    requires
        0 <= n,
        data_fields_spec(specs, headers, n) is Some,
    ensures
        data_fields_spec(specs, headers, n)->Some_0.len() == n,
    decreases n,
{
    if n > 0 {
        lemma_data_fields_len(specs, headers, n - 1);
    }
}

proof fn lemma_data_fields_stay_none(specs: Seq<(Seq<char>, Seq<char>)>, headers: Seq<Seq<char>>, j: int, k: int)
    requires
        0 < j <= k,
        data_fields_spec(specs, headers, j) is None,
    ensures
        data_fields_spec(specs, headers, k) is None,
    decreases k - j,
{
    if k > j {
        lemma_data_fields_stay_none(specs, headers, j, k - 1);
    }
}

/// The data fields of a new pivot, one per value spec, in order.
pub fn plan_pivot_data_fields(value_specs: &Vec<PivotValueSpec>, headers: &Vec<String>) -> (r: CliResult<
    Vec<PivotDataField>,
>)
    ensures
        r is Ok <==> data_fields_spec(value_specs_view(value_specs@), strs(headers@), value_specs@.len() as int) is Some,
        r is Ok ==> data_fields_view(r->Ok_0@) == data_fields_spec(
            value_specs_view(value_specs@),
            strs(headers@),
            value_specs@.len() as int,
        )->Some_0,
        r is Ok ==> forall|i: int| 0 <= i < r->Ok_0@.len() ==> r->Ok_0@[i].field_index < headers@.len(),
        r is Err ==> r->Err_0.kind == ErrorKind::InvalidArgs,
{
    let mut out: Vec<PivotDataField> = Vec::new();
    let mut i: usize = 0;
    while i < value_specs.len()
        invariant
            0 <= i <= value_specs.len(),
            data_fields_spec(value_specs_view(value_specs@), strs(headers@), i as int) == Some(data_fields_view(out@)),
            forall|k: int| 0 <= k < out@.len() ==> out@[k].field_index < headers@.len(),
        decreases value_specs.len() - i,
    {
        let spec = &value_specs[i];
        proof {
            assert(value_specs_view(value_specs@)[i as int] == value_spec_view(*spec));
        }
        match header_position(headers, spec.name.as_str()) {
            None => {
                proof {
                    lemma_data_fields_stay_none(value_specs_view(value_specs@), strs(headers@), i as int + 1, value_specs@.len() as int);
                }
                let joined = join_headers(headers);
                let q = crate::text::debug_quoted(spec.name.as_str());
                let msg = crate::text::concat5("value field ", q.as_str(), " not found in source header (", joined.as_str(), ")");
                return Err(CliError::invalid_args(msg));
            },
            Some(k) => match normalize_pivot_aggregation(spec.aggregation.as_str()) {
                None => {
                    proof {
                        lemma_data_fields_stay_none(value_specs_view(value_specs@), strs(headers@), i as int + 1, value_specs@.len() as int);
                    }
                    let qa = crate::text::debug_quoted(spec.aggregation.as_str());
                    let qn = crate::text::debug_quoted(spec.name.as_str());
                    let msg = crate::text::concat4("invalid aggregation ", qa.as_str(), " for ", qn.as_str());
                    return Err(CliError::invalid_args(msg));
                },
                Some(subtotal) => {
                    let caption = pivot_data_caption(subtotal.as_str(), spec.name.as_str());
                    let d = PivotDataField { field_index: k, subtotal, caption };
                    let ghost prev = out@;
                    let ghost dv = data_field_view(d);
                    out.push(d);
                    proof {
                        assert(data_fields_view(out@) =~= data_fields_view(prev).push(dv));
                    }
                },
            },
        }
        i = i + 1;
    }
    Ok(out)
}

// ---------------------------------------------------------------------------
// The cache's fields
// ---------------------------------------------------------------------------

/// A field of the new pivot cache: its name, whether every value it holds is
/// a number, whether it lists its items, and the distinct items in the
/// order the data rows first give them (each with whether it is a number).
#[derive(Debug)]
pub struct PivotFieldModel {
    pub name: String,
    pub numeric: bool,
    pub has_items: bool,
    pub items: Vec<String>,
    pub item_is_num: Vec<bool>,
}

pub open spec fn item_pairs(items: Seq<String>, nums: Seq<bool>) -> Seq<(Seq<char>, bool)> {
    Seq::new(items.len(), |k: int| (items[k]@, nums[k]))
}

pub open spec fn model_items(m: PivotFieldModel) -> Seq<(Seq<char>, bool)> {
    item_pairs(m.items@, m.item_is_num@)
}

pub open spec fn model_view(m: PivotFieldModel) -> (Seq<char>, bool, bool, Seq<(Seq<char>, bool)>) {
    (m.name@, m.numeric, m.has_items, model_items(m))
}

pub open spec fn model_wf(m: PivotFieldModel) -> bool {
    m.items@.len() == m.item_is_num@.len()
}

/// Whether a flag is given for every source cell.
pub open spec fn flags_cover(cells: Seq<Vec<PivotCell>>, flags: Seq<Vec<bool>>) -> bool {
    flags.len() == cells.len() && forall|r: int| 0 <= r < cells.len() ==> #[trigger] flags[r]@.len() == cells[r]@.len()
}

/// A data cell of the column that holds text.
pub open spec fn has_text(cells: Seq<Vec<PivotCell>>, r: int, col: int) -> bool {
    col < cells[r]@.len() && !cells[r]@[col].null && cells[r]@[col].value@.len() > 0
}

/// Whether any data row (below the header) has text in the column.
pub open spec fn column_has_data(cells: Seq<Vec<PivotCell>>, col: int) -> bool {
    exists|r: int| 1 <= r < cells.len() && #[trigger] has_text(cells, r, col)
}

/// A column is numeric when it has data and every text in it is a number
/// (`flags` says which cells hold a number).
pub open spec fn column_numeric(cells: Seq<Vec<PivotCell>>, flags: Seq<Vec<bool>>, col: int) -> bool {
    column_has_data(cells, col) && forall|r: int| 1 <= r < cells.len() && #[trigger] has_text(cells, r, col) ==> flags[r]@[col]
}

/// The item a data row gives the column: its text, or empty for a missing
/// or null cell.
pub open spec fn item_value(cells: Seq<Vec<PivotCell>>, r: int, col: int) -> Seq<char> {
    if col < cells[r]@.len() && !cells[r]@[col].null {
        cells[r]@[col].value@
    } else {
        Seq::empty()
    }
}

pub open spec fn item_listed(items: Seq<(Seq<char>, bool)>, v: Seq<char>) -> bool {
    exists|k: int| 0 <= k < items.len() && (#[trigger] items[k]).0 == v
}

/// The distinct items of the column over data rows `1..n`, first
/// occurrences kept, each with whether it is a (non-empty) number.
pub open spec fn items_upto(cells: Seq<Vec<PivotCell>>, flags: Seq<Vec<bool>>, col: int, n: int) -> Seq<(Seq<char>, bool)>
    decreases n,
{
    if n <= 1 {
        Seq::empty()
    } else {
        let prev = items_upto(cells, flags, col, n - 1);
        let v = item_value(cells, n - 1, col);
        if item_listed(prev, v) {
            prev
        } else {
            prev.push((v, v.len() > 0 && flags[n - 1]@[col]))
        }
    }
}

/// The field a column of the source gives the cache.
proof fn lemma_items_upto_len(cells: Seq<Vec<PivotCell>>, flags: Seq<Vec<bool>>, col: int, n: int)
    requires
        n >= 1,
    ensures
        items_upto(cells, flags, col, n).len() <= n - 1,
    decreases n,
{
    if n > 1 {
        lemma_items_upto_len(cells, flags, col, n - 1);
    }
}

pub open spec fn field_model_spec(
    cells: Seq<Vec<PivotCell>>,
    flags: Seq<Vec<bool>>,
    name: Seq<char>,
    axis: Seq<usize>,
    col: int,
) -> (Seq<char>, bool, bool, Seq<(Seq<char>, bool)>) {
    let numeric = column_numeric(cells, flags, col);
    let has_items = axis.contains(col as usize) || !numeric;
    (name, numeric, has_items, if has_items { items_upto(cells, flags, col, cells.len() as int) } else { Seq::empty() })
}

fn field_model(cells: &Vec<Vec<PivotCell>>, flags: &Vec<Vec<bool>>, name: &String, axis: &Vec<usize>, col: usize) -> (r:
    PivotFieldModel)
    requires
        flags_cover(cells@, flags@),
    ensures
        model_wf(r),
        model_view(r) == field_model_spec(cells@, flags@, name@, axis@, col as int),
{
    let mut has_data = false;
    let mut all_num = true;
    let mut r: usize = 1;
    while r < cells.len()
        invariant
            1 <= r,
            r <= cells.len() || r == 1,
            flags_cover(cells@, flags@),
            has_data == (exists|q: int| 1 <= q < r && #[trigger] has_text(cells@, q, col as int)),
            all_num == (forall|q: int| 1 <= q < r && #[trigger] has_text(cells@, q, col as int) ==> flags@[q]@[col as int]),
        decreases cells.len() - r,
    {
        let row = &cells[r];
        if col < row.len() && !row[col].null && str_chars(row[col].value.as_str()).len() > 0 {
            proof {
                assert(has_text(cells@, r as int, col as int));
                assert(flags@[r as int]@.len() == cells@[r as int]@.len());
            }
            has_data = true;
            if !flags[r][col] {
                all_num = false;
            }
        } else {
            proof {
                assert(!has_text(cells@, r as int, col as int));
            }
        }
        r = r + 1;
    }
    let numeric = has_data && all_num;
    proof {
        if cells@.len() == 0 {
            assert(!column_has_data(cells@, col as int));
        } else {
            assert(r == cells@.len());
            if has_data {
                let q = choose|q: int| 1 <= q < r && #[trigger] has_text(cells@, q, col as int);
                assert(column_has_data(cells@, col as int));
            }
            assert(has_data == column_has_data(cells@, col as int));
            if !all_num {
                let q = choose|q: int| !(1 <= q < r && #[trigger] has_text(cells@, q, col as int) ==> flags@[q]@[col as int]);
                assert(1 <= q < cells@.len() && has_text(cells@, q, col as int) && !flags@[q]@[col as int]);
                assert(!column_numeric(cells@, flags@, col as int));
            } else {
                assert forall|q: int| 1 <= q < cells@.len() && #[trigger] has_text(cells@, q, col as int) implies flags@[q]@[col as int] by {
                }
            }
        }
        assert(numeric == column_numeric(cells@, flags@, col as int));
    }
    let mut in_axis = false;
    let mut a: usize = 0;
    while a < axis.len()
        invariant
            0 <= a <= axis.len(),
            in_axis == (exists|k: int| 0 <= k < a && axis@[k] == col),
        decreases axis.len() - a,
    {
        if axis[a] == col {
            in_axis = true;
        }
        a = a + 1;
    }
    proof {
        assert(in_axis == axis@.contains(col));
    }
    let has_items = in_axis || !numeric;
    let mut items: Vec<String> = Vec::new();
    let mut item_is_num: Vec<bool> = Vec::new();
    let ghost expected: Seq<(Seq<char>, bool)> = if has_items {
        items_upto(cells@, flags@, col as int, cells@.len() as int)
    } else {
        Seq::empty()
    };
    if has_items {
        let mut r: usize = 1;
        while r < cells.len()
            invariant
                1 <= r,
            r <= cells.len() || r == 1,
                flags_cover(cells@, flags@),
                items@.len() == item_is_num@.len(),
                item_pairs(items@, item_is_num@) == items_upto(cells@, flags@, col as int, r as int),
            decreases cells.len() - r,
        {
            let row = &cells[r];
            let v: String = if col < row.len() && !row[col].null {
                to_string(row[col].value.as_str())
            } else {
                to_string("")
            };
            proof {
                reveal_strlit("");
                assert(v@ == item_value(cells@, r as int, col as int));
            }
            let ghost prev = item_pairs(items@, item_is_num@);
            let mut found = false;
            let mut k: usize = 0;
            while k < items.len()
                invariant
                    0 <= k <= items.len(),
                    items@.len() == item_is_num@.len(),
                    prev == item_pairs(items@, item_is_num@),
                    found == (exists|j: int| 0 <= j < k && items@[j]@ == v@),
                decreases items.len() - k,
            {
                if str_eq(items[k].as_str(), v.as_str()) {
                    found = true;
                }
                k = k + 1;
            }
            proof {
                if found {
                    let j = choose|j: int| 0 <= j < items@.len() && items@[j]@ == v@;
                    assert(prev[j].0 == v@);
                    assert(item_listed(prev, v@));
                } else {
                    assert forall|j: int| 0 <= j < prev.len() implies (#[trigger] prev[j]).0 != v@ by {
                        assert(prev[j].0 == items@[j]@);
                    }
                    assert(!item_listed(prev, v@));
                }
            }
            if !found {
                let is_num = str_chars(v.as_str()).len() > 0 && flags[r][col];
                proof {
                    if v@.len() > 0 {
                        assert(flags@[r as int]@.len() == cells@[r as int]@.len());
                    }
                }
                items.push(v);
                item_is_num.push(is_num);
                proof {
                    assert(item_pairs(items@, item_is_num@) =~= prev.push((v@, is_num)));
                }
            }
            r = r + 1;
        }
        proof {
            if cells@.len() == 0 {
                assert(items_upto(cells@, flags@, col as int, 0) == Seq::<(Seq<char>, bool)>::empty());
                assert(items_upto(cells@, flags@, col as int, 1) == Seq::<(Seq<char>, bool)>::empty());
            } else {
                assert(r == cells@.len());
            }
            assert(expected == items_upto(cells@, flags@, col as int, cells@.len() as int));
            assert(item_pairs(items@, item_is_num@) == expected);
        }
    } else {
        proof {
            assert(item_pairs(items@, item_is_num@) =~= Seq::<(Seq<char>, bool)>::empty());
        }
    }
    let ghost got = item_pairs(items@, item_is_num@);
    proof {
        assert(got == expected);
    }
    let m = PivotFieldModel { name: to_string(name.as_str()), numeric, has_items, items, item_is_num };
    proof {
        assert(model_items(m) =~= got);
    }
    m
}

/// `build_pivot_field_models`: one cache field per header. Which source
/// cells hold a number is given by `number_flags`, cell for cell.
pub fn build_pivot_field_models(
    cells: &Vec<Vec<PivotCell>>,
    headers: &Vec<String>,
    axis: &Vec<usize>,
    number_flags: &Vec<Vec<bool>>,
) -> (r: Vec<PivotFieldModel>)
    requires
        flags_cover(cells@, number_flags@),
    ensures
        r@.len() == headers@.len(),
        forall|c: int| 0 <= c < r@.len() ==> model_wf(#[trigger] r@[c]),
        forall|c: int|
            0 <= c < r@.len() ==> model_view(#[trigger] r@[c]) == field_model_spec(
                cells@,
                number_flags@,
                headers@[c]@,
                axis@,
                c,
            ),
{
    let mut out: Vec<PivotFieldModel> = Vec::new();
    let mut c: usize = 0;
    while c < headers.len()
        invariant
            0 <= c <= headers.len(),
            out@.len() == c,
            flags_cover(cells@, number_flags@),
            forall|k: int| 0 <= k < c ==> model_wf(#[trigger] out@[k]),
            forall|k: int|
                0 <= k < c ==> model_view(#[trigger] out@[k]) == field_model_spec(cells@, number_flags@, headers@[k]@, axis@, k),
        decreases headers.len() - c,
    {
        let m = field_model(cells, number_flags, &headers[c], axis, c);
        out.push(m);
        c = c + 1;
    }
    out
}

// ---------------------------------------------------------------------------
// Writing the parts
// ---------------------------------------------------------------------------

fn push_str(out: &mut Vec<char>, s: &str)
    ensures
        final(out)@ == old(out)@ + s@,
{
    let v = str_chars(s);
    crate::text::push_all(out, &v);
}

fn push_escaped(out: &mut Vec<char>, s: &str)
    ensures
        final(out)@ == old(out)@ + attr_escape(s@),
{
    let e = xml_attr_escape(s);
    push_str(out, e.as_str());
}

fn push_usize(out: &mut Vec<char>, n: usize)
    ensures
        final(out)@ == old(out)@ + decimal(n as nat),
{
    let t = u64_to_string(n as u64);
    push_str(out, t.as_str());
}

pub open spec fn main_ns() -> Seq<char> {
    "http://schemas.openxmlformats.org/spreadsheetml/2006/main"@
}

pub open spec fn office_rels_ns() -> Seq<char> {
    "http://schemas.openxmlformats.org/officeDocument/2006/relationships"@
}

pub open spec fn xml_decl() -> Seq<char> {
    "<?xml version=\"1.0\" encoding=\"UTF-8\"?>"@
}

/// The position of the first item equal to `v` from `k` on, or 0.
pub open spec fn item_pos_from(items: Seq<(Seq<char>, bool)>, v: Seq<char>, k: int) -> int
    decreases items.len() - k,
{
    if k < 0 || k >= items.len() {
        0
    } else if items[k].0 == v {
        k
    } else {
        item_pos_from(items, v, k + 1)
    }
}

proof fn lemma_item_pos_bounds(items: Seq<(Seq<char>, bool)>, v: Seq<char>, k: int)
    requires
        0 <= k,
    ensures
        0 <= item_pos_from(items, v, k),
        items.len() > 0 ==> item_pos_from(items, v, k) < items.len(),
    decreases items.len() - k,
{
    if k < items.len() && items[k].0 != v {
        lemma_item_pos_bounds(items, v, k + 1);
    }
}

/// How a record writes one field's value: the item's index for a field
/// with items, else the number itself (`<m/>` when empty).
pub open spec fn record_value_xml(m: (Seq<char>, bool, bool, Seq<(Seq<char>, bool)>), v: Seq<char>) -> Seq<char> {
    if m.2 {
        "<x v=\""@ + decimal(item_pos_from(m.3, v, 0) as nat) + "\"/>"@
    } else if v.len() == 0 {
        "<m/>"@
    } else {
        "<n v=\""@ + attr_escape(v) + "\"/>"@
    }
}

pub open spec fn record_cells_xml(cells: Seq<Vec<PivotCell>>, fields: Seq<PivotFieldModel>, r: int, n: int) -> Seq<char>
    decreases n,
{
    if n <= 0 {
        Seq::empty()
    } else {
        record_cells_xml(cells, fields, r, n - 1) + record_value_xml(model_view(fields[n - 1]), item_value(cells, r, n - 1))
    }
}

/// The records of data rows `1..m`.
pub open spec fn records_xml(cells: Seq<Vec<PivotCell>>, fields: Seq<PivotFieldModel>, m: int) -> Seq<char>
    decreases m,
{
    if m <= 1 {
        Seq::empty()
    } else {
        records_xml(cells, fields, m - 1) + "<r>"@ + record_cells_xml(cells, fields, m - 1, fields.len() as int) + "</r>"@
    }
}

/// The pivot cache records part.
pub open spec fn cache_records_spec(cells: Seq<Vec<PivotCell>>, fields: Seq<PivotFieldModel>) -> Seq<char> {
    xml_decl() + "\n<pivotCacheRecords xmlns=\""@ + main_ns() + "\" xmlns:r=\""@ + office_rels_ns() + "\" count=\""@
        + decimal((if cells.len() > 0 { cells.len() - 1 } else { 0 }) as nat) + "\">"@ + records_xml(cells, fields, cells.len() as int)
        + "</pivotCacheRecords>"@
}

fn push_record_value(out: &mut Vec<char>, m: &PivotFieldModel, v: &str)
    requires
        model_wf(*m),
    ensures
        final(out)@ == old(out)@ + record_value_xml(model_view(*m), v@),
{
    if m.has_items {
        let mut k: usize = 0;
        let mut pos: usize = 0;
        let mut found = false;
        while k < m.items.len()
            invariant
                0 <= k <= m.items.len(),
                model_wf(*m),
                !found ==> item_pos_from(model_items(*m), v@, k as int) == item_pos_from(model_items(*m), v@, 0),
                !found ==> pos == 0,
                found ==> pos as int == item_pos_from(model_items(*m), v@, 0),
            decreases m.items.len() - k,
        {
            if !found && str_eq(m.items[k].as_str(), v) {
                proof {
                    assert(model_items(*m)[k as int].0 == v@);
                }
                pos = k;
                found = true;
            } else if !found {
                proof {
                    assert(model_items(*m)[k as int].0 != v@);
                }
            }
            k = k + 1;
        }
        proof {
            if !found {
                assert(item_pos_from(model_items(*m), v@, k as int) == 0);
            }
        }
        proof {
            assert(pos as int == item_pos_from(model_items(*m), v@, 0));
        }
        push_str(out, "<x v=\"");
        push_usize(out, pos);
        push_str(out, "\"/>");
        proof {
            assert(model_view(*m).2);
            assert(out@ =~= old(out)@ + ("<x v=\""@ + decimal(pos as nat) + "\"/>"@));
        }
    } else if str_chars(v).len() == 0 {
        push_str(out, "<m/>");
    } else {
        push_str(out, "<n v=\"");
        push_escaped(out, v);
        push_str(out, "\"/>");
    }
    proof {
        assert(out@ =~= old(out)@ + record_value_xml(model_view(*m), v@));
    }
}

/// `render_cache_records_xml`: one record per data row, one value per field.
pub fn render_cache_records_xml(cells: &Vec<Vec<PivotCell>>, fields: &Vec<PivotFieldModel>) -> (r: String)
    requires
        forall|c: int| 0 <= c < fields@.len() ==> model_wf(#[trigger] fields@[c]),
    ensures
        r@ == cache_records_spec(cells@, fields@),
{
    let mut out: Vec<char> = Vec::new();
    push_str(&mut out, "<?xml version=\"1.0\" encoding=\"UTF-8\"?>\n<pivotCacheRecords xmlns=\"http://schemas.openxmlformats.org/spreadsheetml/2006/main\" xmlns:r=\"http://schemas.openxmlformats.org/officeDocument/2006/relationships\" count=\"");
    let count: usize = if cells.len() > 0 { cells.len() - 1 } else { 0 };
    push_usize(&mut out, count);
    push_str(&mut out, "\">");
    proof {
        reveal_strlit("<?xml version=\"1.0\" encoding=\"UTF-8\"?>\n<pivotCacheRecords xmlns=\"http://schemas.openxmlformats.org/spreadsheetml/2006/main\" xmlns:r=\"http://schemas.openxmlformats.org/officeDocument/2006/relationships\" count=\"");
        reveal_strlit("<?xml version=\"1.0\" encoding=\"UTF-8\"?>");
        reveal_strlit("\n<pivotCacheRecords xmlns=\"");
        reveal_strlit("http://schemas.openxmlformats.org/spreadsheetml/2006/main");
        reveal_strlit("\" xmlns:r=\"");
        reveal_strlit("http://schemas.openxmlformats.org/officeDocument/2006/relationships");
        reveal_strlit("\" count=\"");
        assert("<?xml version=\"1.0\" encoding=\"UTF-8\"?>\n<pivotCacheRecords xmlns=\"http://schemas.openxmlformats.org/spreadsheetml/2006/main\" xmlns:r=\"http://schemas.openxmlformats.org/officeDocument/2006/relationships\" count=\""@
            =~= xml_decl() + "\n<pivotCacheRecords xmlns=\""@ + main_ns() + "\" xmlns:r=\""@ + office_rels_ns() + "\" count=\""@);
    }
    let ghost head = out@;
    let mut r: usize = 1;
    while r < cells.len()
        invariant
            1 <= r,
            r <= cells.len() || r == 1,
            forall|c: int| 0 <= c < fields@.len() ==> model_wf(#[trigger] fields@[c]),
            out@ == head + records_xml(cells@, fields@, r as int),
        decreases cells.len() - r,
    {
        let ghost before_row = out@;
        push_str(&mut out, "<r>");
        let ghost row_start = out@;
        let row = &cells[r];
        let mut c: usize = 0;
        while c < fields.len()
            invariant
                0 <= c <= fields.len(),
                row@ == cells@[r as int]@,
                forall|k: int| 0 <= k < fields@.len() ==> model_wf(#[trigger] fields@[k]),
                out@ == row_start + record_cells_xml(cells@, fields@, r as int, c as int),
            decreases fields.len() - c,
        {
            let v: &str = if c < row.len() && !row[c].null {
                row[c].value.as_str()
            } else {
                ""
            };
            proof {
                reveal_strlit("");
                assert(v@ == item_value(cells@, r as int, c as int));
            }
            push_record_value(&mut out, &fields[c], v);
            proof {
                assert(out@ =~= row_start + record_cells_xml(cells@, fields@, r as int, c + 1));
            }
            c = c + 1;
        }
        push_str(&mut out, "</r>");
        proof {
            assert(out@ =~= head + records_xml(cells@, fields@, r + 1));
        }
        r = r + 1;
    }
    push_str(&mut out, "</pivotCacheRecords>");
    proof {
        if cells@.len() == 0 {
            assert(records_xml(cells@, fields@, 0) == Seq::<char>::empty());
            assert(records_xml(cells@, fields@, 1) == Seq::<char>::empty());
        }
        assert(out@ =~= cache_records_spec(cells@, fields@));
    }
    string_from_chars(out.as_slice())
}

pub open spec fn rel_triple_xml(t: (Seq<char>, Seq<char>, Seq<char>)) -> Seq<char> {
    "<Relationship Id=\""@ + attr_escape(t.0) + "\" Type=\""@ + attr_escape(t.1) + "\" Target=\""@ + attr_escape(t.2)
        + "\"/>"@
}

pub open spec fn rel_triples_xml(v: Seq<(Seq<char>, Seq<char>, Seq<char>)>, n: int) -> Seq<char>
    decreases n,
{
    if n <= 0 {
        Seq::empty()
    } else {
        rel_triples_xml(v, n - 1) + rel_triple_xml(v[n - 1])
    }
}

pub open spec fn triples_view(v: Seq<(String, String, String)>) -> Seq<(Seq<char>, Seq<char>, Seq<char>)> {
    v.map_values(|t: (String, String, String)| (t.0@, t.1@, t.2@))
}

/// A relationships part holding the given `(id, type, target)` entries.
pub open spec fn relationships_xml_spec(v: Seq<(Seq<char>, Seq<char>, Seq<char>)>) -> Seq<char> {
    xml_decl() + "<Relationships xmlns=\"http://schemas.openxmlformats.org/package/2006/relationships\">"@
        + rel_triples_xml(v, v.len() as int) + "</Relationships>"@
}

fn push_rel_triple(out: &mut Vec<char>, t: &(String, String, String))
    ensures
        final(out)@ == old(out)@ + rel_triple_xml((t.0@, t.1@, t.2@)),
{
    push_str(out, "<Relationship Id=\"");
    push_escaped(out, t.0.as_str());
    push_str(out, "\" Type=\"");
    push_escaped(out, t.1.as_str());
    push_str(out, "\" Target=\"");
    push_escaped(out, t.2.as_str());
    push_str(out, "\"/>");
    proof {
        assert(out@ =~= old(out)@ + rel_triple_xml((t.0@, t.1@, t.2@)));
    }
}

/// `render_relationships_xml`.
pub fn render_relationships_xml(relationships: &Vec<(String, String, String)>) -> (r: String)
    ensures
        r@ == relationships_xml_spec(triples_view(relationships@)),
{
    let mut out: Vec<char> = Vec::new();
    push_str(&mut out, "<?xml version=\"1.0\" encoding=\"UTF-8\"?><Relationships xmlns=\"http://schemas.openxmlformats.org/package/2006/relationships\">");
    proof {
        reveal_strlit("<?xml version=\"1.0\" encoding=\"UTF-8\"?><Relationships xmlns=\"http://schemas.openxmlformats.org/package/2006/relationships\">");
        reveal_strlit("<?xml version=\"1.0\" encoding=\"UTF-8\"?>");
        reveal_strlit("<Relationships xmlns=\"http://schemas.openxmlformats.org/package/2006/relationships\">");
        assert(out@ =~= xml_decl() + "<Relationships xmlns=\"http://schemas.openxmlformats.org/package/2006/relationships\">"@);
    }
    let ghost head = out@;
    let ghost tv = triples_view(relationships@);
    let mut i: usize = 0;
    while i < relationships.len()
        invariant
            0 <= i <= relationships.len(),
            tv == triples_view(relationships@),
            out@ == head + rel_triples_xml(tv, i as int),
        decreases relationships.len() - i,
    {
        let t = &relationships[i];
        push_rel_triple(&mut out, t);
        proof {
            assert(tv[i as int] == (t.0@, t.1@, t.2@));
            assert(out@ =~= head + rel_triples_xml(tv, i + 1));
        }
        i = i + 1;
    }
    push_str(&mut out, "</Relationships>");
    string_from_chars(out.as_slice())
}

// ---------------------------------------------------------------------------
// The pivot table part
// ---------------------------------------------------------------------------

pub open spec fn idx_has(v: Seq<usize>, x: int) -> bool {
    exists|k: int| 0 <= k < v.len() && v[k] as int == x
}

/// The axis a field sits on: a filter field over a column field over a row
/// field.
pub open spec fn role_of(row: Seq<usize>, col: Seq<usize>, page: Seq<usize>, i: int) -> Option<Seq<char>> {
    if idx_has(page, i) {
        Some("axisPage"@)
    } else if idx_has(col, i) {
        Some("axisCol"@)
    } else if idx_has(row, i) {
        Some("axisRow"@)
    } else {
        None
    }
}

pub open spec fn item_refs_xml(n: int) -> Seq<char>
    decreases n,
{
    if n <= 0 {
        Seq::empty()
    } else {
        item_refs_xml(n - 1) + "<item x=\""@ + decimal((n - 1) as nat) + "\"/>"@
    }
}

pub open spec fn pivot_field_xml(item_count: int, role: Option<Seq<char>>, is_data: bool) -> Seq<char> {
    match role {
        Some(axis) => "<pivotField axis=\""@ + axis + "\" showAll=\"0\"><items count=\""@ + decimal((item_count + 1) as nat)
            + "\">"@ + item_refs_xml(item_count) + "<item t=\"default\"/></items></pivotField>"@,
        None => if is_data {
            "<pivotField dataField=\"1\" showAll=\"0\"/>"@
        } else {
            "<pivotField showAll=\"0\"/>"@
        },
    }
}

pub open spec fn pivot_fields_xml(
    fields: Seq<PivotFieldModel>,
    row: Seq<usize>,
    col: Seq<usize>,
    page: Seq<usize>,
    data_idx: Seq<usize>,
    n: int,
) -> Seq<char>
    decreases n,
{
    if n <= 0 {
        Seq::empty()
    } else {
        pivot_fields_xml(fields, row, col, page, data_idx, n - 1) + pivot_field_xml(
            fields[n - 1].items@.len() as int,
            role_of(row, col, page, n - 1),
            idx_has(data_idx, n - 1),
        )
    }
}

pub open spec fn field_refs_xml(v: Seq<usize>, n: int) -> Seq<char>
    decreases n,
{
    if n <= 0 {
        Seq::empty()
    } else {
        field_refs_xml(v, n - 1) + "<field x=\""@ + decimal(v[n - 1] as nat) + "\"/>"@
    }
}

pub open spec fn page_refs_xml(v: Seq<usize>, n: int) -> Seq<char>
    decreases n,
{
    if n <= 0 {
        Seq::empty()
    } else {
        page_refs_xml(v, n - 1) + "<pageField fld=\""@ + decimal(v[n - 1] as nat) + "\" hier=\"-1\"/>"@
    }
}

pub open spec fn data_field_xml(d: (int, Seq<char>, Seq<char>)) -> Seq<char> {
    "<dataField name=\""@ + attr_escape(d.2) + "\" fld=\""@ + decimal(d.0 as nat) + "\""@ + (if d.1 != "sum"@ {
        " subtotal=\""@ + attr_escape(d.1) + "\""@
    } else {
        Seq::empty()
    }) + " baseField=\"0\" baseItem=\"0\"/>"@
}

pub open spec fn data_fields_xml(v: Seq<(int, Seq<char>, Seq<char>)>, n: int) -> Seq<char>
    decreases n,
{
    if n <= 0 {
        Seq::empty()
    } else {
        data_fields_xml(v, n - 1) + data_field_xml(v[n - 1])
    }
}

pub open spec fn pivot_table_head() -> Seq<char> {
    "\" applyNumberFormats=\"0\" applyBorderFormats=\"0\" applyFontFormats=\"0\" applyPatternFormats=\"0\" applyAlignmentFormats=\"0\" applyWidthHeightFormats=\"1\" dataCaption=\"Values\" updatedVersion=\"6\" minRefreshableVersion=\"3\" useAutoFormatting=\"1\" itemPrintTitles=\"1\" createdVersion=\"6\" indent=\"0\" outline=\"1\" outlineData=\"1\" multipleFieldFilters=\"0\">"@
}

pub open spec fn pivot_table_tail() -> Seq<char> {
    "</dataFields><pivotTableStyleInfo name=\"PivotStyleLight16\" showRowHeaders=\"1\" showColHeaders=\"1\" showRowStripes=\"0\" showColStripes=\"0\" showLastColumn=\"1\"/></pivotTableDefinition>"@
}

pub open spec fn pt_head(name: Seq<char>, cache_id: i32) -> Seq<char> {
    xml_decl() + "\n<pivotTableDefinition xmlns=\""@ + main_ns() + "\" name=\""@ + attr_escape(name) + "\" cacheId=\""@
        + decimal_int(cache_id as int) + pivot_table_head()
}

pub open spec fn pt_location(location: Seq<char>, page: Seq<usize>) -> Seq<char> {
    "<location ref=\""@ + attr_escape(location) + "\" firstHeaderRow=\"1\" firstDataRow=\"2\" firstDataCol=\"1\""@ + (if page.len()
        > 0 {
        " rowPageCount=\"1\" colPageCount=\""@ + decimal(page.len()) + "\""@
    } else {
        Seq::empty()
    }) + "/>"@
}

pub open spec fn pt_fields(
    fields: Seq<PivotFieldModel>,
    row: Seq<usize>,
    col: Seq<usize>,
    page: Seq<usize>,
    data_idx: Seq<usize>,
) -> Seq<char> {
    "<pivotFields count=\""@ + decimal(fields.len()) + "\">"@ + pivot_fields_xml(fields, row, col, page, data_idx, fields.len() as int)
        + "</pivotFields>"@
}

#[verifier::opaque]
pub open spec fn axis_refs(v: Seq<usize>, open: Seq<char>, close: Seq<char>) -> Seq<char> {
    if v.len() > 0 {
        open + decimal(v.len()) + "\">"@ + field_refs_xml(v, v.len() as int) + close
    } else {
        Seq::empty()
    }
}

#[verifier::opaque]
pub open spec fn page_part(page: Seq<usize>) -> Seq<char> {
    if page.len() > 0 {
        "<pageFields count=\""@ + decimal(page.len()) + "\">"@ + page_refs_xml(page, page.len() as int) + "</pageFields>"@
    } else {
        Seq::empty()
    }
}

pub open spec fn pt_axes(row: Seq<usize>, col: Seq<usize>, page: Seq<usize>) -> Seq<char> {
    axis_refs(row, "<rowFields count=\""@, "</rowFields>"@) + axis_refs(col, "<colFields count=\""@, "</colFields>"@)
        + page_part(page)
}

pub open spec fn pt_data(data_fields: Seq<(int, Seq<char>, Seq<char>)>) -> Seq<char> {
    "<dataFields count=\""@ + decimal(data_fields.len()) + "\">"@ + data_fields_xml(data_fields, data_fields.len() as int)
        + pivot_table_tail()
}

/// The pivot table definition part.
pub open spec fn pivot_table_spec(
    name: Seq<char>,
    cache_id: i32,
    location: Seq<char>,
    fields: Seq<PivotFieldModel>,
    row: Seq<usize>,
    col: Seq<usize>,
    page: Seq<usize>,
    data_fields: Seq<(int, Seq<char>, Seq<char>)>,
    data_idx: Seq<usize>,
) -> Seq<char> {
    pt_head(name, cache_id) + pt_location(location, page) + pt_fields(fields, row, col, page, data_idx) + pt_axes(row, col, page)
        + pt_data(data_fields)
}

fn vec_has(v: &Vec<usize>, x: usize) -> (r: bool)
    ensures
        r == idx_has(v@, x as int),
{
    let mut k: usize = 0;
    while k < v.len()
        invariant
            0 <= k <= v.len(),
            forall|j: int| 0 <= j < k ==> v@[j] != x,
        decreases v.len() - k,
    {
        if v[k] == x {
            return true;
        }
        k = k + 1;
    }
    false
}

fn push_field_refs(out: &mut Vec<char>, v: &Vec<usize>, open: &str, close: &str)
    requires
        v@.len() > 0,
    ensures
        final(out)@ == old(out)@ + axis_refs(v@, open@, close@),
{
    proof {
        reveal(axis_refs);
    }
    push_str(out, open);
    push_usize(out, v.len());
    push_str(out, "\">");
    let ghost start = out@;
    let mut i: usize = 0;
    while i < v.len()
        invariant
            0 <= i <= v.len(),
            out@ == start + field_refs_xml(v@, i as int),
        decreases v.len() - i,
    {
        push_str(out, "<field x=\"");
        push_usize(out, v[i]);
        push_str(out, "\"/>");
        proof {
            assert(out@ =~= start + field_refs_xml(v@, i + 1));
        }
        i = i + 1;
    }
    push_str(out, close);
    proof {
        assert(out@ =~= old(out)@ + (open@ + decimal(v@.len()) + "\">"@ + field_refs_xml(v@, v@.len() as int) + close@));
    }
}

fn push_pivot_field(out: &mut Vec<char>, item_count: usize, role: Option<&str>, is_data: bool)
    requires
        item_count < usize::MAX,
    ensures
        final(out)@ == old(out)@ + pivot_field_xml(item_count as int, match role {
            Some(a) => Some(a@),
            None => None,
        }, is_data),
{
    match role {
        Some(axis) => {
            push_str(out, "<pivotField axis=\"");
            push_str(out, axis);
            push_str(out, "\" showAll=\"0\"><items count=\"");
            push_usize(out, item_count + 1);
            push_str(out, "\">");
            let ghost start = out@;
            let mut k: usize = 0;
            while k < item_count
                invariant
                    0 <= k <= item_count,
                    out@ == start + item_refs_xml(k as int),
                decreases item_count - k,
            {
                push_str(out, "<item x=\"");
                push_usize(out, k);
                push_str(out, "\"/>");
                proof {
                    assert(out@ =~= start + item_refs_xml(k + 1));
                }
                k = k + 1;
            }
            push_str(out, "<item t=\"default\"/></items></pivotField>");
            proof {
                assert(out@ =~= old(out)@ + pivot_field_xml(item_count as int, Some(axis@), is_data));
            }
        },
        None => {
            if is_data {
                push_str(out, "<pivotField dataField=\"1\" showAll=\"0\"/>");
            } else {
                push_str(out, "<pivotField showAll=\"0\"/>");
            }
        },
    }
}

fn push_pt_head(out: &mut Vec<char>, name: &str, cache_id: i32)
    ensures
        final(out)@ == old(out)@ + pt_head(name@, cache_id),
{
    proof {
        reveal_strlit("<?xml version=\"1.0\" encoding=\"UTF-8\"?>\n<pivotTableDefinition xmlns=\"http://schemas.openxmlformats.org/spreadsheetml/2006/main\" name=\"");
        reveal_strlit("<?xml version=\"1.0\" encoding=\"UTF-8\"?>");
        reveal_strlit("\n<pivotTableDefinition xmlns=\"");
        reveal_strlit("http://schemas.openxmlformats.org/spreadsheetml/2006/main");
        reveal_strlit("\" name=\"");
    }
    let ghost start = out@;
    push_str(out, "<?xml version=\"1.0\" encoding=\"UTF-8\"?>\n<pivotTableDefinition xmlns=\"http://schemas.openxmlformats.org/spreadsheetml/2006/main\" name=\"");
    proof {
        assert(out@ =~= start + (xml_decl() + "\n<pivotTableDefinition xmlns=\""@ + main_ns() + "\" name=\""@));
    }
    push_escaped(out, name);
    push_str(out, "\" cacheId=\"");
    let id_text = crate::text::i64_to_string(cache_id as i64);
    push_str(out, id_text.as_str());
    push_str(out, "\" applyNumberFormats=\"0\" applyBorderFormats=\"0\" applyFontFormats=\"0\" applyPatternFormats=\"0\" applyAlignmentFormats=\"0\" applyWidthHeightFormats=\"1\" dataCaption=\"Values\" updatedVersion=\"6\" minRefreshableVersion=\"3\" useAutoFormatting=\"1\" itemPrintTitles=\"1\" createdVersion=\"6\" indent=\"0\" outline=\"1\" outlineData=\"1\" multipleFieldFilters=\"0\">");
    proof {
        assert(out@ =~= start + pt_head(name@, cache_id));
    }
}

fn push_pt_location(out: &mut Vec<char>, location: &str, page_idx: &Vec<usize>)
    ensures
        final(out)@ == old(out)@ + pt_location(location@, page_idx@),
{
    push_str(out, "<location ref=\"");
    push_escaped(out, location);
    push_str(out, "\" firstHeaderRow=\"1\" firstDataRow=\"2\" firstDataCol=\"1\"");
    if page_idx.len() > 0 {
        push_str(out, " rowPageCount=\"1\" colPageCount=\"");
        push_usize(out, page_idx.len());
        push_str(out, "\"");
    }
    push_str(out, "/>");
    proof {
        assert(out@ =~= old(out)@ + pt_location(location@, page_idx@));
    }
}

fn push_pt_fields(
    out: &mut Vec<char>,
    fields: &Vec<PivotFieldModel>,
    row_idx: &Vec<usize>,
    col_idx: &Vec<usize>,
    page_idx: &Vec<usize>,
    data_field_indices: &Vec<usize>,
)
    requires
        forall|c: int| 0 <= c < fields@.len() ==> (#[trigger] fields@[c]).items@.len() < usize::MAX,
    ensures
        final(out)@ == old(out)@ + pt_fields(fields@, row_idx@, col_idx@, page_idx@, data_field_indices@),
{
    push_str(out, "<pivotFields count=\"");
    push_usize(out, fields.len());
    push_str(out, "\">");
    let ghost head = out@;
    let mut i: usize = 0;
    while i < fields.len()
        invariant
            0 <= i <= fields.len(),
            forall|c: int| 0 <= c < fields@.len() ==> (#[trigger] fields@[c]).items@.len() < usize::MAX,
            out@ == head + pivot_fields_xml(fields@, row_idx@, col_idx@, page_idx@, data_field_indices@, i as int),
        decreases fields.len() - i,
    {
        let role: Option<&str> = if vec_has(page_idx, i) {
            Some("axisPage")
        } else if vec_has(col_idx, i) {
            Some("axisCol")
        } else if vec_has(row_idx, i) {
            Some("axisRow")
        } else {
            None
        };
        let is_data = vec_has(data_field_indices, i);
        proof {
            assert(fields@[i as int].items@.len() < usize::MAX);
        }
        push_pivot_field(out, fields[i].items.len(), role, is_data);
        proof {
            assert(out@ =~= head + pivot_fields_xml(fields@, row_idx@, col_idx@, page_idx@, data_field_indices@, i + 1));
        }
        i = i + 1;
    }
    push_str(out, "</pivotFields>");
    proof {
        assert(out@ =~= old(out)@ + pt_fields(fields@, row_idx@, col_idx@, page_idx@, data_field_indices@));
    }
}

fn push_page_refs(out: &mut Vec<char>, page_idx: &Vec<usize>)
    requires
        page_idx@.len() > 0,
    ensures
        final(out)@ == old(out)@ + page_part(page_idx@),
{
    proof {
        reveal(page_part);
    }
    push_str(out, "<pageFields count=\"");
    push_usize(out, page_idx.len());
    push_str(out, "\">");
    let ghost pstart = out@;
    let mut p: usize = 0;
    while p < page_idx.len()
        invariant
            0 <= p <= page_idx.len(),
            out@ == pstart + page_refs_xml(page_idx@, p as int),
        decreases page_idx.len() - p,
    {
        push_str(out, "<pageField fld=\"");
        push_usize(out, page_idx[p]);
        push_str(out, "\" hier=\"-1\"/>");
        proof {
            assert(out@ =~= pstart + page_refs_xml(page_idx@, p + 1));
        }
        p = p + 1;
    }
    push_str(out, "</pageFields>");
    proof {
        assert(out@ =~= old(out)@ + ("<pageFields count=\""@ + decimal(page_idx@.len()) + "\">"@ + page_refs_xml(
            page_idx@,
            page_idx@.len() as int,
        ) + "</pageFields>"@));
    }
}

fn push_pt_axes(out: &mut Vec<char>, row_idx: &Vec<usize>, col_idx: &Vec<usize>, page_idx: &Vec<usize>)
    ensures
        final(out)@ == old(out)@ + pt_axes(row_idx@, col_idx@, page_idx@),
{
    proof {
        reveal_strlit("<rowFields count=\"");
        reveal_strlit("</rowFields>");
        reveal_strlit("<colFields count=\"");
        reveal_strlit("</colFields>");
        reveal(axis_refs);
        reveal(page_part);
    }
    let ghost start = out@;
    if row_idx.len() > 0 {
        push_field_refs(out, row_idx, "<rowFields count=\"", "</rowFields>");
    }
    let ghost after_row = out@;
    proof {
        assert(after_row =~= start + axis_refs(row_idx@, "<rowFields count=\""@, "</rowFields>"@));
    }
    if col_idx.len() > 0 {
        push_field_refs(out, col_idx, "<colFields count=\"", "</colFields>");
    }
    let ghost after_col = out@;
    proof {
        assert(after_col =~= after_row + axis_refs(col_idx@, "<colFields count=\""@, "</colFields>"@));
    }
    if page_idx.len() > 0 {
        push_page_refs(out, page_idx);
    }
    proof {
        assert(out@ =~= after_col + page_part(page_idx@));
        assert(out@ =~= start + pt_axes(row_idx@, col_idx@, page_idx@));
    }
}

fn push_data_field(out: &mut Vec<char>, f: &PivotDataField)
    ensures
        final(out)@ == old(out)@ + data_field_xml(data_field_view(*f)),
{
    push_str(out, "<dataField name=\"");
    push_escaped(out, f.caption.as_str());
    push_str(out, "\" fld=\"");
    push_usize(out, f.field_index);
    push_str(out, "\"");
    if !str_eq(f.subtotal.as_str(), "sum") {
        push_str(out, " subtotal=\"");
        push_escaped(out, f.subtotal.as_str());
        push_str(out, "\"");
    }
    push_str(out, " baseField=\"0\" baseItem=\"0\"/>");
    proof {
        assert(out@ =~= old(out)@ + data_field_xml(data_field_view(*f)));
    }
}

fn push_pt_data(out: &mut Vec<char>, data_fields: &Vec<PivotDataField>)
    ensures
        final(out)@ == old(out)@ + pt_data(data_fields_view(data_fields@)),
{
    push_str(out, "<dataFields count=\"");
    push_usize(out, data_fields.len());
    push_str(out, "\">");
    let ghost dstart = out@;
    let ghost dv = data_fields_view(data_fields@);
    let mut d: usize = 0;
    while d < data_fields.len()
        invariant
            0 <= d <= data_fields.len(),
            dv == data_fields_view(data_fields@),
            out@ == dstart + data_fields_xml(dv, d as int),
        decreases data_fields.len() - d,
    {
        push_data_field(out, &data_fields[d]);
        proof {
            assert(dv[d as int] == data_field_view(data_fields@[d as int]));
            assert(out@ =~= dstart + data_fields_xml(dv, d + 1));
        }
        d = d + 1;
    }
    push_str(out, "</dataFields><pivotTableStyleInfo name=\"PivotStyleLight16\" showRowHeaders=\"1\" showColHeaders=\"1\" showRowStripes=\"0\" showColStripes=\"0\" showLastColumn=\"1\"/></pivotTableDefinition>");
    proof {
        assert(out@ =~= old(out)@ + pt_data(data_fields_view(data_fields@)));
    }
}

/// `render_pivot_table_xml`: the pivot table definition, with the fields on
/// their axes and the data fields.
pub fn render_pivot_table_xml(
    name: &str,
    cache_id: i32,
    location: &str,
    fields: &Vec<PivotFieldModel>,
    row_idx: &Vec<usize>,
    col_idx: &Vec<usize>,
    page_idx: &Vec<usize>,
    data_fields: &Vec<PivotDataField>,
    data_field_indices: &Vec<usize>,
) -> (r: String)
    requires
        forall|c: int| 0 <= c < fields@.len() ==> (#[trigger] fields@[c]).items@.len() < usize::MAX,
    ensures
        r@ == pivot_table_spec(
            name@,
            cache_id,
            location@,
            fields@,
            row_idx@,
            col_idx@,
            page_idx@,
            data_fields_view(data_fields@),
            data_field_indices@,
        ),
{
    let mut out: Vec<char> = Vec::new();
    push_pt_head(&mut out, name, cache_id);
    push_pt_location(&mut out, location, page_idx);
    push_pt_fields(&mut out, fields, row_idx, col_idx, page_idx, data_field_indices);
    push_pt_axes(&mut out, row_idx, col_idx, page_idx);
    push_pt_data(&mut out, data_fields);
    proof {
        assert(out@ =~= pivot_table_spec(
            name@,
            cache_id,
            location@,
            fields@,
            row_idx@,
            col_idx@,
            page_idx@,
            data_fields_view(data_fields@),
            data_field_indices@,
        ));
    }
    string_from_chars(out.as_slice())
}

// ---------------------------------------------------------------------------
// The cache definition part
// ---------------------------------------------------------------------------

/// The source range a pivot is built from, with its cells.
#[derive(Debug)]
pub struct PivotSource {
    pub sheet: String,
    pub range: String,
    pub bounds: crate::cellref::RangeBounds,
    pub cells: Vec<Vec<PivotCell>>,
}

pub open spec fn b01(b: bool) -> Seq<char> {
    if b {
        "1"@
    } else {
        "0"@
    }
}

pub open spec fn has_blank_item(items: Seq<(Seq<char>, bool)>) -> bool {
    exists|k: int| 0 <= k < items.len() && (#[trigger] items[k]).0.len() == 0
}

pub open spec fn has_number_item(items: Seq<(Seq<char>, bool)>) -> bool {
    exists|k: int| 0 <= k < items.len() && (#[trigger] items[k]).1
}

pub open spec fn has_string_item(items: Seq<(Seq<char>, bool)>) -> bool {
    exists|k: int| 0 <= k < items.len() && (#[trigger] items[k]).0.len() > 0 && !items[k].1
}

pub open spec fn shared_item_xml(it: (Seq<char>, bool)) -> Seq<char> {
    if it.0.len() == 0 {
        "<m/>"@
    } else if it.1 {
        "<n v=\""@ + attr_escape(it.0) + "\"/>"@
    } else {
        "<s v=\""@ + attr_escape(it.0) + "\"/>"@
    }
}

pub open spec fn shared_items_xml(items: Seq<(Seq<char>, bool)>, n: int) -> Seq<char>
    decreases n,
{
    if n <= 0 {
        Seq::empty()
    } else {
        shared_items_xml(items, n - 1) + shared_item_xml(items[n - 1])
    }
}

/// The attributes saying which kinds of item a field's shared items hold.
pub open spec fn kinds_attrs(hb: bool, hn: bool, hs: bool) -> Seq<char> {
    "<sharedItems containsSemiMixedTypes=\""@ + b01(hs || hb) + "\""@ + (if hb { " containsBlank=\"1\""@ } else { Seq::empty() })
        + " containsString=\""@ + b01(hs) + "\""@ + (if hn { " containsNumber=\"1\""@ } else { Seq::empty() })
}

/// The opening tag of a field's shared items: which kinds of item occur, and
/// how many items there are.
pub open spec fn shared_items_open(items: Seq<(Seq<char>, bool)>) -> Seq<char> {
    kinds_attrs(has_blank_item(items), has_number_item(items), has_string_item(items)) + " count=\""@ + decimal(items.len())
        + "\">"@
}

/// The shared items of a field that lists them.
pub open spec fn shared_items_part(items: Seq<(Seq<char>, bool)>) -> Seq<char> {
    shared_items_open(items) + shared_items_xml(items, items.len() as int) + "</sharedItems>"@
}

/// A cache field: its shared items, or for a numeric field without items the
/// range of its numbers (written as `range` gives them).
pub open spec fn cache_field_xml(m: (Seq<char>, bool, bool, Seq<(Seq<char>, bool)>), range: (Seq<char>, Seq<char>)) -> Seq<char> {
    "\n    <cacheField name=\""@ + attr_escape(m.0) + "\" numFmtId=\"0\">"@ + (if m.2 {
        shared_items_part(m.3)
    } else {
        "<sharedItems containsString=\"0\" containsNumber=\"1\" minValue=\""@ + range.0 + "\" maxValue=\""@ + range.1 + "\"/>"@
    }) + "</cacheField>"@
}

pub open spec fn ranges_view(v: Seq<(String, String)>) -> Seq<(Seq<char>, Seq<char>)> {
    v.map_values(|t: (String, String)| (t.0@, t.1@))
}

pub open spec fn cache_fields_xml(fields: Seq<PivotFieldModel>, ranges: Seq<(Seq<char>, Seq<char>)>, n: int) -> Seq<char>
    decreases n,
{
    if n <= 0 {
        Seq::empty()
    } else {
        cache_fields_xml(fields, ranges, n - 1) + cache_field_xml(model_view(fields[n - 1]), ranges[n - 1])
    }
}

#[verifier::opaque]
pub open spec fn cache_definition_head(rid: Seq<char>, record_count: nat, range: Seq<char>, sheet: Seq<char>, n: nat) -> Seq<
    char,
> {
    xml_decl() + "\n<pivotCacheDefinition xmlns=\""@ + main_ns() + "\" xmlns:r=\""@ + office_rels_ns() + "\" r:id=\""@
        + attr_escape(rid)
        + "\" refreshOnLoad=\"1\" refreshedBy=\"ooxml-cli\" createdVersion=\"6\" refreshedVersion=\"6\" minRefreshableVersion=\"3\" recordCount=\""@
        + decimal(record_count) + "\">\n  <cacheSource type=\"worksheet\"><worksheetSource ref=\""@ + attr_escape(range) + "\" sheet=\""@
        + attr_escape(sheet) + "\"/></cacheSource>\n  <cacheFields count=\""@ + decimal(n) + "\">"@
}

/// The pivot cache definition part.
pub open spec fn cache_definition_spec(
    sheet: Seq<char>,
    range: Seq<char>,
    fields: Seq<PivotFieldModel>,
    record_count: nat,
    rid: Seq<char>,
    ranges: Seq<(Seq<char>, Seq<char>)>,
) -> Seq<char> {
    cache_definition_head(rid, record_count, range, sheet, fields.len()) + cache_fields_xml(fields, ranges, fields.len() as int)
        + "\n  </cacheFields>\n</pivotCacheDefinition>"@
}

fn item_kinds(m: &PivotFieldModel) -> (r: (bool, bool, bool))
    requires
        model_wf(*m),
    ensures
        r.0 == has_blank_item(model_items(*m)),
        r.1 == has_number_item(model_items(*m)),
        r.2 == has_string_item(model_items(*m)),
{
    let ghost items = model_items(*m);
    let mut hb = false;
    let mut hn = false;
    let mut hs = false;
    let mut k: usize = 0;
    while k < m.items.len()
        invariant
            0 <= k <= m.items.len(),
            model_wf(*m),
            items == model_items(*m),
            hb == (exists|j: int| 0 <= j < k && (#[trigger] items[j]).0.len() == 0),
            hn == (exists|j: int| 0 <= j < k && (#[trigger] items[j]).1),
            hs == (exists|j: int| 0 <= j < k && (#[trigger] items[j]).0.len() > 0 && !items[j].1),
        decreases m.items.len() - k,
    {
        let empty = str_chars(m.items[k].as_str()).len() == 0;
        proof {
            assert(items[k as int] == (m.items@[k as int]@, m.item_is_num@[k as int]));
        }
        if empty {
            hb = true;
        }
        if m.item_is_num[k] {
            hn = true;
        }
        if !empty && !m.item_is_num[k] {
            hs = true;
        }
        k = k + 1;
    }
    (hb, hn, hs)
}

fn push_kinds_attrs(out: &mut Vec<char>, hb: bool, hn: bool, hs: bool)
    ensures
        final(out)@ == old(out)@ + kinds_attrs(hb, hn, hs),
{
    push_str(out, "<sharedItems containsSemiMixedTypes=\"");
    push_str(out, bool_int(hs || hb));
    push_str(out, "\"");
    if hb {
        push_str(out, " containsBlank=\"1\"");
    }
    push_str(out, " containsString=\"");
    push_str(out, bool_int(hs));
    push_str(out, "\"");
    if hn {
        push_str(out, " containsNumber=\"1\"");
    }
    proof {
        assert(out@ =~= old(out)@ + kinds_attrs(hb, hn, hs));
    }
}

fn push_shared_items_open(out: &mut Vec<char>, m: &PivotFieldModel)
    requires
        model_wf(*m),
    ensures
        final(out)@ == old(out)@ + shared_items_open(model_items(*m)),
{
    let (hb, hn, hs) = item_kinds(m);
    push_kinds_attrs(out, hb, hn, hs);
    push_str(out, " count=\"");
    push_usize(out, m.items.len());
    push_str(out, "\">");
    proof {
        assert(out@ =~= old(out)@ + shared_items_open(model_items(*m)));
    }
}

fn push_shared_items(out: &mut Vec<char>, m: &PivotFieldModel)
    requires
        model_wf(*m),
    ensures
        final(out)@ == old(out)@ + shared_items_part(model_items(*m)),
{
    let ghost items = model_items(*m);
    push_shared_items_open(out, m);
    let ghost start = out@;
    let mut i: usize = 0;
    while i < m.items.len()
        invariant
            0 <= i <= m.items.len(),
            model_wf(*m),
            items == model_items(*m),
            out@ == start + shared_items_xml(items, i as int),
        decreases m.items.len() - i,
    {
        let it = m.items[i].as_str();
        proof {
            assert(items[i as int] == (m.items@[i as int]@, m.item_is_num@[i as int]));
        }
        if str_chars(it).len() == 0 {
            push_str(out, "<m/>");
        } else if m.item_is_num[i] {
            push_str(out, "<n v=\"");
            push_escaped(out, it);
            push_str(out, "\"/>");
        } else {
            push_str(out, "<s v=\"");
            push_escaped(out, it);
            push_str(out, "\"/>");
        }
        proof {
            assert(out@ =~= start + shared_items_xml(items, i + 1));
        }
        i = i + 1;
    }
    push_str(out, "</sharedItems>");
    proof {
        assert(out@ =~= old(out)@ + shared_items_part(items));
    }
}

fn push_cache_field(out: &mut Vec<char>, m: &PivotFieldModel, range: &(String, String))
    requires
        model_wf(*m),
    ensures
        final(out)@ == old(out)@ + cache_field_xml(model_view(*m), (range.0@, range.1@)),
{
    push_str(out, "\n    <cacheField name=\"");
    push_escaped(out, m.name.as_str());
    push_str(out, "\" numFmtId=\"0\">");
    if m.has_items {
        push_shared_items(out, m);
    } else {
        push_str(out, "<sharedItems containsString=\"0\" containsNumber=\"1\" minValue=\"");
        push_str(out, range.0.as_str());
        push_str(out, "\" maxValue=\"");
        push_str(out, range.1.as_str());
        push_str(out, "\"/>");
    }
    push_str(out, "</cacheField>");
    proof {
        assert(out@ =~= old(out)@ + cache_field_xml(model_view(*m), (range.0@, range.1@)));
    }
}

fn push_cache_definition_head(out: &mut Vec<char>, rid: &str, record_count: usize, range: &str, sheet: &str, n: usize)
    ensures
        final(out)@ == old(out)@ + cache_definition_head(rid@, record_count as nat, range@, sheet@, n as nat),
{
    proof {
        reveal(cache_definition_head);
        reveal_strlit("<?xml version=\"1.0\" encoding=\"UTF-8\"?>\n<pivotCacheDefinition xmlns=\"http://schemas.openxmlformats.org/spreadsheetml/2006/main\" xmlns:r=\"http://schemas.openxmlformats.org/officeDocument/2006/relationships\" r:id=\"");
        reveal_strlit("<?xml version=\"1.0\" encoding=\"UTF-8\"?>");
        reveal_strlit("\n<pivotCacheDefinition xmlns=\"");
        reveal_strlit("http://schemas.openxmlformats.org/spreadsheetml/2006/main");
        reveal_strlit("\" xmlns:r=\"");
        reveal_strlit("http://schemas.openxmlformats.org/officeDocument/2006/relationships");
        reveal_strlit("\" r:id=\"");
    }
    let ghost start = out@;
    push_str(out, "<?xml version=\"1.0\" encoding=\"UTF-8\"?>\n<pivotCacheDefinition xmlns=\"http://schemas.openxmlformats.org/spreadsheetml/2006/main\" xmlns:r=\"http://schemas.openxmlformats.org/officeDocument/2006/relationships\" r:id=\"");
    proof {
        assert(out@ =~= start + (xml_decl() + "\n<pivotCacheDefinition xmlns=\""@ + main_ns() + "\" xmlns:r=\""@ + office_rels_ns()
            + "\" r:id=\""@));
    }
    push_escaped(out, rid);
    push_str(out, "\" refreshOnLoad=\"1\" refreshedBy=\"ooxml-cli\" createdVersion=\"6\" refreshedVersion=\"6\" minRefreshableVersion=\"3\" recordCount=\"");
    push_usize(out, record_count);
    push_str(out, "\">\n  <cacheSource type=\"worksheet\"><worksheetSource ref=\"");
    push_escaped(out, range);
    push_str(out, "\" sheet=\"");
    push_escaped(out, sheet);
    push_str(out, "\"/></cacheSource>\n  <cacheFields count=\"");
    push_usize(out, n);
    push_str(out, "\">");
    proof {
        assert(out@ =~= start + cache_definition_head(rid@, record_count as nat, range@, sheet@, n as nat));
    }
}

/// `render_cache_definition_xml`: the cache definition of a new pivot; for
/// each field without items, `numeric_ranges` gives its smallest and largest
/// number as written.
pub fn render_cache_definition_xml(
    source: &PivotSource,
    fields: &Vec<PivotFieldModel>,
    record_count: usize,
    records_rid: &str,
    numeric_ranges: &Vec<(String, String)>,
) -> (r: String)
    requires
        numeric_ranges@.len() == fields@.len(),
        forall|c: int| 0 <= c < fields@.len() ==> model_wf(#[trigger] fields@[c]),
    ensures
        r@ == cache_definition_spec(
            source.sheet@,
            source.range@,
            fields@,
            record_count as nat,
            records_rid@,
            ranges_view(numeric_ranges@),
        ),
{
    let mut out: Vec<char> = Vec::new();
    push_cache_definition_head(&mut out, records_rid, record_count, source.range.as_str(), source.sheet.as_str(), fields.len());
    let ghost head = out@;
    let ghost rv = ranges_view(numeric_ranges@);
    let mut i: usize = 0;
    while i < fields.len()
        invariant
            0 <= i <= fields.len(),
            numeric_ranges@.len() == fields@.len(),
            forall|c: int| 0 <= c < fields@.len() ==> model_wf(#[trigger] fields@[c]),
            rv == ranges_view(numeric_ranges@),
            out@ == head + cache_fields_xml(fields@, rv, i as int),
        decreases fields.len() - i,
    {
        push_cache_field(&mut out, &fields[i], &numeric_ranges[i]);
        proof {
            assert(rv[i as int] == (numeric_ranges@[i as int].0@, numeric_ranges@[i as int].1@));
            assert(out@ =~= head + cache_fields_xml(fields@, rv, i + 1));
        }
        i = i + 1;
    }
    push_str(&mut out, "\n  </cacheFields>\n</pivotCacheDefinition>");
    string_from_chars(out.as_slice())
}

// ---------------------------------------------------------------------------
// The workbook's pivot caches
// ---------------------------------------------------------------------------

pub open spec fn pivot_cache_entry(cache_id: i32, rid: Seq<char>) -> Seq<char> {
    "<pivotCache cacheId=\""@ + decimal_int(cache_id as int) + "\" r:id=\""@ + attr_escape(rid) + "\"/>"@
}

/// The workbook with a `pivotCache` entry added: inside an existing
/// `pivotCaches`, else in a new one after `</sheets>` (or before
/// `</workbook>`); unchanged when there is neither.
pub open spec fn add_pivot_cache_spec(xml: Seq<char>, cache_id: i32, rid: Seq<char>) -> Seq<char> {
    let entry = pivot_cache_entry(cache_id, rid);
    let p1 = find_seq_from(xml, "</pivotCaches>"@, 0);
    let wrapper = "<pivotCaches>"@ + entry + "</pivotCaches>"@;
    let p2 = find_seq_from(xml, "</sheets>"@, 0);
    let p3 = find_seq_from(xml, "</workbook>"@, 0);
    if p1 >= 0 {
        splice(xml, p1, p1, entry)
    } else if p2 >= 0 {
        splice(xml, p2 + 9, p2 + 9, wrapper)
    } else if p3 >= 0 {
        splice(xml, p3, p3, wrapper)
    } else {
        xml
    }
}

/// `add_workbook_pivot_cache`.
pub fn add_workbook_pivot_cache(workbook_xml: &str, cache_id: i32, rid: &str) -> (r: String)
    ensures
        r@ == add_pivot_cache_spec(workbook_xml@, cache_id, rid@),
{
    let mut e: Vec<char> = Vec::new();
    push_str(&mut e, "<pivotCache cacheId=\"");
    let id_text = crate::text::i64_to_string(cache_id as i64);
    push_str(&mut e, id_text.as_str());
    push_str(&mut e, "\" r:id=\"");
    push_escaped(&mut e, rid);
    push_str(&mut e, "\"/>");
    let entry = string_from_chars(e.as_slice());
    proof {
        assert(entry@ =~= pivot_cache_entry(cache_id, rid@));
    }
    let v = str_chars(workbook_xml);
    let close_caches = str_chars("</pivotCaches>");
    proof {
        lemma_find_seq_from(v@, close_caches@, 0);
    }
    if let Some(p1) = vec_find_seq(&v, &close_caches, 0) {
        return crate::xml::insert_text(workbook_xml, p1, entry.as_str());
    }
    let wrapper = concat3("<pivotCaches>", entry.as_str(), "</pivotCaches>");
    let close_sheets = str_chars("</sheets>");
    proof {
        lemma_find_seq_from(v@, close_sheets@, 0);
        reveal_strlit("</sheets>");
        assert(close_sheets@.len() == 9);
    }
    let vlen = v.len();
    if let Some(p2) = vec_find_seq(&v, &close_sheets, 0) {
        proof {
            assert(vlen == v@.len());
            assert(find_seq_from(v@, close_sheets@, 0) == p2 as int);
            assert(p2 + close_sheets@.len() <= v@.len());
        }
        return crate::xml::insert_text(workbook_xml, p2 + 9, wrapper.as_str());
    }
    let close_wb = str_chars("</workbook>");
    proof {
        lemma_find_seq_from(v@, close_wb@, 0);
    }
    if let Some(p3) = vec_find_seq(&v, &close_wb, 0) {
        return crate::xml::insert_text(workbook_xml, p3, wrapper.as_str());
    }
    to_string(workbook_xml)
}

pub open spec fn r_ns_attr() -> Seq<char> {
    " xmlns:r=\"http://schemas.openxmlformats.org/officeDocument/2006/relationships\""@
}

/// The workbook with the relationships namespace declared on its root: the
/// declaration goes before the first `>` after `<workbook`; a text that
/// already declares `xmlns:r=` or has no `<workbook` is kept.
pub open spec fn pivot_r_namespace_spec(xml: Seq<char>) -> Seq<char> {
    let pos = find_seq_from(xml, "<workbook"@, 0);
    let gt = find_from(xml, '>', pos);
    let at = if gt >= 0 { gt } else { pos };
    if find_seq_from(xml, "xmlns:r="@, 0) >= 0 || pos < 0 {
        xml
    } else {
        splice(xml, at, at, r_ns_attr())
    }
}

/// `ensure_workbook_r_namespace`, as pivot creation does it: a plain text
/// insertion into the `<workbook` start tag.
pub fn ensure_workbook_r_namespace(workbook_xml: String) -> (r: String)
    ensures
        r@ == pivot_r_namespace_spec(workbook_xml@),
{
    let v = str_chars(workbook_xml.as_str());
    let ns = str_chars("xmlns:r=");
    let open = str_chars("<workbook");
    proof {
        lemma_find_seq_from(v@, ns@, 0);
        lemma_find_seq_from(v@, open@, 0);
    }
    if vec_find_seq(&v, &ns, 0).is_some() {
        return workbook_xml;
    }
    match vec_find_seq(&v, &open, 0) {
        None => workbook_xml,
        Some(pos) => {
            let at = match vec_find_char(&v, '>', pos) {
                Some(g) => g,
                None => pos,
            };
            proof {
                lemma_find_from(v@, '>', pos as int);
            }
            crate::xml::insert_text(
                workbook_xml.as_str(),
                at,
                " xmlns:r=\"http://schemas.openxmlformats.org/officeDocument/2006/relationships\"",
            )
        },
    }
}

/// The attributes of the tag token `t` as `quick_xml` reads them.
pub open spec fn tag_attrs_of(xml: Seq<char>, t: CharToken) -> Seq<(Seq<char>, Seq<char>)> {
    quick_xml_tag_attributes(xml.subrange(t.start as int, t.end as int))
}

/// The attributes of the tag token `t` of a text.
pub fn tag_attrs_at_pub(chars: &Vec<char>, t: &CharToken) -> (r: Vec<(String, String)>)
    requires
        t.start <= t.end <= chars@.len(),
    ensures
        r.deep_view() == tag_attrs_of(chars@, *t),
{
    tag_attrs_at(chars, t)
}

fn tag_attrs_at(chars: &Vec<char>, t: &CharToken) -> (r: Vec<(String, String)>)
    requires
        t.start <= t.end <= chars@.len(),
    ensures
        r.deep_view() == tag_attrs_of(chars@, *t),
{
    let tagv = slice_vec(chars, t.start, t.end);
    let tag = string_from_chars(tagv.as_slice());
    tag_attributes(tag.as_str())
}

/// An attribute as `parse_i32` reads it, with its fallback.
pub open spec fn attr_i32(attrs: Seq<(Seq<char>, Seq<char>)>, key: Seq<char>, fallback: i32) -> i32 {
    match attr_lookup(attrs, key) {
        Some(v) => match parse_i32_spec(v) {
            Some(n) => n,
            None => fallback,
        },
        None => fallback,
    }
}

fn attr_i32_exec(attrs: &Vec<(String, String)>, key: &str, fallback: i32) -> (r: i32)
    ensures
        r == attr_i32(attrs.deep_view(), key@, fallback),
{
    match attr_get(attrs, key) {
        Some(v) => parse_i32(Some(v.as_str()), fallback),
        None => fallback,
    }
}

/// Whether token `t` starts a `local` element (start or empty tag).
pub open spec fn opens(t: CharToken, local: Seq<char>) -> bool {
    is_tag(t) && local_name_of(t.name@) == local
}

fn token_opens(t: &CharToken, local: &str) -> (r: bool)
    ensures
        r == opens(*t, local@),
{
    if t.kind == XmlTokenKind::Start || t.kind == XmlTokenKind::Empty {
        let ln = local_name(t.name.as_str());
        str_eq(ln.as_str(), local)
    } else {
        false
    }
}

/// The largest `cacheId` of the `pivotCache` elements among the first `n`
/// tokens (0 when none is larger).
pub open spec fn max_cache_id(xml: Seq<char>, toks: Seq<CharToken>, n: int) -> i32
    decreases n,
{
    if n <= 0 {
        0
    } else {
        let m = max_cache_id(xml, toks, n - 1);
        let t = toks[n - 1];
        if opens(t, "pivotCache"@) {
            let c = attr_i32(tag_attrs_of(xml, t), "cacheId"@, 0);
            if c > m {
                c
            } else {
                m
            }
        } else {
            m
        }
    }
}

/// The largest `cacheId` the workbook's pivot caches use.
pub open spec fn workbook_max_cache_id(xml: Seq<char>) -> i32 {
    match char_tokens_spec(xml) {
        None => 0,
        Some(p) => max_cache_id(xml, p.0, p.0.len() as int),
    }
}

/// `next_pivot_cache_id`: one past the largest `cacheId` in the workbook;
/// `None` when that would not fit an `i32`.
pub fn next_pivot_cache_id(workbook_xml: &str) -> (r: Option<i32>)
    ensures
        r is Some <==> workbook_max_cache_id(workbook_xml@) < i32::MAX,
        r is Some ==> r->Some_0 == workbook_max_cache_id(workbook_xml@) + 1,
{
    let toks = match char_tokens(workbook_xml) {
        Ok(p) => p.0,
        Err(_) => {
            return Some(1);
        },
    };
    let chars = str_chars(workbook_xml);
    let mut max_id: i32 = 0;
    let mut i: usize = 0;
    while i < toks.len()
        invariant
            0 <= i <= toks.len(),
            char_tokens_spec(workbook_xml@) is Some,
            toks@ == char_tokens_spec(workbook_xml@).unwrap().0,
            tokens_well_formed(toks@, workbook_xml@.len() as int),
            chars@ == workbook_xml@,
            max_id == max_cache_id(workbook_xml@, toks@, i as int),
        decreases toks.len() - i,
    {
        let t = &toks[i];
        if token_opens(t, "pivotCache") {
            proof {
                assert(t.start <= t.end <= chars@.len());
            }
            let attrs = tag_attrs_at(&chars, t);
            let c = attr_i32_exec(&attrs, "cacheId", 0);
            if c > max_id {
                max_id = c;
            }
        }
        i = i + 1;
    }
    if max_id == 2147483647 {
        None
    } else {
        Some(max_id + 1)
    }
}

// ---------------------------------------------------------------------------
// Pivots as listed
// ---------------------------------------------------------------------------

/// A field of a listed pivot: its position, cache field name, axis,
/// aggregation and caption.
#[derive(Debug)]
pub struct XlsxPivotFieldRef {
    pub index: i32,
    pub name: String,
    pub axis: String,
    pub subtotal: String,
    pub caption: String,
}

pub open spec fn field_ref_view(f: XlsxPivotFieldRef) -> (i32, Seq<char>, Seq<char>, Seq<char>, Seq<char>) {
    (f.index, f.name@, f.axis@, f.subtotal@, f.caption@)
}

pub open spec fn field_refs_view(v: Seq<XlsxPivotFieldRef>) -> Seq<(i32, Seq<char>, Seq<char>, Seq<char>, Seq<char>)> {
    v.map_values(|f: XlsxPivotFieldRef| field_ref_view(f))
}

/// Where a pivot cache takes its data from.
#[derive(Debug)]
pub struct XlsxPivotSourceRef {
    pub source_type: String,
    pub sheet: String,
    pub range: String,
    pub name: String,
}

/// A field of a pivot cache.
#[derive(Debug)]
pub struct XlsxPivotCacheField {
    pub index: i32,
    pub name: String,
}

/// A pivot cache of the workbook.
#[derive(Debug)]
pub struct XlsxPivotCacheRef {
    pub cache_id: i32,
    pub part_uri: String,
    pub relationship_id: String,
    pub records_part_uri: String,
    pub record_count: i32,
    pub created_version: String,
    pub refreshed_version: String,
    pub refresh_on_load: bool,
    pub save_data: Option<bool>,
    pub source: XlsxPivotSourceRef,
    pub fields: Vec<XlsxPivotCacheField>,
}

pub open spec fn cache_fields_view(v: Seq<XlsxPivotCacheField>) -> Seq<(i32, Seq<char>)> {
    v.map_values(|f: XlsxPivotCacheField| (f.index, f.name@))
}

/// A cache as a plain value, with its relationship id apart.
pub open spec fn cache_body(c: XlsxPivotCacheRef) -> (
    i32,
    Seq<char>,
    Seq<char>,
    i32,
    Seq<char>,
    Seq<char>,
    bool,
    Option<bool>,
    (Seq<char>, Seq<char>, Seq<char>, Seq<char>),
    Seq<(i32, Seq<char>)>,
) {
    (
        c.cache_id,
        c.part_uri@,
        c.records_part_uri@,
        c.record_count,
        c.created_version@,
        c.refreshed_version@,
        c.refresh_on_load,
        c.save_data,
        (c.source.source_type@, c.source.sheet@, c.source.range@, c.source.name@),
        cache_fields_view(c.fields@),
    )
}

/// The name of the cache field at `index` (the first with that index), or
/// empty.
pub open spec fn cache_field_name_from(fields: Seq<XlsxPivotCacheField>, index: i32, k: int) -> Seq<char>
    decreases fields.len() - k,
{
    if k < 0 || k >= fields.len() {
        Seq::empty()
    } else if fields[k].index == index {
        fields[k].name@
    } else {
        cache_field_name_from(fields, index, k + 1)
    }
}

impl XlsxPivotCacheRef {
    /// `field_name`: the name of the cache field at `index`, or empty.
    pub fn field_name(&self, index: i32) -> (r: String)
        ensures
            r@ == cache_field_name_from(self.fields@, index, 0),
    {
        let mut k: usize = 0;
        while k < self.fields.len()
            invariant
                0 <= k <= self.fields.len(),
                cache_field_name_from(self.fields@, index, k as int) == cache_field_name_from(self.fields@, index, 0),
            decreases self.fields.len() - k,
        {
            if self.fields[k].index == index {
                return self.fields[k].name.clone();
            }
            k = k + 1;
        }
        String::new()
    }

    /// A copy of the cache with another relationship id.
    pub fn copy_with_relationship_id(&self, relationship_id: String) -> (r: XlsxPivotCacheRef)
        ensures
            cache_body(r) == cache_body(*self),
            r.relationship_id@ == relationship_id@,
    {
        let mut fields: Vec<XlsxPivotCacheField> = Vec::new();
        let mut k: usize = 0;
        while k < self.fields.len()
            invariant
                0 <= k <= self.fields.len(),
                cache_fields_view(fields@) == cache_fields_view(self.fields@.take(k as int)),
            decreases self.fields.len() - k,
        {
            let f = XlsxPivotCacheField { index: self.fields[k].index, name: self.fields[k].name.clone() };
            let ghost prev = fields@;
            let ghost fv = (f.index, f.name@);
            fields.push(f);
            proof {
                assert(fv == (self.fields@[k as int].index, self.fields@[k as int].name@));
                assert(cache_fields_view(fields@) =~= cache_fields_view(prev).push(fv));
                assert(self.fields@.take(k + 1) =~= self.fields@.take(k as int).push(self.fields@[k as int]));
                assert(cache_fields_view(fields@) =~= cache_fields_view(self.fields@.take(k + 1)));
            }
            k = k + 1;
        }
        proof {
            assert(self.fields@.take(self.fields@.len() as int) =~= self.fields@);
        }
        XlsxPivotCacheRef {
            cache_id: self.cache_id,
            part_uri: self.part_uri.clone(),
            relationship_id,
            records_part_uri: self.records_part_uri.clone(),
            record_count: self.record_count,
            created_version: self.created_version.clone(),
            refreshed_version: self.refreshed_version.clone(),
            refresh_on_load: self.refresh_on_load,
            save_data: self.save_data,
            source: XlsxPivotSourceRef {
                source_type: self.source.source_type.clone(),
                sheet: self.source.sheet.clone(),
                range: self.source.range.clone(),
                name: self.source.name.clone(),
            },
            fields,
        }
    }
}

/// The cache field name a pivot field at `index` has, through the pivot's
/// cache (empty without a cache).
pub open spec fn ref_field_name(cache: Option<XlsxPivotCacheRef>, index: i32) -> Seq<char> {
    match cache {
        Some(c) => cache_field_name_from(c.fields@, index, 0),
        None => Seq::empty(),
    }
}

/// `field_ref_for_cache`: a pivot field named through the pivot's cache.
pub fn field_ref_for_cache(cache: &Option<XlsxPivotCacheRef>, index: i32, axis: String) -> (r: XlsxPivotFieldRef)
    ensures
        field_ref_view(r) == (index, ref_field_name(*cache, index), axis@, Seq::<char>::empty(), Seq::<char>::empty()),
{
    let name = match cache {
        Some(c) => c.field_name(index),
        None => String::new(),
    };
    let r = XlsxPivotFieldRef { index, name, axis, subtotal: String::new(), caption: String::new() };
    proof {
        assert(r.subtotal@ =~= Seq::<char>::empty());
        assert(r.caption@ =~= Seq::<char>::empty());
        if cache is None {
            assert(r.name@ =~= Seq::<char>::empty());
        }
    }
    r
}

/// A pivot table found on a sheet, with what its part and cache say.
#[derive(Debug)]
pub struct XlsxPivotRef {
    pub number: u32,
    pub sheet: String,
    pub sheet_number: u32,
    pub sheet_part_uri: String,
    pub relationship_id: String,
    pub part_uri: String,
    pub name: String,
    pub cache_id: i32,
    pub location: String,
    pub rows: u32,
    pub cols: u32,
    pub primary_selector: String,
    pub selectors: Vec<String>,
    pub cache: Option<XlsxPivotCacheRef>,
    pub row_fields: Vec<XlsxPivotFieldRef>,
    pub column_fields: Vec<XlsxPivotFieldRef>,
    pub data_fields: Vec<XlsxPivotFieldRef>,
    pub filter_fields: Vec<XlsxPivotFieldRef>,
    pub fields: Vec<XlsxPivotFieldRef>,
}

/// The selector that names a pivot first: by number, else by name.
pub open spec fn pivot_primary_spec(p: XlsxPivotRef) -> Seq<char> {
    if p.number > 0 {
        "pivot:"@ + decimal(p.number as nat)
    } else if trim(p.name@).len() > 0 {
        "pivot:"@ + p.name@
    } else {
        Seq::empty()
    }
}

/// Every selector a pivot answers to, in order, before duplicates and empty
/// ones are dropped.
pub open spec fn pivot_candidates_spec(p: XlsxPivotRef) -> Seq<Seq<char>> {
    let n = decimal(p.number as nat);
    let nm = p.name@;
    seq![pivot_primary_spec(p)] + (if p.number > 0 {
        seq!["pivot:"@ + n, "#"@ + n]
    } else {
        Seq::empty()
    }) + (if trim(nm).len() > 0 {
        seq!["pivot:"@ + nm, "name:"@ + nm, "~"@ + nm, nm]
    } else {
        Seq::empty()
    }) + (if p.cache_id > 0 {
        seq!["cacheId:"@ + decimal(p.cache_id as nat)]
    } else {
        Seq::empty()
    }) + (if trim(p.relationship_id@).len() > 0 {
        seq!["rId:"@ + p.relationship_id@, "rid:"@ + p.relationship_id@]
    } else {
        Seq::empty()
    }) + (if trim(p.part_uri@).len() > 0 {
        seq!["part:"@ + p.part_uri@]
    } else {
        Seq::empty()
    })
}

/// Everything of a pivot but its selectors.
pub open spec fn pivot_same_data(a: XlsxPivotRef, b: XlsxPivotRef) -> bool {
    &&& a.number == b.number
    &&& a.sheet@ == b.sheet@
    &&& a.sheet_number == b.sheet_number
    &&& a.sheet_part_uri@ == b.sheet_part_uri@
    &&& a.relationship_id@ == b.relationship_id@
    &&& a.part_uri@ == b.part_uri@
    &&& a.name@ == b.name@
    &&& a.cache_id == b.cache_id
    &&& a.location@ == b.location@
    &&& a.rows == b.rows
    &&& a.cols == b.cols
    &&& a.cache == b.cache
    &&& a.row_fields == b.row_fields
    &&& a.column_fields == b.column_fields
    &&& a.data_fields == b.data_fields
    &&& a.filter_fields == b.filter_fields
    &&& a.fields == b.fields
}

impl XlsxPivotRef {
    /// `apply_selectors`: recomputes the primary selector and the selector
    /// list from the pivot's number, name, cache, relationship and part.
    pub fn apply_selectors(&mut self)
        ensures
            pivot_same_data(*final(self), *old(self)),
            final(self).primary_selector@ == pivot_primary_spec(*old(self)),
            strs(final(self).selectors@) == crate::names::dedup_selectors(pivot_candidates_spec(*old(self))),
    {
        let has_name = crate::text::trim_chars(self.name.as_str()).len() > 0;
        let n = crate::text::u32_to_string(self.number);
        let nm = self.name.as_str();
        let primary = if self.number > 0 {
            concat2("pivot:", n.as_str())
        } else if has_name {
            concat2("pivot:", nm)
        } else {
            String::new()
        };
        let ghost d = *self;
        proof {
            assert(primary@ == pivot_primary_spec(d));
        }
        let mut c: Vec<String> = Vec::new();
        c.push(primary.clone());
        let ghost c0 = strs(c@);
        if self.number > 0 {
            c.push(concat2("pivot:", n.as_str()));
            c.push(concat2("#", n.as_str()));
        }
        let ghost c1 = strs(c@);
        if has_name {
            c.push(concat2("pivot:", nm));
            c.push(concat2("name:", nm));
            c.push(concat2("~", nm));
            c.push(to_string(nm));
        }
        let ghost c2 = strs(c@);
        if self.cache_id > 0 {
            let id = crate::text::u64_to_string(self.cache_id as u64);
            c.push(concat2("cacheId:", id.as_str()));
        }
        let ghost c3 = strs(c@);
        if crate::text::trim_chars(self.relationship_id.as_str()).len() > 0 {
            c.push(concat2("rId:", self.relationship_id.as_str()));
            c.push(concat2("rid:", self.relationship_id.as_str()));
        }
        let ghost c4 = strs(c@);
        if crate::text::trim_chars(self.part_uri.as_str()).len() > 0 {
            c.push(concat2("part:", self.part_uri.as_str()));
        }
        proof {
            let nn = decimal(d.number as nat);
            let p1: Seq<Seq<char>> = if d.number > 0 { seq!["pivot:"@ + nn, "#"@ + nn] } else { Seq::empty() };
            assert(c1 =~= c0 + p1);
            let p2: Seq<Seq<char>> = if trim(d.name@).len() > 0 {
                seq!["pivot:"@ + d.name@, "name:"@ + d.name@, "~"@ + d.name@, d.name@]
            } else {
                Seq::empty()
            };
            assert(c2 =~= c1 + p2);
            let p3: Seq<Seq<char>> = if d.cache_id > 0 { seq!["cacheId:"@ + decimal(d.cache_id as nat)] } else { Seq::empty() };
            assert(c3 =~= c2 + p3);
            let p4: Seq<Seq<char>> = if trim(d.relationship_id@).len() > 0 {
                seq!["rId:"@ + d.relationship_id@, "rid:"@ + d.relationship_id@]
            } else {
                Seq::empty()
            };
            assert(c4 =~= c3 + p4);
            let p5: Seq<Seq<char>> = if trim(d.part_uri@).len() > 0 { seq!["part:"@ + d.part_uri@] } else { Seq::empty() };
            assert(strs(c@) =~= c4 + p5);
            assert(c0 =~= seq![pivot_primary_spec(d)]);
            assert(strs(c@) =~= pivot_candidates_spec(d));
        }
        let mut out: Vec<String> = Vec::new();
        let mut i: usize = 0;
        while i < c.len()
            invariant
                0 <= i <= c.len(),
                strs(c@) == pivot_candidates_spec(d),
                strs(out@) == crate::names::dedup_selectors(strs(c@).take(i as int)),
            decreases c.len() - i,
        {
            let s = c[i].clone();
            proof {
                assert(strs(c@).take(i + 1).drop_last() =~= strs(c@).take(i as int));
                assert(strs(c@).take(i + 1).last() == s@);
            }
            crate::names::add_selector(&mut out, s);
            i = i + 1;
        }
        proof {
            assert(strs(c@).take(c@.len() as int) =~= strs(c@));
        }
        self.primary_selector = primary;
        self.selectors = out;
    }
}

/// The selector a listing shows for a pivot.
pub open spec fn pivot_selector_spec(p: XlsxPivotRef) -> Seq<char> {
    if p.primary_selector@.len() > 0 {
        p.primary_selector@
    } else if p.name@.len() > 0 {
        p.name@
    } else if p.number > 0 {
        "pivot:"@ + decimal(p.number as nat)
    } else {
        "1"@
    }
}

/// `xlsx_pivot_selector`.
pub fn xlsx_pivot_selector(pivot: &XlsxPivotRef) -> (r: String)
    ensures
        r@ == pivot_selector_spec(*pivot),
{
    if str_chars(pivot.primary_selector.as_str()).len() > 0 {
        pivot.primary_selector.clone()
    } else if str_chars(pivot.name.as_str()).len() > 0 {
        pivot.name.clone()
    } else if pivot.number > 0 {
        let n = crate::text::u32_to_string(pivot.number);
        concat2("pivot:", n.as_str())
    } else {
        to_string("1")
    }
}

/// The sheet selector a listing shows for a pivot.
pub open spec fn pivot_sheet_selector_spec(p: XlsxPivotRef) -> Seq<char> {
    if p.sheet@.len() > 0 {
        p.sheet@
    } else if p.sheet_number > 0 {
        decimal(p.sheet_number as nat)
    } else {
        "1"@
    }
}

/// `xlsx_pivot_sheet_selector`.
pub fn xlsx_pivot_sheet_selector(pivot: &XlsxPivotRef) -> (r: String)
    ensures
        r@ == pivot_sheet_selector_spec(*pivot),
{
    if str_chars(pivot.sheet.as_str()).len() > 0 {
        pivot.sheet.clone()
    } else if pivot.sheet_number > 0 {
        crate::text::u32_to_string(pivot.sheet_number)
    } else {
        to_string("1")
    }
}

pub open spec fn pivot_matches(p: XlsxPivotRef, sel: Seq<char>) -> bool {
    strs(p.selectors@).contains(sel)
}

/// The pivots (by position) whose selectors include `sel`, among the first `n`.
pub open spec fn matching_pivots(pivots: Seq<XlsxPivotRef>, sel: Seq<char>, n: int) -> Seq<int>
    decreases n,
{
    if n <= 0 {
        Seq::empty()
    } else if pivot_matches(pivots[n - 1], sel) {
        matching_pivots(pivots, sel, n - 1).push(n - 1)
    } else {
        matching_pivots(pivots, sel, n - 1)
    }
}

/// Which pivot a selector picks: the only one when the selector is blank and
/// there is one, the only one whose selectors include it, else the pivot at
/// that (1-based) number.
pub open spec fn select_pivot_spec(pivots: Seq<XlsxPivotRef>, selector: Seq<char>) -> Result<int, ErrorKind> {
    let sel = trim(selector);
    let m = matching_pivots(pivots, sel, pivots.len() as int);
    if pivots.len() == 0 {
        Err(ErrorKind::InvalidArgs)
    } else if sel.len() == 0 {
        if pivots.len() == 1 {
            Ok(0)
        } else {
            Err(ErrorKind::InvalidArgs)
        }
    } else if m.len() == 1 {
        Ok(m[0])
    } else if m.len() > 1 {
        Err(ErrorKind::InvalidArgs)
    } else {
        match crate::text::parse_u32_spec(sel) {
            Some(k) => if 1 <= k <= pivots.len() {
                Ok(k - 1)
            } else {
                Err(ErrorKind::TargetNotFound)
            },
            None => Err(ErrorKind::TargetNotFound),
        }
    }
}

fn pivot_has_selector(p: &XlsxPivotRef, sel: &str) -> (r: bool)
    ensures
        r == pivot_matches(*p, sel@),
{
    let mut k: usize = 0;
    while k < p.selectors.len()
        invariant
            0 <= k <= p.selectors.len(),
            forall|j: int| 0 <= j < k ==> p.selectors@[j]@ != sel@,
        decreases p.selectors.len() - k,
    {
        if str_eq(p.selectors[k].as_str(), sel) {
            proof {
                assert(strs(p.selectors@)[k as int] == sel@);
            }
            return true;
        }
        k = k + 1;
    }
    proof {
        if strs(p.selectors@).contains(sel@) {
            let j = choose|j: int| 0 <= j < strs(p.selectors@).len() && strs(p.selectors@)[j] == sel@;
            assert(p.selectors@[j]@ == sel@);
        }
    }
    false
}

/// `select_xlsx_pivot`: the position of the pivot a selector picks.
pub fn select_xlsx_pivot(pivots: &Vec<XlsxPivotRef>, selector: &str) -> (r: CliResult<usize>)
    ensures
        r is Ok <==> select_pivot_spec(pivots@, selector@) is Ok,
        r is Ok ==> r->Ok_0 as int == select_pivot_spec(pivots@, selector@)->Ok_0,
        r is Err ==> select_pivot_spec(pivots@, selector@) == Err::<int, ErrorKind>(r->Err_0.kind),
{
    if pivots.len() == 0 {
        return Err(CliError::invalid_args(to_string("workbook has no pivots")));
    }
    let t = crate::text::trim_string(selector);
    let sel = t.as_str();
    if str_chars(sel).len() == 0 {
        if pivots.len() == 1 {
            return Ok(0);
        }
        return Err(CliError::invalid_args(to_string("--pivot is required when workbook has multiple pivots")));
    }
    let mut matches: Vec<usize> = Vec::new();
    let mut i: usize = 0;
    while i < pivots.len()
        invariant
            0 <= i <= pivots.len(),
            sel@ == trim(selector@),
            usizes(matches@) == matching_pivots(pivots@, sel@, i as int),
            forall|k: int| 0 <= k < matches@.len() ==> matches@[k] < pivots@.len(),
        decreases pivots.len() - i,
    {
        if pivot_has_selector(&pivots[i], sel) {
            let ghost prev = matches@;
            matches.push(i);
            proof {
                assert(usizes(matches@) =~= usizes(prev).push(i as int));
            }
        }
        i = i + 1;
    }
    if matches.len() == 1 {
        proof {
            assert(usizes(matches@)[0] == matches@[0] as int);
        }
        return Ok(matches[0]);
    }
    if matches.len() > 1 {
        let mut listed: Vec<char> = Vec::new();
        let mut k: usize = 0;
        while k < matches.len()
            invariant
                0 <= k <= matches.len(),
                forall|j: int| 0 <= j < matches@.len() ==> matches@[j] < pivots@.len(),
            decreases matches.len() - k,
        {
            if k > 0 {
                push_str(&mut listed, ", ");
            }
            let one = xlsx_pivot_selector(&pivots[matches[k]]);
            push_str(&mut listed, one.as_str());
            k = k + 1;
        }
        let l = string_from_chars(listed.as_slice());
        let q = crate::text::debug_quoted(sel);
        let msg = crate::text::concat5("pivot selector ", q.as_str(), " matched multiple pivots (", l.as_str(), "); use a more specific selector");
        return Err(CliError::invalid_args(msg));
    }
    match crate::text::parse_u32(sel) {
        Some(k) => {
            if k >= 1 && (k as usize) <= pivots.len() {
                return Ok((k - 1) as usize);
            }
            let n = u64_to_string(pivots.len() as u64);
            let kt = crate::text::u32_to_string(k);
            let msg = crate::text::concat5("pivot ", kt.as_str(), " is out of range (1-", n.as_str(), ")");
            Err(CliError::target_not_found(msg))
        },
        None => {
            let msg = concat3("pivot not found: ", sel, "; discover with `ooxml --json xlsx pivots list <file>`");
            Err(CliError::target_not_found(msg))
        },
    }
}

// ---------------------------------------------------------------------------
// Reading a pivot table part
// ---------------------------------------------------------------------------

pub type FieldRefView = (i32, Seq<char>, Seq<char>, Seq<char>, Seq<char>);

/// What a pivot table part has said so far: the section being read, the
/// pivot's name, cache id and chosen cache (a position among the workbook's
/// caches, and the relationship id it is reached by when the part's own
/// relationship picked it), its location and size, and its fields.
pub ghost struct PivotPartState {
    pub section: Seq<char>,
    pub name: Seq<char>,
    pub cache_id: i32,
    pub cache: Option<(int, Option<Seq<char>>)>,
    pub location: Seq<char>,
    pub rows: u32,
    pub cols: u32,
    pub fields: Seq<FieldRefView>,
    pub row_fields: Seq<FieldRefView>,
    pub column_fields: Seq<FieldRefView>,
    pub filter_fields: Seq<FieldRefView>,
    pub data_fields: Seq<FieldRefView>,
}

pub open spec fn initial_part_state() -> PivotPartState {
    PivotPartState {
        section: Seq::empty(),
        name: Seq::empty(),
        cache_id: 0,
        cache: None,
        location: Seq::empty(),
        rows: 0,
        cols: 0,
        fields: Seq::empty(),
        row_fields: Seq::empty(),
        column_fields: Seq::empty(),
        filter_fields: Seq::empty(),
        data_fields: Seq::empty(),
    }
}

pub open spec fn first_cache_with_part(caches: Seq<XlsxPivotCacheRef>, part: Seq<char>, k: int) -> Option<int>
    decreases caches.len() - k,
{
    if k < 0 || k >= caches.len() {
        None
    } else if caches[k].part_uri@ == part {
        Some(k)
    } else {
        first_cache_with_part(caches, part, k + 1)
    }
}

pub open spec fn first_cache_with_id(caches: Seq<XlsxPivotCacheRef>, id: i32, k: int) -> Option<int>
    decreases caches.len() - k,
{
    if k < 0 || k >= caches.len() {
        None
    } else if caches[k].cache_id == id {
        Some(k)
    } else {
        first_cache_with_id(caches, id, k + 1)
    }
}

/// The cache a pivot uses: the one whose part the pivot's own relationship
/// points at (reached by that relationship), else the one with its cache id.
pub open spec fn cache_choice(
    caches: Seq<XlsxPivotCacheRef>,
    rel_cache: Option<(Seq<char>, Seq<char>)>,
    cache_id: i32,
) -> Option<(int, Option<Seq<char>>)> {
    let by_id = match first_cache_with_id(caches, cache_id, 0) {
        Some(k) => Some((k, None::<Seq<char>>)),
        None => None,
    };
    match rel_cache {
        Some(rc) => match first_cache_with_part(caches, rc.1, 0) {
            Some(k) => Some((k, Some(rc.0))),
            None => by_id,
        },
        None => by_id,
    }
}

pub open spec fn choice_field_name(caches: Seq<XlsxPivotCacheRef>, choice: Option<(int, Option<Seq<char>>)>, index: i32) -> Seq<
    char,
> {
    match choice {
        Some(c) => cache_field_name_from(caches[c.0].fields@, index, 0),
        None => Seq::empty(),
    }
}

/// The rows and columns a location covers, when it is a range.
pub open spec fn location_counts(loc: Seq<char>) -> Option<(u32, u32)> {
    match crate::cellref::range_spec(loc) {
        Some(b) => if b.hi_row() - b.lo_row() < u32::MAX && b.hi_col() - b.lo_col() < u32::MAX {
            Some(((b.hi_row() - b.lo_row() + 1) as u32, (b.hi_col() - b.lo_col() + 1) as u32))
        } else {
            None
        },
        None => None,
    }
}

pub open spec fn flag_text(v: Option<Seq<char>>) -> bool {
    let k = ascii_lower_seq(trim(match v {
        Some(t) => t,
        None => Seq::empty(),
    }));
    k == "1"@ || k == "true"@ || k == "on"@
}

pub open spec fn subtotal_attr(k: int) -> Seq<char> {
    subtotal_name(k) + "Subtotal"@
}

pub open spec fn subtotal_name(k: int) -> Seq<char> {
    if k == 0 {
        "sum"@
    } else if k == 1 {
        "countA"@
    } else if k == 2 {
        "avg"@
    } else if k == 3 {
        "max"@
    } else if k == 4 {
        "min"@
    } else if k == 5 {
        "product"@
    } else if k == 6 {
        "count"@
    } else if k == 7 {
        "stdDev"@
    } else if k == 8 {
        "stdDevP"@
    } else if k == 9 {
        "var"@
    } else {
        "varP"@
    }
}

/// The first subtotal flag (in Excel's order) a pivot field turns on.
pub open spec fn first_subtotal_from(attrs: Seq<(Seq<char>, Seq<char>)>, k: int) -> Option<Seq<char>>
    decreases 11 - k,
{
    if k < 0 || k >= 11 {
        None
    } else if flag_text(attr_lookup(attrs, subtotal_attr(k))) {
        Some(subtotal_name(k))
    } else {
        first_subtotal_from(attrs, k + 1)
    }
}

pub open spec fn attr_text(attrs: Seq<(Seq<char>, Seq<char>)>, key: Seq<char>) -> Seq<char> {
    match attr_lookup(attrs, key) {
        Some(v) => v,
        None => Seq::empty(),
    }
}

pub open spec fn is_section(ln: Seq<char>) -> bool {
    ln == "pivotFields"@ || ln == "rowFields"@ || ln == "colFields"@ || ln == "pageFields"@ || ln == "dataFields"@
}

/// How one event of a pivot table part changes what has been read.
#[verifier::opaque]
pub open spec fn pivot_part_step(
    st: PivotPartState,
    xml: Seq<char>,
    t: CharToken,
    caches: Seq<XlsxPivotCacheRef>,
    rel_cache: Option<(Seq<char>, Seq<char>)>,
) -> PivotPartState {
    let ln = local_name_of(t.name@);
    let attrs = tag_attrs_of(xml, t);
    if is_tag(t) && ln == "pivotTableDefinition"@ {
        let id = attr_i32(attrs, "cacheId"@, 0);
        PivotPartState { name: attr_text(attrs, "name"@), cache_id: id, cache: cache_choice(caches, rel_cache, id), ..st }
    } else if is_tag(t) && ln == "location"@ {
        let loc = attr_text(attrs, "ref"@);
        match location_counts(loc) {
            Some(rc) => PivotPartState { location: loc, rows: rc.0, cols: rc.1, ..st },
            None => PivotPartState { location: loc, ..st },
        }
    } else if t.kind == XmlTokenKind::Start && is_section(ln) {
        PivotPartState { section: ln, ..st }
    } else if t.kind == XmlTokenKind::End && is_section(ln) {
        PivotPartState { section: Seq::empty(), ..st }
    } else if is_tag(t) && st.section == "pivotFields"@ && ln == "pivotField"@ {
        let idx = st.fields.len() as i32;
        let sub = match first_subtotal_from(attrs, 0) {
            Some(x) => x,
            None => Seq::empty(),
        };
        let f = (idx, choice_field_name(caches, st.cache, idx), axis_spec(attr_text(attrs, "axis"@)), sub, Seq::empty());
        PivotPartState { fields: st.fields.push(f), ..st }
    } else if is_tag(t) && st.section == "rowFields"@ && ln == "field"@ {
        let idx = attr_i32(attrs, "x"@, -1i32);
        let f = (idx, choice_field_name(caches, st.cache, idx), "row"@, Seq::empty(), Seq::empty());
        PivotPartState { row_fields: st.row_fields.push(f), ..st }
    } else if is_tag(t) && st.section == "colFields"@ && ln == "field"@ {
        let idx = attr_i32(attrs, "x"@, -1i32);
        let f = (idx, choice_field_name(caches, st.cache, idx), "column"@, Seq::empty(), Seq::empty());
        PivotPartState { column_fields: st.column_fields.push(f), ..st }
    } else if is_tag(t) && st.section == "pageFields"@ && ln == "pageField"@ {
        let idx = attr_i32(attrs, "fld"@, -1i32);
        let f = (idx, choice_field_name(caches, st.cache, idx), "filter"@, Seq::empty(), Seq::empty());
        PivotPartState { filter_fields: st.filter_fields.push(f), ..st }
    } else if is_tag(t) && st.section == "dataFields"@ && ln == "dataField"@ {
        let idx = attr_i32(attrs, "fld"@, -1i32);
        let f = (idx, choice_field_name(caches, st.cache, idx), "data"@, attr_text(attrs, "subtotal"@), attr_text(attrs, "name"@));
        PivotPartState { data_fields: st.data_fields.push(f), ..st }
    } else {
        st
    }
}

pub open spec fn pivot_part_fold(
    xml: Seq<char>,
    toks: Seq<CharToken>,
    caches: Seq<XlsxPivotCacheRef>,
    rel_cache: Option<(Seq<char>, Seq<char>)>,
    n: int,
) -> PivotPartState
    decreases n,
{
    if n <= 0 {
        initial_part_state()
    } else {
        pivot_part_step(pivot_part_fold(xml, toks, caches, rel_cache, n - 1), xml, toks[n - 1], caches, rel_cache)
    }
}

/// What a pivot table part says, or `None` when `quick_xml` cannot read it
/// to the end.
pub open spec fn pivot_part_spec(
    xml: Seq<char>,
    caches: Seq<XlsxPivotCacheRef>,
    rel_cache: Option<(Seq<char>, Seq<char>)>,
) -> Option<PivotPartState> {
    match char_tokens_spec(xml) {
        None => None,
        Some(p) => if p.1 {
            None
        } else {
            Some(pivot_part_fold(xml, p.0, caches, rel_cache, p.0.len() as int))
        },
    }
}

/// A pivot's cache as the chosen one of the workbook's caches.
pub open spec fn cache_rel(c: Option<XlsxPivotCacheRef>, choice: Option<(int, Option<Seq<char>>)>, caches: Seq<XlsxPivotCacheRef>) -> bool {
    match (c, choice) {
        (None, None) => true,
        (Some(x), Some(ch)) => 0 <= ch.0 < caches.len() && cache_body(x) == cache_body(caches[ch.0]) && x.relationship_id@ == match ch.1 {
            Some(rid) => rid,
            None => caches[ch.0].relationship_id@,
        },
        _ => false,
    }
}

/// A pivot as what has been read of its part.
pub open spec fn pivot_holds(p: XlsxPivotRef, st: PivotPartState, caches: Seq<XlsxPivotCacheRef>) -> bool {
    &&& p.name@ == st.name
    &&& p.cache_id == st.cache_id
    &&& cache_rel(p.cache, st.cache, caches)
    &&& p.location@ == st.location
    &&& p.rows == st.rows
    &&& p.cols == st.cols
    &&& field_refs_view(p.fields@) == st.fields
    &&& field_refs_view(p.row_fields@) == st.row_fields
    &&& field_refs_view(p.column_fields@) == st.column_fields
    &&& field_refs_view(p.filter_fields@) == st.filter_fields
    &&& field_refs_view(p.data_fields@) == st.data_fields
}

proof fn lemma_same_fields_same_name(a: Seq<XlsxPivotCacheField>, b: Seq<XlsxPivotCacheField>, index: i32, k: int)
    requires
        cache_fields_view(a) == cache_fields_view(b),
        0 <= k,
    ensures
        cache_field_name_from(a, index, k) == cache_field_name_from(b, index, k),
    decreases a.len() - k,
{
    assert(a.len() == cache_fields_view(a).len());
    assert(b.len() == cache_fields_view(b).len());
    if k < a.len() {
        assert(cache_fields_view(a)[k] == cache_fields_view(b)[k]);
        lemma_same_fields_same_name(a, b, index, k + 1);
    }
}

fn choose_cache(caches: &Vec<XlsxPivotCacheRef>, rel_cache: Option<(String, String)>, cache_id: i32) -> (r: Option<
    XlsxPivotCacheRef,
>)
    ensures
        cache_rel(r, cache_choice(caches@, opt_pair_view(rel_cache), cache_id), caches@),
{
    let mut by_id: Option<usize> = None;
    let mut k: usize = 0;
    while k < caches.len()
        invariant
            0 <= k <= caches.len(),
            by_id is None ==> first_cache_with_id(caches@, cache_id, k as int) == first_cache_with_id(caches@, cache_id, 0),
            by_id is Some ==> by_id->Some_0 < caches.len() && first_cache_with_id(caches@, cache_id, 0) == Some(by_id->Some_0 as int),
        decreases caches.len() - k,
    {
        if by_id.is_none() && caches[k].cache_id == cache_id {
            by_id = Some(k);
        }
        k = k + 1;
    }
    let ghost rcv = opt_pair_view(rel_cache);
    match rel_cache {
        None => {},
        Some(rc) => {
            let mut j: usize = 0;
            while j < caches.len()
                invariant
                    0 <= j <= caches.len(),
                    rcv == Some((rc.0@, rc.1@)),
                    rcv == opt_pair_view(rel_cache),
                    first_cache_with_part(caches@, rc.1@, j as int) == first_cache_with_part(caches@, rc.1@, 0),
                decreases caches.len() - j,
            {
                if str_eq(caches[j].part_uri.as_str(), rc.1.as_str()) {
                    proof {
                        assert(first_cache_with_part(caches@, rc.1@, j as int) == Some(j as int));
                        assert(rcv == Some((rc.0@, rc.1@)));
                    }
                    return Some(caches[j].copy_with_relationship_id(rc.0));
                }
                j = j + 1;
            }
        },
    }
    match by_id {
        Some(k) => {
            let c = &caches[k];
            Some(c.copy_with_relationship_id(c.relationship_id.clone()))
        },
        None => None,
    }
}

pub open spec fn opt_pair_view(o: Option<(String, String)>) -> Option<(Seq<char>, Seq<char>)> {
    match o {
        Some(p) => Some((p.0@, p.1@)),
        None => None,
    }
}

fn subtotal_attr_name(k: usize) -> (r: (&'static str, &'static str))
    requires
        k < 11,
    ensures
        r.0@ == subtotal_attr(k as int),
        r.1@ == subtotal_name(k as int),
{
    proof {
        reveal_strlit("sum");
        reveal_strlit("countA");
        reveal_strlit("avg");
        reveal_strlit("max");
        reveal_strlit("min");
        reveal_strlit("product");
        reveal_strlit("count");
        reveal_strlit("stdDev");
        reveal_strlit("stdDevP");
        reveal_strlit("var");
        reveal_strlit("varP");
        reveal_strlit("Subtotal");
        reveal_strlit("sumSubtotal");
        reveal_strlit("countASubtotal");
        reveal_strlit("avgSubtotal");
        reveal_strlit("maxSubtotal");
        reveal_strlit("minSubtotal");
        reveal_strlit("productSubtotal");
        reveal_strlit("countSubtotal");
        reveal_strlit("stdDevSubtotal");
        reveal_strlit("stdDevPSubtotal");
        reveal_strlit("varSubtotal");
        reveal_strlit("varPSubtotal");
    }
    let r = if k == 0 {
        ("sumSubtotal", "sum")
    } else if k == 1 {
        ("countASubtotal", "countA")
    } else if k == 2 {
        ("avgSubtotal", "avg")
    } else if k == 3 {
        ("maxSubtotal", "max")
    } else if k == 4 {
        ("minSubtotal", "min")
    } else if k == 5 {
        ("productSubtotal", "product")
    } else if k == 6 {
        ("countSubtotal", "count")
    } else if k == 7 {
        ("stdDevSubtotal", "stdDev")
    } else if k == 8 {
        ("stdDevPSubtotal", "stdDevP")
    } else if k == 9 {
        ("varSubtotal", "var")
    } else {
        ("varPSubtotal", "varP")
    };
    proof {
        assert(r.0@ =~= subtotal_attr(k as int));
    }
    r
}

/// `first_enabled_subtotal`: the first subtotal a pivot field's flags turn on.
pub fn first_enabled_subtotal(attrs: &Vec<(String, String)>) -> (r: Option<String>)
    ensures
        r is Some <==> first_subtotal_from(attrs.deep_view(), 0) is Some,
        r is Some ==> r->Some_0@ == first_subtotal_from(attrs.deep_view(), 0)->Some_0,
{
    let mut k: usize = 0;
    while k < 11
        invariant
            0 <= k <= 11,
            first_subtotal_from(attrs.deep_view(), k as int) == first_subtotal_from(attrs.deep_view(), 0),
        decreases 11 - k,
    {
        let (attr_name, name) = subtotal_attr_name(k);
        let v = attr_get(attrs, attr_name);
        let on = match &v {
            Some(t) => parse_bool_attr(Some(t.as_str())),
            None => false,
        };
        proof {
            reveal_strlit("");
            reveal_strlit("1");
            reveal_strlit("true");
            reveal_strlit("on");
            assert(ascii_lower_seq(trim(Seq::<char>::empty())) =~= Seq::<char>::empty());
            assert(on == flag_text(attr_lookup(attrs.deep_view(), subtotal_attr(k as int))));
        }
        if on {
            return Some(to_string(name));
        }
        k = k + 1;
    }
    None
}

/// Everything of a pivot that reading its part leaves alone.
pub open spec fn pivot_frame(a: XlsxPivotRef, b: XlsxPivotRef) -> bool {
    &&& a.number == b.number
    &&& a.sheet@ == b.sheet@
    &&& a.sheet_number == b.sheet_number
    &&& a.sheet_part_uri@ == b.sheet_part_uri@
    &&& a.relationship_id@ == b.relationship_id@
    &&& a.part_uri@ == b.part_uri@
    &&& a.primary_selector@ == b.primary_selector@
    &&& strs(a.selectors@) == strs(b.selectors@)
}

proof fn lemma_choice_name(p: XlsxPivotRef, st: PivotPartState, caches: Seq<XlsxPivotCacheRef>, idx: i32)
    requires
        cache_rel(p.cache, st.cache, caches),
    ensures
        ref_field_name(p.cache, idx) == choice_field_name(caches, st.cache, idx),
{
    match (p.cache, st.cache) {
        (Some(x), Some(ch)) => {
            lemma_same_fields_same_name(x.fields@, caches[ch.0].fields@, idx, 0);
        },
        _ => {},
    }
}

fn push_field(v: &mut Vec<XlsxPivotFieldRef>, f: XlsxPivotFieldRef)
    ensures
        field_refs_view(final(v)@) == field_refs_view(old(v)@).push(field_ref_view(f)),
{
    let ghost fv = field_ref_view(f);
    v.push(f);
    proof {
        assert(field_refs_view(v@) =~= field_refs_view(old(v)@).push(fv));
    }
}

fn attr_text_exec(attrs: &Vec<(String, String)>, key: &str) -> (r: String)
    ensures
        r@ == attr_text(attrs.deep_view(), key@),
{
    match attr_get(attrs, key) {
        Some(v) => v,
        None => {
            let e = String::new();
            proof {
                assert(e@ =~= Seq::<char>::empty());
            }
            e
        },
    }
}

fn apply_pivot_token(
    p: &mut XlsxPivotRef,
    section: &mut String,
    chars: &Vec<char>,
    t: &CharToken,
    caches: &Vec<XlsxPivotCacheRef>,
    rel_cache: &Option<(String, String)>,
    Ghost(st): Ghost<PivotPartState>,
)
    requires
        pivot_holds(*old(p), st, caches@),
        old(section)@ == st.section,
        t.start <= t.end <= chars@.len(),
    ensures
        pivot_holds(*final(p), pivot_part_step(st, chars@, *t, caches@, opt_pair_view(*rel_cache)), caches@),
        final(section)@ == pivot_part_step(st, chars@, *t, caches@, opt_pair_view(*rel_cache)).section,
        pivot_frame(*final(p), *old(p)),
{
    proof {
        reveal(pivot_part_step);
    }
    let is_start = t.kind == XmlTokenKind::Start;
    let is_end = t.kind == XmlTokenKind::End;
    let tag = is_start || t.kind == XmlTokenKind::Empty;
    let ln = local_name(t.name.as_str());
    let l = ln.as_str();
    let attrs = tag_attrs_at(chars, t);
    let in_section = str_eq(l, "pivotFields") || str_eq(l, "rowFields") || str_eq(l, "colFields") || str_eq(l, "pageFields")
        || str_eq(l, "dataFields");
    if tag && str_eq(l, "pivotTableDefinition") {
        let id = attr_i32_exec(&attrs, "cacheId", 0);
        p.name = attr_text_exec(&attrs, "name");
        p.cache_id = id;
        let rc: Option<(String, String)> = match rel_cache {
            Some(pair) => Some((pair.0.clone(), pair.1.clone())),
            None => None,
        };
        proof {
            assert(opt_pair_view(rc) == opt_pair_view(*rel_cache));
        }
        p.cache = choose_cache(caches, rc, id);
    } else if tag && str_eq(l, "location") {
        let loc = attr_text_exec(&attrs, "ref");
        match crate::cellref::parse_range(loc.as_str()) {
            Ok(b) => {
                let hr = b.max_row();
                let lr = b.min_row();
                let hc = b.max_col();
                let lc = b.min_col();
                if hr - lr < 4294967295 && hc - lc < 4294967295 {
                    p.rows = hr - lr + 1;
                    p.cols = hc - lc + 1;
                }
            },
            Err(_) => {},
        }
        p.location = loc;
    } else if is_start && in_section {
        *section = ln;
    } else if is_end && in_section {
        *section = String::new();
        proof {
            assert(section@ =~= Seq::<char>::empty());
        }
    } else if tag && str_eq(section.as_str(), "pivotFields") && str_eq(l, "pivotField") {
        let idx = p.fields.len() as i32;
        proof {
            assert(field_refs_view(p.fields@).len() == p.fields@.len());
            lemma_choice_name(*p, st, caches@, idx);
        }
        let axis_raw = attr_text_exec(&attrs, "axis");
        let axis = normalize_axis(axis_raw.as_str());
        let mut f = field_ref_for_cache(&p.cache, idx, axis);
        match first_enabled_subtotal(&attrs) {
            Some(sub) => {
                f.subtotal = sub;
            },
            None => {},
        }
        push_field(&mut p.fields, f);
    } else if tag && str_eq(section.as_str(), "rowFields") && str_eq(l, "field") {
        let idx = attr_i32_exec(&attrs, "x", -1);
        proof {
            lemma_choice_name(*p, st, caches@, idx);
        }
        let f = field_ref_for_cache(&p.cache, idx, to_string("row"));
        push_field(&mut p.row_fields, f);
    } else if tag && str_eq(section.as_str(), "colFields") && str_eq(l, "field") {
        let idx = attr_i32_exec(&attrs, "x", -1);
        proof {
            lemma_choice_name(*p, st, caches@, idx);
        }
        let f = field_ref_for_cache(&p.cache, idx, to_string("column"));
        push_field(&mut p.column_fields, f);
    } else if tag && str_eq(section.as_str(), "pageFields") && str_eq(l, "pageField") {
        let idx = attr_i32_exec(&attrs, "fld", -1);
        proof {
            lemma_choice_name(*p, st, caches@, idx);
        }
        let f = field_ref_for_cache(&p.cache, idx, to_string("filter"));
        push_field(&mut p.filter_fields, f);
    } else if tag && str_eq(section.as_str(), "dataFields") && str_eq(l, "dataField") {
        let idx = attr_i32_exec(&attrs, "fld", -1);
        proof {
            lemma_choice_name(*p, st, caches@, idx);
        }
        let mut f = field_ref_for_cache(&p.cache, idx, to_string("data"));
        f.subtotal = attr_text_exec(&attrs, "subtotal");
        f.caption = attr_text_exec(&attrs, "name");
        push_field(&mut p.data_fields, f);
    }
}

/// `parse_pivot_table_part`: a pivot as its part describes it. `xml` is the
/// part's text; `rel_cache` is the relationship id and part of the cache the
/// part's own relationships point at, if any; `workbook_caches` are the
/// workbook's caches in cache-id order.
pub fn parse_pivot_table_part(
    xml: &str,
    part_uri: &str,
    sheet: &crate::sheets::WorkbookSheet,
    sheet_part_uri: &str,
    relationship_id: &str,
    number: u32,
    workbook_caches: &Vec<XlsxPivotCacheRef>,
    rel_cache: &Option<(String, String)>,
) -> (r: CliResult<XlsxPivotRef>)
    ensures
        r is Ok <==> pivot_part_spec(xml@, workbook_caches@, opt_pair_view(*rel_cache)) is Some,
        r is Ok ==> pivot_holds(
            r->Ok_0,
            pivot_part_spec(xml@, workbook_caches@, opt_pair_view(*rel_cache))->Some_0,
            workbook_caches@,
        ),
        r is Ok ==> {
            let p = r->Ok_0;
            &&& p.number == number
            &&& p.sheet@ == sheet.name@
            &&& p.sheet_number == sheet.position
            &&& p.sheet_part_uri@ == sheet_part_uri@
            &&& p.relationship_id@ == relationship_id@
            &&& p.part_uri@ == seq!['/'] + strip_all_prefix(part_uri@, seq!['/'])
            &&& p.primary_selector@.len() == 0
            &&& p.selectors@.len() == 0
        },
        r is Err ==> r->Err_0.kind == ErrorKind::Unexpected,
{
    let (toks, failed) = match char_tokens(xml) {
        Ok(pair) => pair,
        Err(e) => {
            return Err(e);
        },
    };
    let chars = str_chars(xml);
    let mut p = XlsxPivotRef {
        number,
        sheet: sheet.name.clone(),
        sheet_number: sheet.position,
        sheet_part_uri: to_string(sheet_part_uri),
        relationship_id: to_string(relationship_id),
        part_uri: normalize_part_uri(part_uri),
        name: String::new(),
        cache_id: 0,
        location: String::new(),
        rows: 0,
        cols: 0,
        primary_selector: String::new(),
        selectors: Vec::new(),
        cache: None,
        row_fields: Vec::new(),
        column_fields: Vec::new(),
        data_fields: Vec::new(),
        filter_fields: Vec::new(),
        fields: Vec::new(),
    };
    let mut section = String::new();
    proof {
        assert(p.name@ =~= Seq::<char>::empty());
        assert(p.location@ =~= Seq::<char>::empty());
        assert(section@ =~= Seq::<char>::empty());
        assert(field_refs_view(p.fields@) =~= Seq::<FieldRefView>::empty());
        assert(field_refs_view(p.row_fields@) =~= Seq::<FieldRefView>::empty());
        assert(field_refs_view(p.column_fields@) =~= Seq::<FieldRefView>::empty());
        assert(field_refs_view(p.filter_fields@) =~= Seq::<FieldRefView>::empty());
        assert(field_refs_view(p.data_fields@) =~= Seq::<FieldRefView>::empty());
        assert(p.primary_selector@ =~= Seq::<char>::empty());
        assert(p.selectors@.len() == 0);
        assert(p.part_uri@ == seq!['/'] + strip_all_prefix(part_uri@, seq!['/']));
    }
    let ghost p0 = p;
    let ghost rcv = opt_pair_view(*rel_cache);
    let mut i: usize = 0;
    while i < toks.len()
        invariant
            0 <= i <= toks.len(),
            char_tokens_spec(xml@) is Some,
            toks@ == char_tokens_spec(xml@).unwrap().0,
            tokens_well_formed(toks@, xml@.len() as int),
            chars@ == xml@,
            rcv == opt_pair_view(*rel_cache),
            pivot_holds(p, pivot_part_fold(xml@, toks@, workbook_caches@, rcv, i as int), workbook_caches@),
            section@ == pivot_part_fold(xml@, toks@, workbook_caches@, rcv, i as int).section,
            pivot_frame(p, p0),
        decreases toks.len() - i,
    {
        let t = &toks[i];
        proof {
            assert(t.start <= t.end <= chars@.len());
        }
        let ghost st = pivot_part_fold(xml@, toks@, workbook_caches@, rcv, i as int);
        apply_pivot_token(&mut p, &mut section, &chars, t, workbook_caches, rel_cache, Ghost(st));
        i = i + 1;
    }
    if failed {
        return Err(CliError::unexpected(to_string("could not read the pivot table part")));
    }
    proof {
        assert(strs(p.selectors@).len() == p.selectors@.len());
        assert(strs(p0.selectors@).len() == p0.selectors@.len());
    }
    Ok(p)
}

pub open spec fn warning_text(name: Seq<char>) -> Seq<char> {
    "value field "@ + crate::text::str_debug_text(name) + " is not fully numeric; aggregation may be approximate"@
}

/// The warnings for the value fields among the first `n` whose column is not
/// wholly numeric.
pub open spec fn value_warnings_spec(
    specs: Seq<(Seq<char>, Seq<char>)>,
    headers: Seq<Seq<char>>,
    models: Seq<PivotFieldModel>,
    n: int,
) -> Seq<Seq<char>>
    decreases n,
{
    if n <= 0 {
        Seq::empty()
    } else {
        let prev = value_warnings_spec(specs, headers, models, n - 1);
        match header_of(headers, specs[n - 1].0) {
            Some(k) => if !models[k].numeric {
                prev.push(warning_text(specs[n - 1].0))
            } else {
                prev
            },
            None => prev,
        }
    }
}

/// The warnings a new pivot reports: one per value field whose source
/// column is not wholly numeric.
pub fn pivot_value_warnings(value_specs: &Vec<PivotValueSpec>, headers: &Vec<String>, models: &Vec<PivotFieldModel>) -> (r:
    Vec<String>)
    requires
        models@.len() == headers@.len(),
    ensures
        strs(r@) == value_warnings_spec(value_specs_view(value_specs@), strs(headers@), models@, value_specs@.len() as int),
{
    let mut out: Vec<String> = Vec::new();
    let mut i: usize = 0;
    while i < value_specs.len()
        invariant
            0 <= i <= value_specs.len(),
            models@.len() == headers@.len(),
            strs(out@) == value_warnings_spec(value_specs_view(value_specs@), strs(headers@), models@, i as int),
        decreases value_specs.len() - i,
    {
        let spec = &value_specs[i];
        proof {
            assert(value_specs_view(value_specs@)[i as int] == value_spec_view(*spec));
        }
        match header_position(headers, spec.name.as_str()) {
            Some(k) => {
                if !models[k].numeric {
                    let w = concat3(
                        "value field ",
                        crate::text::debug_quoted(spec.name.as_str()).as_str(),
                        " is not fully numeric; aggregation may be approximate",
                    );
                    let ghost prev = strs(out@);
                    out.push(w);
                    proof {
                        assert(strs(out@) =~= prev.push(warning_text(spec.name@)));
                    }
                }
            },
            None => {},
        }
        i = i + 1;
    }
    out
}

// ---------------------------------------------------------------------------
// Reading a pivot cache definition part
// ---------------------------------------------------------------------------

/// What a cache definition part has said so far.
pub ghost struct CachePartState {
    pub in_fields: bool,
    pub record_count: i32,
    pub created_version: Seq<char>,
    pub refreshed_version: Seq<char>,
    pub refresh_on_load: bool,
    pub save_data: Option<bool>,
    pub source_type: Seq<char>,
    pub sheet: Seq<char>,
    pub range: Seq<char>,
    pub name: Seq<char>,
    pub fields: Seq<(i32, Seq<char>)>,
}

pub open spec fn initial_cache_state() -> CachePartState {
    CachePartState {
        in_fields: false,
        record_count: 0,
        created_version: Seq::empty(),
        refreshed_version: Seq::empty(),
        refresh_on_load: false,
        save_data: None,
        source_type: Seq::empty(),
        sheet: Seq::empty(),
        range: Seq::empty(),
        name: Seq::empty(),
        fields: Seq::empty(),
    }
}

/// How one event of a cache definition part changes what has been read.
#[verifier::opaque]
pub open spec fn cache_part_step(st: CachePartState, xml: Seq<char>, t: CharToken) -> CachePartState {
    let ln = local_name_of(t.name@);
    let attrs = tag_attrs_of(xml, t);
    if is_tag(t) && ln == "pivotCacheDefinition"@ {
        CachePartState {
            record_count: attr_i32(attrs, "recordCount"@, 0),
            created_version: attr_text(attrs, "createdVersion"@),
            refreshed_version: attr_text(attrs, "refreshedVersion"@),
            refresh_on_load: flag_text(attr_lookup(attrs, "refreshOnLoad"@)),
            save_data: match attr_lookup(attrs, "saveData"@) {
                Some(v) => Some(flag_text(Some(v))),
                None => None,
            },
            ..st
        }
    } else if t.kind == XmlTokenKind::Start && ln == "cacheSource"@ {
        CachePartState { source_type: attr_text(attrs, "type"@), ..st }
    } else if is_tag(t) && ln == "worksheetSource"@ {
        CachePartState { sheet: attr_text(attrs, "sheet"@), range: attr_text(attrs, "ref"@), name: attr_text(attrs, "name"@), ..st }
    } else if t.kind == XmlTokenKind::Start && ln == "cacheFields"@ {
        CachePartState { in_fields: true, ..st }
    } else if t.kind == XmlTokenKind::End && ln == "cacheFields"@ {
        CachePartState { in_fields: false, ..st }
    } else if is_tag(t) && st.in_fields && ln == "cacheField"@ {
        CachePartState { fields: st.fields.push((st.fields.len() as i32, attr_text(attrs, "name"@))), ..st }
    } else {
        st
    }
}

pub open spec fn cache_part_fold(xml: Seq<char>, toks: Seq<CharToken>, n: int) -> CachePartState
    decreases n,
{
    if n <= 0 {
        initial_cache_state()
    } else {
        cache_part_step(cache_part_fold(xml, toks, n - 1), xml, toks[n - 1])
    }
}

/// What a cache definition part says, or `None` when `quick_xml` cannot read
/// it to the end.
pub open spec fn cache_part_spec(xml: Seq<char>) -> Option<CachePartState> {
    match char_tokens_spec(xml) {
        None => None,
        Some(p) => if p.1 {
            None
        } else {
            Some(cache_part_fold(xml, p.0, p.0.len() as int))
        },
    }
}

/// A cache as what has been read of its part.
pub open spec fn cache_holds(c: XlsxPivotCacheRef, st: CachePartState) -> bool {
    &&& c.record_count == st.record_count
    &&& c.created_version@ == st.created_version
    &&& c.refreshed_version@ == st.refreshed_version
    &&& c.refresh_on_load == st.refresh_on_load
    &&& c.save_data == st.save_data
    &&& c.source.source_type@ == st.source_type
    &&& c.source.sheet@ == st.sheet
    &&& c.source.range@ == st.range
    &&& c.source.name@ == st.name
    &&& cache_fields_view(c.fields@) == st.fields
}

pub open spec fn cache_ids(a: XlsxPivotCacheRef, b: XlsxPivotCacheRef) -> bool {
    a.cache_id == b.cache_id && a.part_uri@ == b.part_uri@ && a.relationship_id@ == b.relationship_id@
        && a.records_part_uri@ == b.records_part_uri@
}

fn apply_cache_token(c: &mut XlsxPivotCacheRef, in_fields: &mut bool, chars: &Vec<char>, t: &CharToken, Ghost(st): Ghost<
    CachePartState,
>)
    requires
        cache_holds(*old(c), st),
        *old(in_fields) == st.in_fields,
        t.start <= t.end <= chars@.len(),
    ensures
        cache_holds(*final(c), cache_part_step(st, chars@, *t)),
        *final(in_fields) == cache_part_step(st, chars@, *t).in_fields,
        cache_ids(*final(c), *old(c)),
{
    proof {
        reveal(cache_part_step);
    }
    let is_start = t.kind == XmlTokenKind::Start;
    let tag = is_start || t.kind == XmlTokenKind::Empty;
    let ln = local_name(t.name.as_str());
    let l = ln.as_str();
    let attrs = tag_attrs_at(chars, t);
    if tag && str_eq(l, "pivotCacheDefinition") {
        c.record_count = attr_i32_exec(&attrs, "recordCount", 0);
        c.created_version = attr_text_exec(&attrs, "createdVersion");
        c.refreshed_version = attr_text_exec(&attrs, "refreshedVersion");
        let rol = attr_get(&attrs, "refreshOnLoad");
        c.refresh_on_load = match &rol {
            Some(v) => parse_bool_attr(Some(v.as_str())),
            None => false,
        };
        let sd = attr_get(&attrs, "saveData");
        c.save_data = match &sd {
            Some(v) => Some(parse_bool_attr(Some(v.as_str()))),
            None => None,
        };
        proof {
            reveal_strlit("1");
            reveal_strlit("true");
            reveal_strlit("on");
            assert(ascii_lower_seq(trim(Seq::<char>::empty())) =~= Seq::<char>::empty());
        }
    } else if is_start && str_eq(l, "cacheSource") {
        c.source.source_type = attr_text_exec(&attrs, "type");
    } else if tag && str_eq(l, "worksheetSource") {
        c.source.sheet = attr_text_exec(&attrs, "sheet");
        c.source.range = attr_text_exec(&attrs, "ref");
        c.source.name = attr_text_exec(&attrs, "name");
    } else if is_start && str_eq(l, "cacheFields") {
        *in_fields = true;
    } else if t.kind == XmlTokenKind::End && str_eq(l, "cacheFields") {
        *in_fields = false;
    } else if tag && *in_fields && str_eq(l, "cacheField") {
        let idx = c.fields.len() as i32;
        proof {
            assert(cache_fields_view(c.fields@).len() == c.fields@.len());
        }
        let f = XlsxPivotCacheField { index: idx, name: attr_text_exec(&attrs, "name") };
        let ghost fv = (f.index, f.name@);
        let ghost prev = c.fields@;
        c.fields.push(f);
        proof {
            assert(cache_fields_view(c.fields@) =~= cache_fields_view(prev).push(fv));
        }
    }
}

/// `parse_pivot_cache_definition`: a workbook pivot cache as its definition
/// part describes it. `xml` is the part's text; `records_part_uri` is where
/// the part's records relationship points (empty without one).
pub fn parse_pivot_cache_definition(
    xml: &str,
    cache_id: i32,
    relationship_id: &str,
    part_uri: &str,
    records_part_uri: &str,
) -> (r: CliResult<XlsxPivotCacheRef>)
    ensures
        r is Ok <==> cache_part_spec(xml@) is Some,
        r is Ok ==> cache_holds(r->Ok_0, cache_part_spec(xml@)->Some_0),
        r is Ok ==> {
            let c = r->Ok_0;
            &&& c.cache_id == cache_id
            &&& c.part_uri@ == seq!['/'] + strip_all_prefix(part_uri@, seq!['/'])
            &&& c.relationship_id@ == relationship_id@
            &&& c.records_part_uri@ == records_part_uri@
        },
        r is Err ==> r->Err_0.kind == ErrorKind::Unexpected,
{
    let (toks, failed) = match char_tokens(xml) {
        Ok(pair) => pair,
        Err(e) => {
            return Err(e);
        },
    };
    let chars = str_chars(xml);
    let mut c = XlsxPivotCacheRef {
        cache_id,
        part_uri: normalize_part_uri(part_uri),
        relationship_id: to_string(relationship_id),
        records_part_uri: to_string(records_part_uri),
        record_count: 0,
        created_version: String::new(),
        refreshed_version: String::new(),
        refresh_on_load: false,
        save_data: None,
        source: XlsxPivotSourceRef { source_type: String::new(), sheet: String::new(), range: String::new(), name: String::new() },
        fields: Vec::new(),
    };
    let mut in_fields = false;
    proof {
        assert(c.created_version@ =~= Seq::<char>::empty());
        assert(c.refreshed_version@ =~= Seq::<char>::empty());
        assert(c.source.source_type@ =~= Seq::<char>::empty());
        assert(c.source.sheet@ =~= Seq::<char>::empty());
        assert(c.source.range@ =~= Seq::<char>::empty());
        assert(c.source.name@ =~= Seq::<char>::empty());
        assert(cache_fields_view(c.fields@) =~= Seq::<(i32, Seq<char>)>::empty());
    }
    let ghost c0 = c;
    let mut i: usize = 0;
    while i < toks.len()
        invariant
            0 <= i <= toks.len(),
            char_tokens_spec(xml@) is Some,
            toks@ == char_tokens_spec(xml@).unwrap().0,
            tokens_well_formed(toks@, xml@.len() as int),
            chars@ == xml@,
            cache_holds(c, cache_part_fold(xml@, toks@, i as int)),
            in_fields == cache_part_fold(xml@, toks@, i as int).in_fields,
            cache_ids(c, c0),
        decreases toks.len() - i,
    {
        let t = &toks[i];
        proof {
            assert(t.start <= t.end <= chars@.len());
        }
        let ghost st = cache_part_fold(xml@, toks@, i as int);
        apply_cache_token(&mut c, &mut in_fields, &chars, t, Ghost(st));
        i = i + 1;
    }
    if failed {
        return Err(CliError::unexpected(to_string("could not read the pivot cache definition")));
    }
    Ok(c)
}

// ---------------------------------------------------------------------------
// Planning a new pivot
// ---------------------------------------------------------------------------

pub open spec fn numbered_part(prefix: Seq<char>, k: int, suffix: Seq<char>) -> Seq<char> {
    prefix + decimal(k as nat) + suffix
}

/// The name a part has as a zip entry.
pub open spec fn entry_name(part: Seq<char>) -> Seq<char> {
    strip_all_prefix(part, seq!['/'])
}

/// The first number from `k` to `last` whose part is not among the entries.
pub open spec fn first_free_from(entries: Seq<Seq<char>>, prefix: Seq<char>, suffix: Seq<char>, k: int, last: int) -> Option<int>
    decreases last - k + 1,
{
    if k > last {
        None
    } else if !entries.contains(entry_name(numbered_part(prefix, k, suffix))) {
        Some(k)
    } else {
        first_free_from(entries, prefix, suffix, k + 1, last)
    }
}

/// The first free numbered part (`prefix1suffix`, `prefix2suffix`, ...),
/// looking as far as one past the number of entries.
pub open spec fn allocate_part_spec(entries: Seq<Seq<char>>, prefix: Seq<char>, suffix: Seq<char>) -> Option<Seq<char>> {
    match first_free_from(entries, prefix, suffix, 1, entries.len() as int + 1) {
        Some(k) => Some(numbered_part(prefix, k, suffix)),
        None => None,
    }
}

fn entries_contain(entries: &Vec<String>, name: &str) -> (r: bool)
    ensures
        r == strs(entries@).contains(name@),
{
    let mut i: usize = 0;
    while i < entries.len()
        invariant
            0 <= i <= entries.len(),
            forall|k: int| 0 <= k < i ==> entries@[k]@ != name@,
        decreases entries.len() - i,
    {
        if str_eq(entries[i].as_str(), name) {
            proof {
                assert(strs(entries@)[i as int] == name@);
            }
            return true;
        }
        i = i + 1;
    }
    proof {
        if strs(entries@).contains(name@) {
            let k = choose|k: int| 0 <= k < strs(entries@).len() && strs(entries@)[k] == name@;
            assert(entries@[k]@ == name@);
        }
    }
    false
}

/// `allocate_numbered_part`: the first free numbered part, whose entry name
/// is then added to the entries.
pub fn allocate_numbered_part(entries: &mut Vec<String>, prefix: &str, suffix: &str) -> (r: Option<String>)
    requires
        old(entries)@.len() < usize::MAX - 1,
    ensures
        r is Some <==> allocate_part_spec(strs(old(entries)@), prefix@, suffix@) is Some,
        r is Some ==> r->Some_0@ == allocate_part_spec(strs(old(entries)@), prefix@, suffix@)->Some_0,
        r is Some ==> strs(final(entries)@) == strs(old(entries)@).push(entry_name(r->Some_0@)),
        r is None ==> final(entries)@ == old(entries)@,
{
    let last: usize = entries.len() + 1;
    let ghost e0 = strs(entries@);
    let mut k: usize = 1;
    while k <= last
        invariant
            1 <= k <= last + 1,
            last == e0.len() + 1,
            last < usize::MAX,
            e0 == strs(entries@),
            entries@ == old(entries)@,
            first_free_from(e0, prefix@, suffix@, k as int, last as int) == first_free_from(e0, prefix@, suffix@, 1, last as int),
        decreases last + 1 - k,
    {
        let n = u64_to_string(k as u64);
        let part = concat3(prefix, n.as_str(), suffix);
        proof {
            reveal_strlit("/");
            assert("/"@ =~= seq!['/']);
        }
        let name_chars = str_strip_all_prefix(part.as_str(), "/");
        let name = string_from_chars(name_chars.as_slice());
        proof {
            assert(part@ == numbered_part(prefix@, k as int, suffix@));
            assert(name@ == entry_name(part@));
        }
        if !entries_contain(entries, name.as_str()) {
            let ghost nv = name@;
            entries.push(name);
            proof {
                assert(strs(entries@) =~= e0.push(nv));
            }
            return Some(part);
        }
        k = k + 1;
    }
    None
}

/// Inserts `x` into an ascending list of distinct numbers.
pub(crate) fn insert_sorted(v: &mut Vec<usize>, x: usize)
    requires
        forall|i: int, j: int| 0 <= i < j < old(v)@.len() ==> old(v)@[i] < old(v)@[j],
    ensures
        forall|i: int, j: int| 0 <= i < j < final(v)@.len() ==> final(v)@[i] < final(v)@[j],
        forall|y: usize| final(v)@.contains(y) <==> (old(v)@.contains(y) || y == x),
{
    let mut i: usize = 0;
    while i < v.len() && v[i] < x
        invariant
            0 <= i <= v@.len(),
            v@ == old(v)@,
            forall|k: int| 0 <= k < i ==> v@[k] < x,
        decreases v.len() - i,
    {
        i = i + 1;
    }
    if i < v.len() && v[i] == x {
        proof {
            assert(v@[i as int] == x);
            assert(v@.contains(x));
        }
        return;
    }
    let ghost before = v@;
    proof {
        assert(before == old(v)@);
    }
    v.insert(i, x);
    proof {
        assert forall|y: usize| v@.contains(y) <==> (before.contains(y) || y == x) by {
            if v@.contains(y) {
                let k = choose|k: int| 0 <= k < v@.len() && v@[k] == y;
                if k < i {
                    assert(before[k] == y);
                } else if k > i {
                    assert(before[k - 1] == y);
                }
            }
            if before.contains(y) {
                let k = choose|k: int| 0 <= k < before.len() && before[k] == y;
                if k < i {
                    assert(v@[k] == y);
                } else {
                    assert(v@[k + 1] == y);
                }
            }
            if y == x {
                assert(v@[i as int] == x);
            }
        }
        assert(forall|y: usize| v@.contains(y) <==> (old(v)@.contains(y) || y == x));
    }
}

/// The data field columns, ascending and each once.
pub open spec fn index_set_of(v: Seq<usize>, d: Seq<(int, Seq<char>, Seq<char>)>) -> bool {
    &&& forall|i: int, j: int| 0 <= i < j < v.len() ==> v[i] < v[j]
    &&& forall|y: usize| v.contains(y) <==> exists|k: int| 0 <= k < d.len() && d[k].0 == y as int
}

/// A new pivot's parts and what it is built from.
#[derive(Debug)]
pub struct PivotCreatePlan {
    pub name: String,
    pub cache_id: i32,
    pub location: String,
    pub cache_definition_uri: String,
    pub cache_records_uri: String,
    pub pivot_table_uri: String,
    pub headers: Vec<String>,
    pub row_idx: Vec<usize>,
    pub col_idx: Vec<usize>,
    pub page_idx: Vec<usize>,
    pub data_fields: Vec<PivotDataField>,
    pub data_field_indices: Vec<usize>,
    pub fields: Vec<PivotFieldModel>,
    pub warnings: Vec<String>,
    pub cache_definition_xml: String,
    pub cache_records_xml: String,
    pub pivot_table_xml: String,
    pub workbook_xml: String,
    pub workbook_rel_id: String,
    pub worksheet_rel_id: String,
}

/// The name of a new pivot: the one given (trimmed) unless blank, else
/// `PivotTable<cache id>`.
pub open spec fn pivot_name_spec(name: Option<&str>, cache_id: i32) -> Seq<char> {
    match name {
        Some(n) => if trim(n@).len() > 0 {
            trim(n@)
        } else {
            "PivotTable"@ + decimal_int(cache_id as int)
        },
        None => "PivotTable"@ + decimal_int(cache_id as int),
    }
}

/// The error that stops pivot creation, or `None` when it succeeds: an
/// unexpected error when no free part name or cache id is left, else an
/// invalid-arguments error when the source has no data row or a row, column,
/// filter or value field names no header.
pub open spec fn pivot_create_error(
    workbook_xml: Seq<char>,
    entries: Seq<Seq<char>>,
    cells: Seq<Vec<PivotCell>>,
    row_fields: Seq<Seq<char>>,
    col_fields: Seq<Seq<char>>,
    page_fields: Seq<Seq<char>>,
    value_specs: Seq<(Seq<char>, Seq<char>)>,
) -> Option<ErrorKind> {
    let d = allocate_part_spec(entries, "/xl/pivotCache/pivotCacheDefinition"@, ".xml"@);
    let e1 = entries.push(entry_name(d->Some_0));
    let rc = allocate_part_spec(e1, "/xl/pivotCache/pivotCacheRecords"@, ".xml"@);
    let e2 = e1.push(entry_name(rc->Some_0));
    let t = allocate_part_spec(e2, "/xl/pivotTables/pivotTable"@, ".xml"@);
    if d is None || rc is None || t is None || workbook_max_cache_id(workbook_xml) >= i32::MAX {
        Some(ErrorKind::Unexpected)
    } else if cells.len() < 2 {
        Some(ErrorKind::InvalidArgs)
    } else {
        let h = Seq::new(cells[0]@.len(), |i: int| header_name(cells[0]@[i], i));
        if resolve_fields_spec(row_fields, h, row_fields.len() as int) is None
            || resolve_fields_spec(col_fields, h, col_fields.len() as int) is None
            || resolve_fields_spec(page_fields, h, page_fields.len() as int) is None
            || data_fields_spec(value_specs, h, value_specs.len() as int) is None {
            Some(ErrorKind::InvalidArgs)
        } else {
            None
        }
    }
}

/// `build_pivot_create_artifacts`, with the package read by the caller: the
/// parts and ids of a new pivot. `entries` are the package's entry names;
/// `number_flags` says which source cells hold a number and `column_ranges`
/// gives each source column's smallest and largest number as written.
pub fn plan_pivot_create(
    workbook_xml: &str,
    workbook_rels: &Vec<crate::rels::RelationshipEntry>,
    worksheet_rels: &Vec<crate::rels::RelationshipEntry>,
    entries: &Vec<String>,
    source: &PivotSource,
    anchor: (u32, u32),
    name: Option<&str>,
    row_fields: &Vec<String>,
    col_fields: &Vec<String>,
    page_fields: &Vec<String>,
    value_specs: &Vec<PivotValueSpec>,
    number_flags: &Vec<Vec<bool>>,
    column_ranges: &Vec<(String, String)>,
) -> (r: CliResult<PivotCreatePlan>)
    requires
        entries@.len() + 3 < usize::MAX,
        flags_cover(source.cells@, number_flags@),
        source.cells@.len() > 0 ==> column_ranges@.len() == source.cells@[0]@.len(),
        anchor.0 + (if row_fields@.len() > 1 { row_fields@.len() as int } else { 1 }) + value_specs@.len() <= u32::MAX,
        anchor.1 + 4 <= u32::MAX,
    ensures
        r is Ok ==> {
            let p = r->Ok_0;
            let e0 = strs(entries@);
            let e1 = e0.push(entry_name(p.cache_definition_uri@));
            let e2 = e1.push(entry_name(p.cache_records_uri@));
            &&& allocate_part_spec(e0, "/xl/pivotCache/pivotCacheDefinition"@, ".xml"@) == Some(p.cache_definition_uri@)
            &&& allocate_part_spec(e1, "/xl/pivotCache/pivotCacheRecords"@, ".xml"@) == Some(p.cache_records_uri@)
            &&& allocate_part_spec(e2, "/xl/pivotTables/pivotTable"@, ".xml"@) == Some(p.pivot_table_uri@)
            &&& p.cache_id == workbook_max_cache_id(workbook_xml@) + 1
            &&& p.name@ == pivot_name_spec(name, p.cache_id)
            &&& p.location@ == pivot_location_spec(anchor, row_fields@.len() as int, value_specs@.len() as int)
            &&& source.cells@.len() >= 2
            &&& strs(p.headers@) == Seq::new(source.cells@[0]@.len(), |i: int| header_name(source.cells@[0]@[i], i))
            &&& usizes(p.row_idx@) == resolve_fields_spec(strs(row_fields@), strs(p.headers@), row_fields@.len() as int)->Some_0
            &&& usizes(p.col_idx@) == resolve_fields_spec(strs(col_fields@), strs(p.headers@), col_fields@.len() as int)->Some_0
            &&& usizes(p.page_idx@) == resolve_fields_spec(strs(page_fields@), strs(p.headers@), page_fields@.len() as int)->Some_0
            &&& data_fields_view(p.data_fields@) == data_fields_spec(value_specs_view(value_specs@), strs(p.headers@), value_specs@.len() as int)->Some_0
            &&& index_set_of(p.data_field_indices@, data_fields_view(p.data_fields@))
            &&& p.fields@.len() == p.headers@.len()
            &&& forall|c: int| 0 <= c < p.fields@.len() ==> model_view(#[trigger] p.fields@[c]) == field_model_spec(
                source.cells@,
                number_flags@,
                p.headers@[c]@,
                p.row_idx@ + p.col_idx@ + p.page_idx@,
                c,
            )
            &&& strs(p.warnings@) == value_warnings_spec(value_specs_view(value_specs@), strs(p.headers@), p.fields@, value_specs@.len() as int)
            &&& p.cache_records_xml@ == cache_records_spec(source.cells@, p.fields@)
            &&& p.cache_definition_xml@ == cache_definition_spec(
                source.sheet@,
                source.range@,
                p.fields@,
                (source.cells@.len() - 1) as nat,
                "rId1"@,
                ranges_view(column_ranges@),
            )
            &&& p.pivot_table_xml@ == pivot_table_spec(
                p.name@,
                p.cache_id,
                p.location@,
                p.fields@,
                p.row_idx@,
                p.col_idx@,
                p.page_idx@,
                data_fields_view(p.data_fields@),
                p.data_field_indices@,
            )
            &&& p.workbook_rel_id@ == "rId"@ + decimal(crate::rels::max_rel_number(crate::rels::rels_view(workbook_rels@)) + 1)
            &&& p.worksheet_rel_id@ == "rId"@ + decimal(crate::rels::max_rel_number(crate::rels::rels_view(worksheet_rels@)) + 1)
            &&& p.workbook_xml@ == add_pivot_cache_spec(pivot_r_namespace_spec(workbook_xml@), p.cache_id, p.workbook_rel_id@)
        },
        match pivot_create_error(
            workbook_xml@,
            strs(entries@),
            source.cells@,
            strs(row_fields@),
            strs(col_fields@),
            strs(page_fields@),
            value_specs_view(value_specs@),
        ) {
            Some(k) => r is Err && r->Err_0.kind == k,
            None => r is Ok,
        },
{
    let mut ents: Vec<String> = Vec::new();
    let mut i: usize = 0;
    while i < entries.len()
        invariant
            0 <= i <= entries.len(),
            strs(ents@) == strs(entries@).take(i as int),
        decreases entries.len() - i,
    {
        let ghost before = strs(ents@);
        let item = entries[i].clone();
        proof {
            assert(item@ == entries@[i as int]@);
            assert(strs(entries@)[i as int] == entries@[i as int]@);
            assert(strs(entries@).take(i + 1) =~= strs(entries@).take(i as int).push(entries@[i as int]@));
        }
        ents.push(item);
        proof {
            assert(strs(ents@) =~= strs(entries@).take(i + 1));
        }
        i = i + 1;
    }
    proof {
        assert(strs(entries@).take(entries@.len() as int) =~= strs(entries@));
    }
    let def_uri = match allocate_numbered_part(&mut ents, "/xl/pivotCache/pivotCacheDefinition", ".xml") {
        Some(u) => u,
        None => {
            return Err(CliError::unexpected(to_string("no free pivot cache definition part")));
        },
    };
    proof {
        assert(strs(ents@).len() == ents@.len());
        assert(strs(entries@).len() == entries@.len());
    }
    let rec_uri = match allocate_numbered_part(&mut ents, "/xl/pivotCache/pivotCacheRecords", ".xml") {
        Some(u) => u,
        None => {
            return Err(CliError::unexpected(to_string("no free pivot cache records part")));
        },
    };
    proof {
        assert(strs(ents@).len() == ents@.len());
    }
    let table_uri = match allocate_numbered_part(&mut ents, "/xl/pivotTables/pivotTable", ".xml") {
        Some(u) => u,
        None => {
            return Err(CliError::unexpected(to_string("no free pivot table part")));
        },
    };
    let cache_id = match next_pivot_cache_id(workbook_xml) {
        Some(id) => id,
        None => {
            return Err(CliError::unexpected(to_string("no free pivot cache id")));
        },
    };
    let pivot_name: String = match name {
        Some(n) => {
            let t = crate::text::trim_chars(n);
            if t.len() > 0 {
                string_from_chars(t.as_slice())
            } else {
                let id_text = crate::text::i64_to_string(cache_id as i64);
                concat2("PivotTable", id_text.as_str())
            }
        },
        None => {
            let id_text = crate::text::i64_to_string(cache_id as i64);
            concat2("PivotTable", id_text.as_str())
        },
    };
    let headers = pivot_headers(&source.cells)?;
    let mut axis: Vec<usize> = Vec::new();
    let row_idx = resolve_pivot_fields("rows", row_fields, &headers, &mut axis)?;
    let col_idx = resolve_pivot_fields("cols", col_fields, &headers, &mut axis)?;
    let page_idx = resolve_pivot_fields("filters", page_fields, &headers, &mut axis)?;
    proof {
        assert(axis@ =~= row_idx@ + col_idx@ + page_idx@);
    }
    let data_fields = plan_pivot_data_fields(value_specs, &headers)?;
    let mut indices: Vec<usize> = Vec::new();
    let mut d: usize = 0;
    while d < data_fields.len()
        invariant
            0 <= d <= data_fields.len(),
            forall|a: int, b: int| 0 <= a < b < indices@.len() ==> indices@[a] < indices@[b],
            forall|y: usize| indices@.contains(y) <==> exists|k: int| 0 <= k < d && data_fields@[k].field_index == y,
        decreases data_fields.len() - d,
    {
        insert_sorted(&mut indices, data_fields[d].field_index);
        proof {
            assert forall|y: usize| indices@.contains(y) <==> exists|k: int| 0 <= k < d + 1 && data_fields@[k].field_index == y by {
                if y == data_fields@[d as int].field_index {
                    assert(data_fields@[d as int].field_index == y);
                }
            }
        }
        d = d + 1;
    }
    proof {
        assert forall|y: usize| indices@.contains(y) <==> exists|k: int| 0 <= k < data_fields_view(data_fields@).len() && data_fields_view(data_fields@)[k].0 == y as int by {
            if indices@.contains(y) {
                let k = choose|k: int| 0 <= k < data_fields@.len() && data_fields@[k].field_index == y;
                assert(data_fields_view(data_fields@)[k].0 == y as int);
            }
            if exists|k: int| 0 <= k < data_fields_view(data_fields@).len() && data_fields_view(data_fields@)[k].0 == y as int {
                let k = choose|k: int| 0 <= k < data_fields_view(data_fields@).len() && data_fields_view(data_fields@)[k].0 == y as int;
                assert(data_fields@[k].field_index == y);
            }
        }
    }
    let fields = build_pivot_field_models(&source.cells, &headers, &axis, number_flags);
    let warnings = pivot_value_warnings(value_specs, &headers, &fields);
    proof {
        lemma_resolve_len(strs(row_fields@), strs(headers@), row_fields@.len() as int);
        lemma_data_fields_len(value_specs_view(value_specs@), strs(headers@), value_specs@.len() as int);
        assert(usizes(row_idx@).len() == row_idx@.len());
        assert(data_fields_view(data_fields@).len() == data_fields@.len());
    }
    let location = pivot_location(anchor, row_idx.len(), data_fields.len());
    let record_count: usize = source.cells.len() - 1;
    proof {
        assert(column_ranges@.len() == fields@.len());
    }
    let cache_definition_xml = render_cache_definition_xml(source, &fields, record_count, "rId1", column_ranges);
    let cache_records_xml = render_cache_records_xml(&source.cells, &fields);
    proof {
        assert forall|c: int| 0 <= c < fields@.len() implies (#[trigger] fields@[c]).items@.len() < usize::MAX by {
            lemma_items_upto_len(source.cells@, number_flags@, c, source.cells@.len() as int);
            assert(model_items(fields@[c]).len() == fields@[c].items@.len());
        }
    }
    let pivot_table_xml = render_pivot_table_xml(
        pivot_name.as_str(),
        cache_id,
        location.as_str(),
        &fields,
        &row_idx,
        &col_idx,
        &page_idx,
        &data_fields,
        &indices,
    );
    let workbook_rel_id = crate::rels::allocate_relationship_id(workbook_rels);
    let worksheet_rel_id = crate::rels::allocate_relationship_id(worksheet_rels);
    let with_ns = ensure_workbook_r_namespace(to_string(workbook_xml));
    let new_workbook = add_workbook_pivot_cache(with_ns.as_str(), cache_id, workbook_rel_id.as_str());
    Ok(PivotCreatePlan {
        name: pivot_name,
        cache_id,
        location,
        cache_definition_uri: def_uri,
        cache_records_uri: rec_uri,
        pivot_table_uri: table_uri,
        headers,
        row_idx,
        col_idx,
        page_idx,
        data_fields,
        data_field_indices: indices,
        fields,
        warnings,
        cache_definition_xml,
        cache_records_xml,
        pivot_table_xml,
        workbook_xml: new_workbook,
        workbook_rel_id,
        worksheet_rel_id,
    })
}

// ---------------------------------------------------------------------------
// Checking a pivot request
// ---------------------------------------------------------------------------

/// The field lists a pivot request gives: rows, columns and filters, and
/// the value fields; at least one row or column field and one value field
/// must be named.
pub open spec fn pivot_request_spec(
    rows: Option<&str>,
    cols: Option<&str>,
    filters: Option<&str>,
    values: Option<&str>,
) -> Option<(Seq<Seq<char>>, Seq<Seq<char>>, Seq<Seq<char>>, Seq<(Seq<char>, Seq<char>)>)> {
    let r = comma_list_from(opt_text(rows), 0);
    let c = comma_list_from(opt_text(cols), 0);
    let f = comma_list_from(opt_text(filters), 0);
    if r.len() == 0 && c.len() == 0 {
        None
    } else if trim(opt_text(values)).len() == 0 {
        None
    } else {
        match value_specs_spec(comma_list_from(opt_text(values), 0)) {
            Some(v) => Some((r, c, f, v)),
            None => None,
        }
    }
}

/// The field lists of `xlsx_pivots_create`: row, column and filter fields
/// and the value fields.
pub fn plan_pivot_fields_request(
    rows: Option<&str>,
    cols: Option<&str>,
    filters: Option<&str>,
    values: Option<&str>,
) -> (r: CliResult<(Vec<String>, Vec<String>, Vec<String>, Vec<PivotValueSpec>)>)
    ensures
        r is Ok <==> pivot_request_spec(rows, cols, filters, values) is Some,
        r is Ok ==> {
            let v = pivot_request_spec(rows, cols, filters, values)->Some_0;
            &&& strs(r->Ok_0.0@) == v.0
            &&& strs(r->Ok_0.1@) == v.1
            &&& strs(r->Ok_0.2@) == v.2
            &&& value_specs_view(r->Ok_0.3@) == v.3
        },
        r is Err ==> r->Err_0.kind == ErrorKind::InvalidArgs,
{
    proof {
        reveal_strlit("");
    }
    let rt: &str = match rows {
        Some(v) => v,
        None => "",
    };
    let ct: &str = match cols {
        Some(v) => v,
        None => "",
    };
    let ft: &str = match filters {
        Some(v) => v,
        None => "",
    };
    let vt: &str = match values {
        Some(v) => v,
        None => "",
    };
    proof {
        assert(rt@ == opt_text(rows));
        assert(ct@ == opt_text(cols));
        assert(ft@ == opt_text(filters));
        assert(vt@ == opt_text(values));
    }
    let row_fields = split_comma_list(rt);
    let col_fields = split_comma_list(ct);
    let page_fields = split_comma_list(ft);
    proof {
        assert(strs(row_fields@).len() == row_fields@.len());
        assert(strs(col_fields@).len() == col_fields@.len());
    }
    if row_fields.len() == 0 && col_fields.len() == 0 {
        return Err(CliError::invalid_args(to_string("specify at least one --rows or --cols field")));
    }
    if crate::text::trim_chars(vt).len() == 0 {
        return Err(CliError::invalid_args(to_string("specify at least one --values field (name or name:agg)")));
    }
    let specs = parse_pivot_value_fields(&split_comma_list(vt))?;
    Ok((row_fields, col_fields, page_fields, specs))
}

/// Where a new pivot goes: the `--anchor` cell, or two columns right of the
/// source on its first row; `None` when the source range is not the one
/// expected or the anchor is not a cell.
pub open spec fn pivot_anchor_spec(
    anchor: Option<&str>,
    bounds: crate::cellref::RangeBounds,
    source_range: Seq<char>,
    expect: Option<&str>,
) -> Option<(u32, u32)> {
    let expected = opt_text(expect);
    if expected.len() > 0 && ascii_lower_seq(source_range) != ascii_lower_seq(expected) {
        None
    } else if trim(opt_text(anchor)).len() > 0 {
        crate::cellref::cell_ref_spec(opt_text(anchor))
    } else {
        Some(((bounds.hi_col() + 2) as u32, bounds.lo_row()))
    }
}

/// `xlsx_pivots_create`'s source-range check and anchor.
pub fn resolve_pivot_anchor(
    anchor: Option<&str>,
    bounds: crate::cellref::RangeBounds,
    source_range: &str,
    expect: Option<&str>,
) -> (r: CliResult<(u32, u32)>)
    requires
        bounds.hi_col() + 2 <= u32::MAX,
    ensures
        r is Ok <==> pivot_anchor_spec(anchor, bounds, source_range@, expect) is Some,
        r is Ok ==> r->Ok_0 == pivot_anchor_spec(anchor, bounds, source_range@, expect)->Some_0,
        r is Err ==> r->Err_0.kind == ErrorKind::InvalidArgs,
{
    proof {
        reveal_strlit("");
    }
    match expect {
        Some(e) => {
            if str_chars(e).len() > 0 && !crate::text::str_eq_ignore_ascii_case(source_range, e) {
                let msg = crate::text::concat4("source range mismatch: expected ", e, " but found ", source_range);
                return Err(CliError::invalid_args(msg));
            }
        },
        None => {},
    }
    let a: &str = match anchor {
        Some(v) => v,
        None => "",
    };
    proof {
        assert(a@ == opt_text(anchor));
    }
    if crate::text::trim_chars(a).len() > 0 {
        match crate::cellref::parse_cell_ref(a) {
            Ok(p) => Ok(p),
            Err(e) => Err(CliError::invalid_args(concat2("invalid --anchor: ", e.message.as_str()))),
        }
    } else {
        Ok((bounds.max_col() + 2, bounds.min_row()))
    }
}

} // verus!
