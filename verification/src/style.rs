//! Cell style records: elements of the styles part as name, attributes and
//! inner markup; editing their children in schema order; colors, border
//! styles and alignments.
use vstd::prelude::*;
use crate::attrmap::{remove_key, sorted_insert, AttrMap, Entries};
use crate::elements::render_attrs_spec;
use crate::error::{CliError, CliResult, ErrorKind};
use crate::orders::{
    border_child_order, border_child_order_spec, font_child_order, font_child_order_spec,
    xf_child_order, xf_child_order_spec,
};
use crate::text::{
    ascii_upper, ascii_upper_seq, concat2, concat3, concat4, concat5, is_ascii_digit, str_chars,
    str_eq, string_from_chars, strip_all_prefix, to_string, trim, trim_chars,
};

verus! {

/// An element of the styles part: its name, attributes and inner markup.
#[derive(Debug)]
pub struct StyleElement {
    pub name: String,
    pub attrs: AttrMap,
    pub inner_xml: String,
}

pub type StyleView = (Seq<char>, Entries, Seq<char>);

pub open spec fn style_view(e: StyleElement) -> StyleView {
    (e.name@, e.attrs.view(), e.inner_xml@)
}

pub open spec fn styles_view(v: Seq<StyleElement>) -> Seq<StyleView> {
    Seq::new(v.len(), |i: int| style_view(v[i]))
}

impl StyleElement {
    pub fn clone_element(&self) -> (r: StyleElement)
        ensures
            style_view(r) == style_view(*self),
    {
        StyleElement {
            name: self.name.clone(),
            attrs: AttrMap { entries: crate::mutation::clone_entries(&self.attrs.entries) },
            inner_xml: self.inner_xml.clone(),
        }
    }
}

/// Which schema order a list of children follows.
#[derive(Clone, Copy, PartialEq, Eq, Structural, Debug)]
pub enum ChildOrder {
    Font,
    Border,
    Xf,
}

pub open spec fn child_order_spec(order: ChildOrder, name: Seq<char>) -> i32 {
    match order {
        ChildOrder::Font => font_child_order_spec(name),
        ChildOrder::Border => border_child_order_spec(name),
        ChildOrder::Xf => xf_child_order_spec(name),
    }
}

fn child_order(order: ChildOrder, name: &str) -> (r: i32)
    ensures
        r == child_order_spec(order, name@),
{
    match order {
        ChildOrder::Font => font_child_order(name),
        ChildOrder::Border => border_child_order(name),
        ChildOrder::Xf => xf_child_order(name),
    }
}

// ---------------------------------------------------------------------------
// Rendering
// ---------------------------------------------------------------------------

/// An element written out: empty-element when it has no inner markup.
pub open spec fn render_style_spec(name: Seq<char>, e: StyleView) -> Seq<char> {
    if e.2.len() == 0 {
        seq!['<'] + name + render_attrs_spec(e.1) + "/>"@
    } else {
        seq!['<'] + name + render_attrs_spec(e.1) + seq!['>'] + e.2 + "</"@ + name + seq!['>']
    }
}

/// `render_style_element`: an element written out under a name.
pub fn render_style_element(name: &str, element: &StyleElement) -> (r: String)
    ensures
        r@ == render_style_spec(name@, style_view(*element)),
{
    let attrs = crate::elements::render_xml_attrs(&element.attrs.entries);
    proof {
        reveal_strlit("<");
        reveal_strlit(">");
    }
    if element.inner_xml.unicode_len() == 0 {
        concat4("<", name, attrs.as_str(), "/>")
    } else {
        let head = concat4("<", name, attrs.as_str(), ">");
        let tail = concat3("</", name, ">");
        concat3(head.as_str(), element.inner_xml.as_str(), tail.as_str())
    }
}

/// Elements written out in order, each under its own name.
pub open spec fn render_children_spec(v: Seq<StyleView>) -> Seq<char>
    decreases v.len(),
{
    if v.len() == 0 {
        Seq::empty()
    } else {
        render_children_spec(v.drop_last()) + render_style_spec(v.last().0, v.last())
    }
}

/// `render_style_children`: the elements written out in order.
pub fn render_style_children(children: &Vec<StyleElement>) -> (r: String)
    ensures
        r@ == render_children_spec(styles_view(children@)),
{
    let ghost sv = styles_view(children@);
    let mut out = String::new();
    let mut i: usize = 0;
    proof {
        assert(out@ =~= render_children_spec(sv.subrange(0, 0)));
    }
    while i < children.len()
        invariant
            0 <= i <= children.len(),
            sv == styles_view(children@),
            out@ == render_children_spec(sv.subrange(0, i as int)),
        decreases children.len() - i,
    {
        let one = render_style_element(children[i].name.as_str(), &children[i]);
        out.append(one.as_str());
        proof {
            let pre = sv.subrange(0, i + 1);
            assert(pre.drop_last() =~= sv.subrange(0, i as int));
            assert(pre.last() == style_view(children@[i as int]));
        }
        i = i + 1;
    }
    proof {
        assert(sv.subrange(0, sv.len() as int) =~= sv);
    }
    out
}

// ---------------------------------------------------------------------------
// Editing children in schema order
// ---------------------------------------------------------------------------

/// The children without those named `name`.
pub open spec fn without_name(v: Seq<StyleView>, name: Seq<char>) -> Seq<StyleView>
    decreases v.len(),
{
    if v.len() == 0 {
        v
    } else if v.last().0 == name {
        without_name(v.drop_last(), name)
    } else {
        without_name(v.drop_last(), name).push(v.last())
    }
}

/// The index of the first child from `i` on that orders after `o`, or the length.
pub open spec fn first_after(v: Seq<StyleView>, order: ChildOrder, o: i32, i: int) -> int
    decreases v.len() - i,
{
    if i < 0 || i >= v.len() {
        v.len() as int
    } else if child_order_spec(order, v[i].0) > o {
        i
    } else {
        first_after(v, order, o, i + 1)
    }
}

/// The children with `child` in place of any child of its name, placed
/// before the first child the schema puts after it.
pub open spec fn set_child_spec(v: Seq<StyleView>, child: StyleView, order: ChildOrder) -> Seq<StyleView> {
    let w = without_name(v, child.0);
    let k = first_after(w, order, child_order_spec(order, child.0), 0);
    w.insert(k, child)
}

proof fn lemma_first_after(v: Seq<StyleView>, order: ChildOrder, o: i32, i: int)
    requires
        0 <= i <= v.len(),
    ensures
        i <= first_after(v, order, o, i) <= v.len(),
    decreases v.len() - i,
{
    if i < v.len() && !(child_order_spec(order, v[i].0) > o) {
        lemma_first_after(v, order, o, i + 1);
    }
}

fn retain_not_named(children: &mut Vec<StyleElement>, name: &str)
    ensures
        styles_view(final(children)@) == without_name(styles_view(old(children)@), name@),
{
    let ghost sv = styles_view(children@);
    let mut kept: Vec<StyleElement> = Vec::new();
    let mut i: usize = 0;
    proof {
        assert(styles_view(kept@) =~= without_name(sv.subrange(0, 0), name@));
    }
    while i < children.len()
        invariant
            0 <= i <= children.len(),
            sv == styles_view(children@),
            styles_view(kept@) == without_name(sv.subrange(0, i as int), name@),
        decreases children.len() - i,
    {
        let ghost pre = sv.subrange(0, i + 1);
        proof {
            assert(pre.drop_last() =~= sv.subrange(0, i as int));
            assert(pre.last() == style_view(children@[i as int]));
        }
        if !str_eq(children[i].name.as_str(), name) {
            let c = children[i].clone_element();
            let ghost before = styles_view(kept@);
            kept.push(c);
            proof {
                assert(styles_view(kept@) =~= before.push(pre.last()));
            }
        }
        i = i + 1;
    }
    proof {
        assert(sv.subrange(0, sv.len() as int) =~= sv);
    }
    *children = kept;
}

fn position_after(children: &Vec<StyleElement>, order: ChildOrder, o: i32) -> (r: usize)
    ensures
        r as int == first_after(styles_view(children@), order, o, 0),
{
    let ghost w = styles_view(children@);
    let mut i: usize = 0;
    while i < children.len()
        invariant
            0 <= i <= children.len(),
            w == styles_view(children@),
            first_after(w, order, o, i as int) == first_after(w, order, o, 0),
        decreases children.len() - i,
    {
        proof {
            assert(w[i as int] == style_view(children@[i as int]));
        }
        if child_order(order, children[i].name.as_str()) > o {
            return i;
        }
        i = i + 1;
    }
    i
}

/// `set_style_child`: puts a child in place of any of its name, in schema order.
pub fn set_style_child(children: &mut Vec<StyleElement>, child: StyleElement, order: ChildOrder)
    ensures
        styles_view(final(children)@) == set_child_spec(styles_view(old(children)@), style_view(child), order),
{
    retain_not_named(children, child.name.as_str());
    let ghost w = styles_view(children@);
    let child_order_value = child_order(order, child.name.as_str());
    let index = position_after(children, order, child_order_value);
    proof {
        lemma_first_after(w, order, child_order_value, 0);
    }
    let ghost cv = style_view(child);
    children.insert(index, child);
    proof {
        assert(styles_view(children@) =~= w.insert(index as int, cv));
    }
}

/// A child of that name with no attributes and no content.
pub open spec fn empty_child(name: Seq<char>) -> StyleView {
    (name, Seq::empty(), Seq::empty())
}

/// Whether some child has the name.
pub open spec fn has_child(v: Seq<StyleView>, name: Seq<char>) -> bool {
    exists|j: int| 0 <= j < v.len() && (#[trigger] v[j]).0 == name
}

/// The children with a flag element (`b`, `i`, ...) on or off.
pub open spec fn set_empty_child_spec(v: Seq<StyleView>, name: Seq<char>, enabled: bool, order: ChildOrder) -> Seq<StyleView> {
    if !enabled {
        without_name(v, name)
    } else if has_child(v, name) {
        v
    } else {
        set_child_spec(v, empty_child(name), order)
    }
}

pub(crate) fn new_element(name: &str, attrs: AttrMap, inner: &str) -> (r: StyleElement)
    ensures
        style_view(r) == (name@, attrs.view(), inner@),
{
    StyleElement { name: to_string(name), attrs, inner_xml: to_string(inner) }
}

fn has_named_child(children: &Vec<StyleElement>, name: &str) -> (r: bool)
    ensures
        r == has_child(styles_view(children@), name@),
{
    let ghost sv = styles_view(children@);
    let mut i: usize = 0;
    while i < children.len()
        invariant
            0 <= i <= children.len(),
            sv == styles_view(children@),
            forall|k: int| 0 <= k < i ==> (#[trigger] sv[k]).0 != name@,
        decreases children.len() - i,
    {
        proof {
            assert(sv[i as int] == style_view(children@[i as int]));
        }
        if str_eq(children[i].name.as_str(), name) {
            proof {
                assert(has_child(sv, name@));
            }
            return true;
        }
        i = i + 1;
    }
    false
}

/// `set_empty_style_child`: turns a flag element on (adding it in schema
/// order when missing) or off (removing every one).
pub fn set_empty_style_child(children: &mut Vec<StyleElement>, name: &str, enabled: bool, order: ChildOrder)
    ensures
        styles_view(final(children)@) == set_empty_child_spec(styles_view(old(children)@), name@, enabled, order),
{
    if !enabled {
        retain_not_named(children, name);
        return;
    }
    let ghost sv = styles_view(children@);
    if has_named_child(children, name) {
        return;
    }
    proof {
        reveal_strlit("");
        assert(!has_child(sv, name@));
    }
    let e = new_element(name, AttrMap::new(), "");
    proof {
        assert(style_view(e) == empty_child(name@));
    }
    set_style_child(children, e, order);
}

/// A child carrying one `val` attribute.
pub open spec fn val_child(name: Seq<char>, value: Seq<char>) -> StyleView {
    (name, sorted_insert(Seq::empty(), "val"@, value), Seq::empty())
}

/// `set_val_style_child`: sets a child with a `val` attribute.
pub fn set_val_style_child(children: &mut Vec<StyleElement>, name: &str, value: &str, order: ChildOrder)
    ensures
        styles_view(final(children)@) == set_child_spec(styles_view(old(children)@), val_child(name@, value@), order),
{
    let mut attrs = AttrMap::new();
    attrs.insert(to_string("val"), to_string(value));
    proof {
        reveal_strlit("");
    }
    let e = new_element(name, attrs, "");
    proof {
        assert(style_view(e) == val_child(name@, value@));
    }
    set_style_child(children, e, order);
}

/// The first child named `name`, or a bare one.
pub open spec fn child_or_new(v: Seq<StyleView>, name: Seq<char>) -> StyleView {
    if has_child(v, name) {
        v[first_named(v, name, 0)]
    } else {
        empty_child(name)
    }
}

/// The index of the first child from `i` on with the name, or -1.
pub open spec fn first_named(v: Seq<StyleView>, name: Seq<char>, i: int) -> int
    decreases v.len() - i,
{
    if i < 0 || i >= v.len() {
        -1
    } else if v[i].0 == name {
        i
    } else {
        first_named(v, name, i + 1)
    }
}

proof fn lemma_first_named(v: Seq<StyleView>, name: Seq<char>, i: int)
    requires
        0 <= i <= v.len(),
    ensures
        first_named(v, name, i) == -1 ==> forall|k: int| i <= k < v.len() ==> (#[trigger] v[k]).0 != name,
        first_named(v, name, i) != -1 ==> i <= first_named(v, name, i) < v.len() && v[first_named(v, name, i)].0 == name,
    decreases v.len() - i,
{
    if i < v.len() && v[i].0 != name {
        lemma_first_named(v, name, i + 1);
    }
}

fn find_child(children: &Vec<StyleElement>, name: &str) -> (r: StyleElement)
    ensures
        style_view(r) == child_or_new(styles_view(children@), name@),
{
    let ghost sv = styles_view(children@);
    let mut i: usize = 0;
    proof {
        lemma_first_named(sv, name@, 0);
    }
    while i < children.len()
        invariant
            0 <= i <= children.len(),
            sv == styles_view(children@),
            first_named(sv, name@, i as int) == first_named(sv, name@, 0),
        decreases children.len() - i,
    {
        proof {
            assert(sv[i as int] == style_view(children@[i as int]));
        }
        if str_eq(children[i].name.as_str(), name) {
            proof {
                assert(has_child(sv, name@));
            }
            return children[i].clone_element();
        }
        i = i + 1;
    }
    proof {
        reveal_strlit("");
        if has_child(sv, name@) {
            let j = choose|j: int| 0 <= j < sv.len() && (#[trigger] sv[j]).0 == name@;
            lemma_first_named(sv, name@, 0);
        }
    }
    new_element(name, AttrMap::new(), "")
}

/// A border edge with its style set (dropped for `none` or empty) and its
/// color written inside.
pub open spec fn border_edge_spec(v: Seq<StyleView>, name: Seq<char>, style: Seq<char>, color: Option<Seq<char>>) -> Seq<StyleView> {
    let e = child_or_new(v, name);
    let edge = if style.len() == 0 || style == "none"@ {
        (e.0, remove_key(e.1, "style"@), Seq::empty())
    } else {
        (e.0, sorted_insert(e.1, "style"@, style), match color {
            Some(c) => "<color rgb=\""@ + c + "\"/>"@,
            None => Seq::empty(),
        })
    };
    set_child_spec(v, edge, ChildOrder::Border)
}

/// `set_xlsx_border_edge`: sets one edge of a border.
pub fn set_xlsx_border_edge(children: &mut Vec<StyleElement>, name: &str, style: &str, color: Option<&str>)
    ensures
        styles_view(final(children)@) == border_edge_spec(styles_view(old(children)@), name@, style@, crate::mutation::opt_view(color)),
{
    let mut edge = find_child(children, name);
    edge.inner_xml = String::new();
    proof {
        reveal_strlit("none");
    }
    if style.unicode_len() == 0 || str_eq(style, "none") {
        edge.attrs.remove("style");
    } else {
        edge.attrs.insert(to_string("style"), to_string(style));
        match color {
            Some(c) => {
                edge.inner_xml = concat3("<color rgb=\"", c, "\"/>");
            },
            None => {},
        }
    }
    proof {
        assert(edge.inner_xml@ =~= (if style@.len() == 0 || style@ == "none"@ {
            Seq::<char>::empty()
        } else {
            match crate::mutation::opt_view(color) {
                Some(c) => "<color rgb=\""@ + c + "\"/>"@,
                None => Seq::<char>::empty(),
            }
        }));
    }
    set_style_child(children, edge, ChildOrder::Border);
}

// ---------------------------------------------------------------------------
// Records
// ---------------------------------------------------------------------------

/// The `xf` record every styles part starts with.
pub open spec fn default_xf_spec() -> StyleView {
    (
        "xf"@,
        sorted_insert(
            sorted_insert(
                sorted_insert(sorted_insert(sorted_insert(Seq::empty(), "numFmtId"@, "0"@), "fontId"@, "0"@), "fillId"@, "0"@),
                "borderId"@,
                "0"@,
            ),
            "xfId"@,
            "0"@,
        ),
        Seq::empty(),
    )
}

/// `default_xlsx_xf_entry`: the default cell format record.
pub fn default_xlsx_xf_entry() -> (r: StyleElement)
    ensures
        style_view(r) == default_xf_spec(),
{
    let mut attrs = AttrMap::new();
    attrs.insert(to_string("numFmtId"), to_string("0"));
    attrs.insert(to_string("fontId"), to_string("0"));
    attrs.insert(to_string("fillId"), to_string("0"));
    attrs.insert(to_string("borderId"), to_string("0"));
    attrs.insert(to_string("xfId"), to_string("0"));
    proof {
        reveal_strlit("");
    }
    new_element("xf", attrs, "")
}

/// An attribute read as a `u32`, 0 when absent or not a number.
pub open spec fn attr_u32_spec(attrs: Entries, key: Seq<char>) -> u32 {
    match crate::attrmap::map_get(attrs, key) {
        Some(v) => match crate::text::parse_u32_spec(v) {
            Some(n) => n,
            None => 0,
        },
        None => 0,
    }
}

/// `style_attr_u32`: a numeric attribute of a record.
pub fn style_attr_u32(element: &StyleElement, key: &str) -> (r: u32)
    ensures
        r == attr_u32_spec(element.attrs.view(), key@),
{
    match element.attrs.get(key) {
        Some(v) => match crate::text::parse_u32(v.as_str()) {
            Some(n) => n,
            None => 0,
        },
        None => 0,
    }
}

// ---------------------------------------------------------------------------
// Values
// ---------------------------------------------------------------------------

pub open spec fn is_hex_digit(c: char) -> bool {
    is_ascii_digit(c) || (97 <= (c as u32) && (c as u32) <= 102) || (65 <= (c as u32) && (c as u32) <= 70)
}

/// A color as `AARRGGBB`: `#` marks dropped, upper-cased, `FF` alpha added to
/// six digits.
pub open spec fn color_spec(value: Seq<char>) -> Option<Seq<char>> {
    let n = ascii_upper_seq(strip_all_prefix(trim(value), seq!['#']));
    if exists|i: int| 0 <= i < n.len() && !is_hex_digit(#[trigger] n[i]) {
        None
    } else if n.len() == 6 {
        Some("FF"@ + n)
    } else if n.len() == 8 {
        Some(n)
    } else {
        None
    }
}

/// The message a color that [`color_spec`] refuses is refused with.
pub open spec fn color_error(value: Seq<char>) -> Seq<char> {
    let n = ascii_upper_seq(strip_all_prefix(trim(value), seq!['#']));
    if exists|i: int| 0 <= i < n.len() && !is_hex_digit(#[trigger] n[i]) {
        "invalid color "@ + crate::text::str_debug_text(value) + " (use hex like #1A2B3C)"@
    } else {
        "invalid color "@ + crate::text::str_debug_text(value) + " (expected 6 or 8 hex digits)"@
    }
}

/// `normalize_xlsx_style_color`: a hex color as eight upper-case digits.
pub fn normalize_xlsx_style_color(value: &str) -> (r: CliResult<String>)
    ensures
        r is Ok <==> color_spec(value@) is Some,
        r is Ok ==> r->Ok_0@ == color_spec(value@).unwrap(),
        r is Err ==> r->Err_0.kind == ErrorKind::InvalidArgs,
        r is Err ==> r->Err_0.message@ == color_error(value@),
{
    let t = trim_chars(value);
    let mut hash: Vec<char> = Vec::new();
    hash.push('#');
    proof {
        assert(hash@ =~= seq!['#']);
    }
    let s = crate::text::vec_strip_all_prefix(&t, &hash);
    proof {
        assert(s@ == strip_all_prefix(trim(value@), seq!['#']));
    }
    let mut n: Vec<char> = Vec::new();
    let mut i: usize = 0;
    while i < s.len()
        invariant
            0 <= i <= s.len(),
            s@ == strip_all_prefix(trim(value@), seq!['#']),
            n@ == ascii_upper_seq(s@.subrange(0, i as int)),
            forall|k: int| 0 <= k < i ==> is_hex_digit(#[trigger] n@[k]),
        decreases s.len() - i,
    {
        let c = crate::text::char_to_ascii_upper(s[i]);
        let u = c as u32;
        let ok = (48 <= u && u <= 57) || (97 <= u && u <= 102) || (65 <= u && u <= 70);
        if !ok {
            proof {
                let full = ascii_upper_seq(s@);
                assert(full[i as int] == c);
                assert(!is_hex_digit(full[i as int]));
                assert(exists|j: int| 0 <= j < full.len() && !is_hex_digit(#[trigger] full[j]));
            }
            let q = crate::text::debug_quoted(value);
            return Err(CliError::invalid_args(concat3("invalid color ", q.as_str(), " (use hex like #1A2B3C)")));
        }
        n.push(c);
        proof {
            assert(n@ =~= ascii_upper_seq(s@.subrange(0, i + 1)));
        }
        i = i + 1;
    }
    proof {
        assert(s@.subrange(0, s@.len() as int) =~= s@);
        reveal_strlit("FF");
    }
    if n.len() == 6 {
        let body = string_from_chars(n.as_slice());
        Ok(concat2("FF", body.as_str()))
    } else if n.len() == 8 {
        Ok(string_from_chars(n.as_slice()))
    } else {
        let q = crate::text::debug_quoted(value);
        Err(CliError::invalid_args(concat3("invalid color ", q.as_str(), " (expected 6 or 8 hex digits)")))
    }
}

/// The border styles the schema knows.
pub open spec fn border_style_spec(v: Seq<char>) -> bool {
    v == "thin"@ || v == "medium"@ || v == "thick"@ || v == "double"@ || v == "dotted"@ || v == "dashed"@
        || v == "hair"@ || v == "dashDot"@ || v == "dashDotDot"@ || v == "mediumDashed"@ || v == "none"@
}

/// `valid_xlsx_border_style`.
pub fn valid_xlsx_border_style(value: &str) -> (r: bool)
    ensures
        r == border_style_spec(value@),
{
    str_eq(value, "thin") || str_eq(value, "medium") || str_eq(value, "thick") || str_eq(value, "double")
        || str_eq(value, "dotted") || str_eq(value, "dashed") || str_eq(value, "hair") || str_eq(value, "dashDot")
        || str_eq(value, "dashDotDot") || str_eq(value, "mediumDashed") || str_eq(value, "none")
}

/// The horizontal alignments the schema knows.
pub open spec fn horizontal_spec(v: Seq<char>) -> bool {
    v == "left"@ || v == "center"@ || v == "right"@ || v == "fill"@ || v == "justify"@ || v == "centerContinuous"@
        || v == "distributed"@ || v == "general"@
}

/// `valid_xlsx_horizontal_alignment`.
pub fn valid_xlsx_horizontal_alignment(value: &str) -> (r: bool)
    ensures
        r == horizontal_spec(value@),
{
    str_eq(value, "left") || str_eq(value, "center") || str_eq(value, "right") || str_eq(value, "fill")
        || str_eq(value, "justify") || str_eq(value, "centerContinuous") || str_eq(value, "distributed")
        || str_eq(value, "general")
}

/// The vertical alignments the schema knows.
pub open spec fn vertical_spec(v: Seq<char>) -> bool {
    v == "top"@ || v == "center"@ || v == "bottom"@ || v == "justify"@ || v == "distributed"@
}

/// `valid_xlsx_vertical_alignment`.
pub fn valid_xlsx_vertical_alignment(value: &str) -> (r: bool)
    ensures
        r == vertical_spec(value@),
{
    str_eq(value, "top") || str_eq(value, "center") || str_eq(value, "bottom") || str_eq(value, "justify")
        || str_eq(value, "distributed")
}


// ---------------------------------------------------------------------------
// Reading records
// ---------------------------------------------------------------------------

/// The index of the end tag that closes an element named `name` opened
/// before `j`, at `depth` (every start and end tag counts), or -1.
pub open spec fn style_close(toks: Seq<crate::xml::CharToken>, name: Seq<char>, j: int, depth: nat) -> int
    decreases toks.len() - j,
{
    if j < 0 || j >= toks.len() {
        -1
    } else if toks[j].kind == crate::xml::XmlTokenKind::Start {
        style_close(toks, name, j + 1, depth + 1)
    } else if toks[j].kind == crate::xml::XmlTokenKind::End {
        let d = if depth == 0 {
            0nat
        } else {
            (depth - 1) as nat
        };
        if d == 0 && crate::xml::local_name_of(toks[j].name@) == name {
            j
        } else {
            style_close(toks, name, j + 1, d)
        }
    } else {
        style_close(toks, name, j + 1, depth)
    }
}

pub proof fn lemma_style_close(toks: Seq<crate::xml::CharToken>, name: Seq<char>, j: int, depth: nat)
    requires
        0 <= j <= toks.len(),
    ensures
        style_close(toks, name, j, depth) == -1 || (j <= style_close(toks, name, j, depth) < toks.len()),
    decreases toks.len() - j,
{
    if j < toks.len() {
        if toks[j].kind == crate::xml::XmlTokenKind::Start {
            lemma_style_close(toks, name, j + 1, depth + 1);
        } else if toks[j].kind == crate::xml::XmlTokenKind::End {
            let d = if depth == 0 {
                0nat
            } else {
                (depth - 1) as nat
            };
            if !(d == 0 && crate::xml::local_name_of(toks[j].name@) == name) {
                lemma_style_close(toks, name, j + 1, d);
            }
        } else {
            lemma_style_close(toks, name, j + 1, depth);
        }
    }
}

/// The attributes of the tag a token spans, as a map.
pub open spec fn tag_attrs_spec(xml: Seq<char>, t: crate::xml::CharToken) -> Entries {
    crate::attrmap::map_from_pairs(crate::xml::quick_xml_tag_attributes(xml.subrange(t.start as int, t.end as int)))
}

/// The records among the tokens from `i` on: with `only`, just the elements
/// of that name (under that name); else every element at the top.
pub open spec fn records_from(xml: Seq<char>, toks: Seq<crate::xml::CharToken>, failed: bool, only: Option<Seq<char>>, i: int) -> Result<Seq<StyleView>, ()>
    decreases toks.len() - i,
{
    if i < 0 || i >= toks.len() {
        if failed {
            Err(())
        } else {
            Ok(Seq::empty())
        }
    } else {
        let t = toks[i];
        let ln = crate::xml::local_name_of(t.name@);
        let wanted = match only {
            Some(n) => ln == n,
            None => true,
        };
        if t.kind == crate::xml::XmlTokenKind::Start && wanted {
            let j = style_close(toks, ln, i + 1, 1);
            if j == -1 {
                Err(())
            } else {
                proof {
                    lemma_style_close(toks, ln, i + 1, 1);
                }
                match records_from(xml, toks, failed, only, j + 1) {
                    Err(_) => Err(()),
                    Ok(rest) => Ok(seq![(ln, tag_attrs_spec(xml, t), xml.subrange(t.end as int, toks[j].start as int))] + rest),
                }
            }
        } else if t.kind == crate::xml::XmlTokenKind::Empty && wanted {
            match records_from(xml, toks, failed, only, i + 1) {
                Err(_) => Err(()),
                Ok(rest) => Ok(seq![(ln, tag_attrs_spec(xml, t), Seq::empty())] + rest),
            }
        } else {
            records_from(xml, toks, failed, only, i + 1)
        }
    }
}

/// The records of a fragment, or `Err` when it cannot be read.
pub open spec fn records_spec(xml: Seq<char>, only: Option<Seq<char>>) -> Result<Seq<StyleView>, ()> {
    match crate::xml::char_tokens_spec(xml) {
        None => Err(()),
        Some(p) => records_from(xml, p.0, p.1, only, 0),
    }
}

fn read_records(xml: &str, only: Option<&str>) -> (r: CliResult<Vec<StyleElement>>)
    ensures
        r is Ok <==> records_spec(xml@, crate::mutation::opt_view(only)) is Ok,
        r is Ok ==> styles_view(r->Ok_0@) == records_spec(xml@, crate::mutation::opt_view(only))->Ok_0,
        r is Err ==> r->Err_0.kind == ErrorKind::Unexpected,
{
    let (toks, failed) = crate::xml::char_tokens(xml)?;
    let chars = str_chars(xml);
    let ghost ov = crate::mutation::opt_view(only);
    let mut out: Vec<StyleElement> = Vec::new();
    let mut i: usize = 0;
    proof {
        match records_from(xml@, toks@, failed, ov, 0) {
            Ok(rest) => {
                assert(styles_view(out@) + rest =~= rest);
            },
            Err(_) => {},
        }
    }
    while i < toks.len()
        invariant
            0 <= i <= toks.len(),
            crate::xml::char_tokens_spec(xml@) == Some((toks@, failed)),
            crate::xml::tokens_well_formed(toks@, xml@.len() as int),
            chars@ == xml@,
            ov == crate::mutation::opt_view(only),
            records_from(xml@, toks@, failed, ov, i as int) is Ok ==> records_spec(xml@, ov) == Ok::<Seq<StyleView>, ()>(
                styles_view(out@) + records_from(xml@, toks@, failed, ov, i as int)->Ok_0),
            records_from(xml@, toks@, failed, ov, i as int) is Err ==> records_spec(xml@, ov) is Err,
        decreases toks.len() - i,
    {
        let t = &toks[i];
        let ln = crate::xml::local_name(t.name.as_str());
        let wanted = match only {
            Some(n) => str_eq(ln.as_str(), n),
            None => true,
        };
        let ghost before = styles_view(out@);
        if t.kind == crate::xml::XmlTokenKind::Start && wanted {
            let found = find_style_close(&toks, ln.as_str(), i + 1);
            let close = match found {
                Some(c) => c,
                None => {
                    return Err(CliError::unexpected(to_string("style element has no closing tag")));
                },
            };
            proof {
                assert(style_close(toks@, ln@, i + 1, 1) == close);
                crate::styles::lemma_tokens_monotone(toks@, xml@.len() as int, i as int, close as int);
                assert(toks@[i as int].start <= toks@[i as int].end);
                if i + 1 <= close - 1 {
                    crate::styles::lemma_tokens_monotone(toks@, xml@.len() as int, i + 1, close as int);
                    assert(toks@[i as int].end == toks@[i + 1].start);
                } else {
                    assert(toks@[i as int].end == toks@[close as int].start);
                }
            }
            let tagv = slice_vec_chars(&chars, t.start, t.end);
            let tag = string_from_chars(tagv.as_slice());
            let pairs = crate::xml::tag_attributes(tag.as_str());
            let attrs = AttrMap::from_pairs(&pairs);
            let innerv = slice_vec_chars(&chars, t.end, toks[close].start);
            let inner = string_from_chars(innerv.as_slice());
            let ghost ev = (ln@, attrs.view(), inner@);
            out.push(StyleElement { name: ln, attrs, inner_xml: inner });
            proof {
                assert(styles_view(out@) =~= before + seq![ev]);
                match records_from(xml@, toks@, failed, ov, close + 1) {
                    Ok(rest) => {
                        assert(before + (seq![ev] + rest) =~= (before + seq![ev]) + rest);
                    },
                    Err(_) => {},
                }
            }
            i = close + 1;
        } else {
            if t.kind == crate::xml::XmlTokenKind::Empty && wanted {
                let tagv = slice_vec_chars(&chars, t.start, t.end);
                let tag = string_from_chars(tagv.as_slice());
                let pairs = crate::xml::tag_attributes(tag.as_str());
                let attrs = AttrMap::from_pairs(&pairs);
                let ghost ev = (ln@, attrs.view(), Seq::<char>::empty());
                out.push(StyleElement { name: ln, attrs, inner_xml: String::new() });
                proof {
                    assert(styles_view(out@) =~= before + seq![ev]);
                    match records_from(xml@, toks@, failed, ov, i + 1) {
                        Ok(rest) => {
                            assert(before + (seq![ev] + rest) =~= (before + seq![ev]) + rest);
                        },
                        Err(_) => {},
                    }
                }
            }
            i = i + 1;
        }
    }
    if failed {
        return Err(CliError::unexpected(to_string("invalid XML")));
    }
    proof {
        assert(styles_view(out@) + Seq::<StyleView>::empty() =~= styles_view(out@));
    }
    Ok(out)
}

fn find_style_close(toks: &Vec<crate::xml::CharToken>, name: &str, from: usize) -> (r: Option<usize>)
    requires
        1 <= from <= toks.len(),
    ensures
        r is Some ==> r.unwrap() as int == style_close(toks@, name@, from as int, 1) && from <= r.unwrap() < toks.len(),
        r is None ==> style_close(toks@, name@, from as int, 1) == -1,
{
    let mut depth: usize = 1;
    let mut j: usize = from;
    while j < toks.len()
        invariant
            from <= j <= toks.len(),
            depth <= j - from + 1,
            1 <= from,
            style_close(toks@, name@, j as int, depth as nat) == style_close(toks@, name@, from as int, 1),
        decreases toks.len() - j,
    {
        let u = &toks[j];
        if u.kind == crate::xml::XmlTokenKind::Start {
            depth = depth + 1;
        } else if u.kind == crate::xml::XmlTokenKind::End {
            if depth > 0 {
                depth = depth - 1;
            }
            let un = crate::xml::local_name(u.name.as_str());
            if depth == 0 && str_eq(un.as_str(), name) {
                return Some(j);
            }
        }
        j = j + 1;
    }
    None
}

fn slice_vec_chars(v: &Vec<char>, a: usize, b: usize) -> (r: Vec<char>)
    requires
        a <= b <= v.len(),
    ensures
        r@ == v@.subrange(a as int, b as int),
{
    crate::text::slice_vec(v, a, b)
}

/// `direct_style_children`: the elements at the top of a fragment.
pub fn direct_style_children(xml: &str) -> (r: CliResult<Vec<StyleElement>>)
    ensures
        r is Ok <==> records_spec(xml@, None) is Ok,
        r is Ok ==> styles_view(r->Ok_0@) == records_spec(xml@, None)->Ok_0,
        r is Err ==> r->Err_0.kind == ErrorKind::Unexpected,
{
    read_records(xml, None)
}

/// The records of a collection: the `child` elements inside the first
/// `parent` (none when it is missing or empty).
pub open spec fn collection_spec(xml: Seq<char>, parent: Seq<char>, child: Seq<char>) -> Result<Seq<StyleView>, ()> {
    match crate::styles::element_span_spec(xml, parent) {
        None => Ok(Seq::empty()),
        Some(sp) => if sp.2 < sp.1 {
            Ok(Seq::empty())
        } else {
            records_spec(xml.subrange(sp.1, sp.2), Some(child))
        },
    }
}

/// `collection_entries`: the records of a collection of the styles part.
pub fn collection_entries(xml: &str, parent: &str, child: &str) -> (r: CliResult<Vec<StyleElement>>)
    ensures
        r is Ok <==> collection_spec(xml@, parent@, child@) is Ok,
        r is Ok ==> styles_view(r->Ok_0@) == collection_spec(xml@, parent@, child@)->Ok_0,
        r is Err ==> r->Err_0.kind == ErrorKind::Unexpected,
{
    let span = match crate::styles::element_span_by_local_name(xml, parent) {
        None => {
            let v: Vec<StyleElement> = Vec::new();
            proof {
                assert(styles_view(v@) =~= Seq::<StyleView>::empty());
            }
            return Ok(v);
        },
        Some(s) => s,
    };
    if span.close_start < span.open_end {
        let v: Vec<StyleElement> = Vec::new();
        proof {
            assert(styles_view(v@) =~= Seq::<StyleView>::empty());
        }
        return Ok(v);
    }
    let chars = str_chars(xml);
    let fv = slice_vec_chars(&chars, span.open_end, span.close_start);
    let fragment = string_from_chars(fv.as_slice());
    read_records(fragment.as_str(), Some(child))
}


// ---------------------------------------------------------------------------
// Writing into collections
// ---------------------------------------------------------------------------

/// Where a tag name ends: at white space, `/` or `>`.
pub open spec fn tag_name_end(s: Seq<char>, k: int) -> int
    decreases s.len() - k,
{
    if k < 0 || k >= s.len() {
        s.len() as int
    } else if crate::text::is_white_space(s[k]) || s[k] == '/' || s[k] == '>' {
        k
    } else {
        tag_name_end(s, k + 1)
    }
}

/// The qualified name of the first tag in a text.
pub open spec fn qualified_tag_spec(open: Seq<char>) -> Option<Seq<char>> {
    let lt = crate::text::find_from(open, '<', 0);
    if lt == -1 {
        None
    } else {
        let rest = open.subrange(lt + 1, open.len() as int);
        let ne = tag_name_end(rest, 0);
        if ne == 0 {
            None
        } else {
            Some(rest.subrange(0, ne))
        }
    }
}

/// `qualified_tag_name`: the qualified name of a start tag.
pub fn qualified_tag_name(open_tag: &str) -> (r: Option<String>)
    ensures
        r is Some <==> qualified_tag_spec(open_tag@) is Some,
        r is Some ==> r.unwrap()@ == qualified_tag_spec(open_tag@).unwrap(),
{
    let v = str_chars(open_tag);
    proof {
        crate::text::lemma_find_from(v@, '<', 0);
    }
    let lt = match crate::text::vec_find_char(&v, '<', 0) {
        None => {
            return None;
        },
        Some(k) => k,
    };
    let rest = slice_vec_chars(&v, lt + 1, v.len());
    let mut k: usize = 0;
    while k < rest.len() && !(crate::text::char_is_white_space(rest[k]) || rest[k] == '/' || rest[k] == '>')
        invariant
            0 <= k <= rest.len(),
            tag_name_end(rest@, k as int) == tag_name_end(rest@, 0),
        decreases rest.len() - k,
    {
        k = k + 1;
    }
    if k == 0 {
        return None;
    }
    let name = slice_vec_chars(&rest, 0, k);
    Some(string_from_chars(name.as_slice()))
}

/// The styles part with a record appended to a collection (an empty-element
/// collection gets an end tag).
pub open spec fn append_child_spec(xml: Seq<char>, parent: Seq<char>, child: Seq<char>) -> Result<Seq<char>, ()> {
    match crate::styles::element_span_spec(xml, parent) {
        None => Err(()),
        Some(sp) => if sp.2 < sp.1 {
            let open = xml.subrange(sp.0, sp.1);
            let tag = match qualified_tag_spec(open) {
                Some(t) => t,
                None => parent,
            };
            let t = crate::text::trim_end(open);
            let open2 = if crate::text::has_suffix(t, "/>"@) {
                crate::text::trim_end(t.subrange(0, t.len() - 2)) + seq!['>']
            } else {
                open
            };
            Ok(splice_text(xml, sp.0, sp.1, open2 + child + "</"@ + tag + seq!['>']))
        } else {
            Ok(splice_text(xml, sp.2, sp.2, child))
        },
    }
}

pub open spec fn splice_text(xml: Seq<char>, a: int, b: int, r: Seq<char>) -> Seq<char> {
    crate::xml::splice(xml, a, b, r)
}

/// `append_collection_child`: a record appended to a collection.
pub fn append_collection_child(xml: String, parent: &str, child_xml: &str) -> (r: CliResult<String>)
    ensures
        r is Ok <==> append_child_spec(xml@, parent@, child_xml@) is Ok,
        r is Ok ==> r->Ok_0@ == append_child_spec(xml@, parent@, child_xml@)->Ok_0,
        r is Err ==> r->Err_0.kind == ErrorKind::Unexpected,
{
    let span = match crate::styles::element_span_by_local_name(xml.as_str(), parent) {
        None => {
            return Err(CliError::unexpected(concat3("styles ", parent, " not found")));
        },
        Some(s) => s,
    };
    if span.close_start < span.open_end {
        let v = str_chars(xml.as_str());
        let openv = slice_vec_chars(&v, span.start, span.open_end);
        let open = string_from_chars(openv.as_slice());
        let tag = match qualified_tag_name(open.as_str()) {
            Some(t) => t,
            None => to_string(parent),
        };
        let n = crate::text::trim_end_len(&openv);
        let t = slice_vec_chars(&openv, 0, n);
        let suffix = str_chars("/>");
        proof {
            reveal_strlit("/>");
            reveal_strlit("</");
            reveal_strlit(">");
        }
        let open2 = if crate::text::vec_ends_with(&t, &suffix) {
            let u = slice_vec_chars(&t, 0, t.len() - 2);
            let m = crate::text::trim_end_len(&u);
            let w = slice_vec_chars(&u, 0, m);
            let ws = string_from_chars(w.as_slice());
            concat2(ws.as_str(), ">")
        } else {
            open
        };
        let replacement = concat5(open2.as_str(), child_xml, "</", tag.as_str(), ">");
        return Ok(crate::xml::replace_xml_span(xml.as_str(), span.start, span.open_end, replacement.as_str()));
    }
    Ok(crate::xml::insert_text(xml.as_str(), span.close_start, child_xml))
}

// ---------------------------------------------------------------------------
// Alignment
// ---------------------------------------------------------------------------

/// The alignment a style command asks for.
#[derive(Debug)]
pub struct AlignmentStyleSpec {
    pub horizontal: Option<String>,
    pub vertical: Option<String>,
    pub wrap_text: Option<bool>,
}

pub open spec fn opt_string_view(o: Option<String>) -> Option<Seq<char>> {
    match o {
        Some(s) => Some(s@),
        None => None,
    }
}

/// The `alignment` attributes with the asked changes.
pub open spec fn alignment_attrs(a: Entries, horizontal: Option<Seq<char>>, vertical: Option<Seq<char>>, wrap: Option<bool>) -> Entries {
    let a1 = match horizontal {
        Some(h) => sorted_insert(a, "horizontal"@, h),
        None => a,
    };
    let a2 = match vertical {
        Some(v) => sorted_insert(a1, "vertical"@, v),
        None => a1,
    };
    match wrap {
        Some(true) => sorted_insert(a2, "wrapText"@, "1"@),
        Some(false) => remove_key(a2, "wrapText"@),
        None => a2,
    }
}

/// The inner markup of a cell format with its alignment changed.
pub open spec fn aligned_inner(inner: Seq<char>, horizontal: Option<Seq<char>>, vertical: Option<Seq<char>>, wrap: Option<bool>) -> Seq<char> {
    let children = match records_spec(inner, None) {
        Ok(c) => c,
        Err(_) => Seq::empty(),
    };
    let al = child_or_new(children, "alignment"@);
    let al2 = (al.0, alignment_attrs(al.1, horizontal, vertical, wrap), al.2);
    render_children_spec(set_child_spec(children, al2, ChildOrder::Xf))
}

/// `apply_xlsx_style_alignment`: a cell format with its alignment changed.
pub fn apply_xlsx_style_alignment(xf: &mut StyleElement, spec: &AlignmentStyleSpec)
    ensures
        final(xf).name@ == old(xf).name@,
        final(xf).attrs.view() == old(xf).attrs.view(),
        final(xf).inner_xml@ == aligned_inner(old(xf).inner_xml@, opt_string_view(spec.horizontal), opt_string_view(spec.vertical), spec.wrap_text),
{
    let mut children = match direct_style_children(xf.inner_xml.as_str()) {
        Ok(c) => c,
        Err(_) => {
            let v: Vec<StyleElement> = Vec::new();
            proof {
                assert(styles_view(v@) =~= Seq::<StyleView>::empty());
            }
            v
        },
    };
    let mut alignment = find_child(&children, "alignment");
    match &spec.horizontal {
        Some(h) => {
            alignment.attrs.insert(to_string("horizontal"), h.clone());
        },
        None => {},
    }
    match &spec.vertical {
        Some(v) => {
            alignment.attrs.insert(to_string("vertical"), v.clone());
        },
        None => {},
    }
    match spec.wrap_text {
        Some(true) => {
            alignment.attrs.insert(to_string("wrapText"), to_string("1"));
        },
        Some(false) => {
            alignment.attrs.remove("wrapText");
        },
        None => {},
    }
    set_style_child(&mut children, alignment, ChildOrder::Xf);
    xf.inner_xml = render_style_children(&children);
}


// ---------------------------------------------------------------------------
// Fills and borders
// ---------------------------------------------------------------------------

/// The fill a style command asks for.
#[derive(Debug)]
pub struct FillStyleSpec {
    pub color: String,
}

/// The border a style command asks for: a style, a color, and which edges.
#[derive(Debug)]
pub struct BorderStyleSpec {
    pub style: String,
    pub color: Option<String>,
    pub top: bool,
    pub bottom: bool,
    pub left: bool,
    pub right: bool,
}

/// The index of the first record from `i` on that writes out as `sig`, or -1.
pub open spec fn first_sig(v: Seq<StyleView>, name: Seq<char>, sig: Seq<char>, i: int) -> int
    decreases v.len() - i,
{
    if i < 0 || i >= v.len() {
        -1
    } else if render_style_spec(name, v[i]) == sig {
        i
    } else {
        first_sig(v, name, sig, i + 1)
    }
}

pub(crate) fn find_sig(v: &Vec<StyleElement>, name: &str, sig: &str) -> (r: Option<usize>)
    ensures
        r is Some ==> r.unwrap() < v.len() && r.unwrap() as int == first_sig(styles_view(v@), name@, sig@, 0),
        r is None ==> first_sig(styles_view(v@), name@, sig@, 0) == -1,
{
    let ghost sv = styles_view(v@);
    let mut i: usize = 0;
    while i < v.len()
        invariant
            0 <= i <= v.len(),
            sv == styles_view(v@),
            first_sig(sv, name@, sig@, i as int) == first_sig(sv, name@, sig@, 0),
        decreases v.len() - i,
    {
        proof {
            assert(sv[i as int] == style_view(v@[i as int]));
        }
        let r = render_style_element(name, &v[i]);
        if str_eq(r.as_str(), sig) {
            return Some(i);
        }
        i = i + 1;
    }
    None
}

/// What ensuring a record does before the collection's count is set: the
/// index of an equal record, or the text with the record appended and the
/// index it gets.
pub enum RecordPlan {
    Found(u32),
    Appended(String, u32),
}

/// The markup inside a solid fill of a color.
pub open spec fn solid_fill_inner(rgb: Seq<char>) -> Seq<char> {
    "<patternFill patternType=\"solid\"><fgColor rgb=\""@ + rgb + "\"/><bgColor indexed=\"64\"/></patternFill>"@
}

/// The plan for a fill: `Ok(Ok(index))` for an equal fill, `Ok(Err((text,
/// index)))` after appending one, or the kind of the error.
pub open spec fn fill_plan_spec(xml: Seq<char>, color: Seq<char>) -> Result<Result<u32, (Seq<char>, u32)>, ErrorKind> {
    match collection_spec(xml, "fills"@, "fill"@) {
        Err(_) => Err(ErrorKind::Unexpected),
        Ok(fills) => match color_spec(color) {
            None => Err(ErrorKind::InvalidArgs),
            Some(rgb) => {
                let sig = render_style_spec("fill"@, ("fill"@, Seq::empty(), solid_fill_inner(rgb)));
                let k = first_sig(fills, "fill"@, sig, 0);
                if k != -1 {
                    Ok(Ok(k as u32))
                } else {
                    match append_child_spec(xml, "fills"@, sig) {
                        Err(_) => Err(ErrorKind::Unexpected),
                        Ok(x2) => Ok(Err((x2, fills.len() as u32))),
                    }
                }
            },
        },
    }
}

pub open spec fn plan_view(p: RecordPlan) -> Result<u32, (Seq<char>, u32)> {
    match p {
        RecordPlan::Found(k) => Ok(k),
        RecordPlan::Appended(x, n) => Err((x@, n)),
    }
}

fn plan_fill(styles_xml: &str, spec: &FillStyleSpec) -> (r: CliResult<RecordPlan>)
    ensures
        r is Ok <==> fill_plan_spec(styles_xml@, spec.color@) is Ok,
        r is Ok ==> plan_view(r->Ok_0) == fill_plan_spec(styles_xml@, spec.color@)->Ok_0,
        r is Err ==> fill_plan_spec(styles_xml@, spec.color@) == Err::<Result<u32, (Seq<char>, u32)>, ErrorKind>(r->Err_0.kind),
{
    let fills = collection_entries(styles_xml, "fills", "fill")?;
    let rgb = normalize_xlsx_style_color(spec.color.as_str())?;
    let inner = concat3("<patternFill patternType=\"solid\"><fgColor rgb=\"", rgb.as_str(), "\"/><bgColor indexed=\"64\"/></patternFill>");
    proof {
        reveal_strlit("");
    }
    let candidate = new_element("fill", AttrMap::new(), inner.as_str());
    let sig = render_style_element("fill", &candidate);
    match find_sig(&fills, "fill", sig.as_str()) {
        Some(k) => Ok(RecordPlan::Found(k as u32)),
        None => {
            let x2 = append_collection_child(to_string(styles_xml), "fills", sig.as_str())?;
            Ok(RecordPlan::Appended(x2, fills.len() as u32))
        },
    }
}

/// What ensuring a fill does: the styles text and the fill's index.
pub open spec fn fill_spec(xml: Seq<char>, color: Seq<char>) -> Result<(Seq<char>, u32), ErrorKind> {
    match fill_plan_spec(xml, color) {
        Err(e) => Err(e),
        Ok(Ok(k)) => Ok((xml, k)),
        Ok(Err(p)) => Ok((crate::styles::set_count_spec(p.0, "fills"@, "fill"@), p.1)),
    }
}

/// Whether ensuring the fill reads no inverted content span (the running
/// program panics on one).
pub open spec fn fill_fits(xml: Seq<char>, color: Seq<char>) -> bool {
    match fill_plan_spec(xml, color) {
        Ok(Err(p)) => crate::styles::content_span_ok(p.0, "fills"@),
        _ => true,
    }
}

/// `ensure_xlsx_style_fill`: the index of a solid fill of the color, added
/// when the part has none equal.
pub fn ensure_xlsx_style_fill(styles_xml: String, spec: &FillStyleSpec) -> (r: CliResult<(String, u32)>)
    requires
        fill_fits(styles_xml@, spec.color@),
    ensures
        r is Ok <==> fill_spec(styles_xml@, spec.color@) is Ok,
        r is Ok ==> (r->Ok_0.0@, r->Ok_0.1) == fill_spec(styles_xml@, spec.color@)->Ok_0,
        r is Err ==> fill_spec(styles_xml@, spec.color@) == Err::<(Seq<char>, u32), ErrorKind>(r->Err_0.kind),
{
    match plan_fill(styles_xml.as_str(), spec)? {
        RecordPlan::Found(k) => Ok((styles_xml, k)),
        RecordPlan::Appended(x2, n) => Ok((crate::styles::set_collection_count(x2, "fills", "fill"), n)),
    }
}

pub(crate) fn plan_fits(plan: &RecordPlan, parent: &str) -> (r: bool)
    ensures
        r == match plan_view(*plan) {
            Err(p) => crate::styles::content_span_ok(p.0, parent@),
            _ => true,
        },
{
    match plan {
        RecordPlan::Found(_) => true,
        RecordPlan::Appended(x2, _) => match crate::styles::element_span_by_local_name(x2.as_str(), parent) {
            None => true,
            Some(sp) => sp.open_end <= sp.close_start,
        },
    }
}

/// The fill's styles text and index, or `None` where the running program
/// would panic on an inverted content span.
pub fn ensure_xlsx_style_fill_checked(styles_xml: String, spec: &FillStyleSpec) -> (r: Option<CliResult<(String, u32)>>)
    ensures
        r is Some <==> fill_fits(styles_xml@, spec.color@),
        r is Some ==> (r.unwrap() is Ok <==> fill_spec(styles_xml@, spec.color@) is Ok),
        r is Some && r.unwrap() is Ok ==> (r.unwrap()->Ok_0.0@, r.unwrap()->Ok_0.1) == fill_spec(styles_xml@, spec.color@)->Ok_0,
        r is Some && r.unwrap() is Err ==> fill_spec(styles_xml@, spec.color@) == Err::<(Seq<char>, u32), ErrorKind>(r.unwrap()->Err_0.kind),
{
    let fits = match plan_fill(styles_xml.as_str(), spec) {
        Ok(p) => plan_fits(&p, "fills"),
        Err(_) => true,
    };
    if !fits {
        return None;
    }
    Some(ensure_xlsx_style_fill(styles_xml, spec))
}

/// The edges of a border after the asked ones are set, left, right, top,
/// bottom in turn.
pub open spec fn border_children_spec(v: Seq<StyleView>, spec_style: Seq<char>, color: Option<Seq<char>>, left: bool, right: bool, top: bool, bottom: bool) -> Seq<StyleView> {
    let c1 = if left { border_edge_spec(v, "left"@, spec_style, color) } else { v };
    let c2 = if right { border_edge_spec(c1, "right"@, spec_style, color) } else { c1 };
    let c3 = if top { border_edge_spec(c2, "top"@, spec_style, color) } else { c2 };
    if bottom { border_edge_spec(c3, "bottom"@, spec_style, color) } else { c3 }
}

/// The plan for a border built on the border at `base_id`.
pub open spec fn border_plan_spec(xml: Seq<char>, base_id: u32, style: Seq<char>, color: Option<Seq<char>>, top: bool, bottom: bool, left: bool, right: bool) -> Result<Result<u32, (Seq<char>, u32)>, ErrorKind> {
    match collection_spec(xml, "borders"@, "border"@) {
        Err(_) => Err(ErrorKind::Unexpected),
        Ok(borders) => {
            let base = if base_id < borders.len() {
                borders[base_id as int]
            } else {
                ("border"@, Seq::empty(), Seq::empty())
            };
            match records_spec(base.2, None) {
                Err(_) => Err(ErrorKind::Unexpected),
                Ok(children) => {
                    let col = match color {
                        Some(c) => color_spec(c),
                        None => None,
                    };
                    if color is Some && col is None {
                        Err(ErrorKind::InvalidArgs)
                    } else {
                        let edges = border_children_spec(children, style, col, left, right, top, bottom);
                        let sig = render_style_spec("border"@, ("border"@, base.1, render_children_spec(edges)));
                        let k = first_sig(borders, "border"@, sig, 0);
                        if k != -1 {
                            Ok(Ok(k as u32))
                        } else {
                            match append_child_spec(xml, "borders"@, sig) {
                                Err(_) => Err(ErrorKind::Unexpected),
                                Ok(x2) => Ok(Err((x2, borders.len() as u32))),
                            }
                        }
                    }
                },
            }
        },
    }
}

pub open spec fn border_plan_of(xml: Seq<char>, base_id: u32, spec: BorderStyleSpec) -> Result<Result<u32, (Seq<char>, u32)>, ErrorKind> {
    border_plan_spec(xml, base_id, spec.style@, opt_string_view(spec.color), spec.top, spec.bottom, spec.left, spec.right)
}

fn plan_border(styles_xml: &str, base_border_id: u32, spec: &BorderStyleSpec) -> (r: CliResult<RecordPlan>)
    ensures
        r is Ok <==> border_plan_of(styles_xml@, base_border_id, *spec) is Ok,
        r is Ok ==> plan_view(r->Ok_0) == border_plan_of(styles_xml@, base_border_id, *spec)->Ok_0,
        r is Err ==> border_plan_of(styles_xml@, base_border_id, *spec) == Err::<Result<u32, (Seq<char>, u32)>, ErrorKind>(r->Err_0.kind),
{
    let borders = collection_entries(styles_xml, "borders", "border")?;
    let ghost bv = styles_view(borders@);
    proof {
        reveal_strlit("");
    }
    let base = if (base_border_id as usize) < borders.len() {
        proof {
            assert(bv[base_border_id as int] == style_view(borders@[base_border_id as int]));
        }
        borders[base_border_id as usize].clone_element()
    } else {
        new_element("border", AttrMap::new(), "")
    };
    proof {
        assert(style_view(base) == (if base_border_id < bv.len() {
            bv[base_border_id as int]
        } else {
            ("border"@, Seq::<(Seq<char>, Seq<char>)>::empty(), Seq::<char>::empty())
        }));
    }
    let mut children = direct_style_children(base.inner_xml.as_str())?;
    let ghost ch0 = styles_view(children@);
    let color: Option<String> = match &spec.color {
        Some(c) => Some(normalize_xlsx_style_color(c.as_str())?),
        None => None,
    };
    let cref: Option<&str> = match &color {
        Some(c) => Some(c.as_str()),
        None => None,
    };
    let ghost col = match opt_string_view(spec.color) {
        Some(c) => color_spec(c),
        None => None,
    };
    proof {
        assert(crate::mutation::opt_view(cref) == col);
    }
    if spec.left {
        set_xlsx_border_edge(&mut children, "left", spec.style.as_str(), cref);
    }
    if spec.right {
        set_xlsx_border_edge(&mut children, "right", spec.style.as_str(), cref);
    }
    if spec.top {
        set_xlsx_border_edge(&mut children, "top", spec.style.as_str(), cref);
    }
    if spec.bottom {
        set_xlsx_border_edge(&mut children, "bottom", spec.style.as_str(), cref);
    }
    proof {
        assert(styles_view(children@) == border_children_spec(ch0, spec.style@, col, spec.left, spec.right, spec.top, spec.bottom));
    }
    let inner = render_style_children(&children);
    let candidate = StyleElement { name: to_string("border"), attrs: base.attrs, inner_xml: inner };
    let sig = render_style_element("border", &candidate);
    match find_sig(&borders, "border", sig.as_str()) {
        Some(k) => Ok(RecordPlan::Found(k as u32)),
        None => {
            let x2 = append_collection_child(to_string(styles_xml), "borders", sig.as_str())?;
            Ok(RecordPlan::Appended(x2, borders.len() as u32))
        },
    }
}

/// What ensuring a border does: the styles text and the border's index.
pub open spec fn border_spec(xml: Seq<char>, base_id: u32, spec: BorderStyleSpec) -> Result<(Seq<char>, u32), ErrorKind> {
    match border_plan_of(xml, base_id, spec) {
        Err(e) => Err(e),
        Ok(Ok(k)) => Ok((xml, k)),
        Ok(Err(p)) => Ok((crate::styles::set_count_spec(p.0, "borders"@, "border"@), p.1)),
    }
}

/// Whether ensuring the border reads no inverted content span.
pub open spec fn border_fits(xml: Seq<char>, base_id: u32, spec: BorderStyleSpec) -> bool {
    match border_plan_of(xml, base_id, spec) {
        Ok(Err(p)) => crate::styles::content_span_ok(p.0, "borders"@),
        _ => true,
    }
}

/// `ensure_xlsx_style_border`: the index of a border that is the base border
/// with the asked edges set, added when the part has none equal.
pub fn ensure_xlsx_style_border(styles_xml: String, base_border_id: u32, spec: &BorderStyleSpec) -> (r: CliResult<(String, u32)>)
    requires
        border_fits(styles_xml@, base_border_id, *spec),
    ensures
        r is Ok <==> border_spec(styles_xml@, base_border_id, *spec) is Ok,
        r is Ok ==> (r->Ok_0.0@, r->Ok_0.1) == border_spec(styles_xml@, base_border_id, *spec)->Ok_0,
        r is Err ==> border_spec(styles_xml@, base_border_id, *spec) == Err::<(Seq<char>, u32), ErrorKind>(r->Err_0.kind),
{
    match plan_border(styles_xml.as_str(), base_border_id, spec)? {
        RecordPlan::Found(k) => Ok((styles_xml, k)),
        RecordPlan::Appended(x2, n) => Ok((crate::styles::set_collection_count(x2, "borders", "border"), n)),
    }
}

/// The border's styles text and index, or `None` where the running program
/// would panic on an inverted content span.
pub fn ensure_xlsx_style_border_checked(styles_xml: String, base_border_id: u32, spec: &BorderStyleSpec) -> (r: Option<CliResult<(String, u32)>>)
    ensures
        r is Some <==> border_fits(styles_xml@, base_border_id, *spec),
        r is Some ==> (r.unwrap() is Ok <==> border_spec(styles_xml@, base_border_id, *spec) is Ok),
        r is Some && r.unwrap() is Ok ==> (r.unwrap()->Ok_0.0@, r.unwrap()->Ok_0.1) == border_spec(styles_xml@, base_border_id, *spec)->Ok_0,
        r is Some && r.unwrap() is Err ==> border_spec(styles_xml@, base_border_id, *spec) == Err::<(Seq<char>, u32), ErrorKind>(r.unwrap()->Err_0.kind),
{
    let fits = match plan_border(styles_xml.as_str(), base_border_id, spec) {
        Ok(p) => plan_fits(&p, "borders"),
        Err(_) => true,
    };
    if !fits {
        return None;
    }
    Some(ensure_xlsx_style_border(styles_xml, base_border_id, spec))
}

/// The styles text with a collection's count set, or `None` where its
/// first element is an empty-element tag (reading its content panics in the
/// running program).
pub fn set_collection_count_checked(xml: String, parent: &str, child: &str) -> (r: Option<String>)
    ensures
        r is Some <==> crate::styles::content_span_ok(xml@, parent@),
        r is Some ==> r.unwrap()@ == crate::styles::set_count_spec(xml@, parent@, child@),
{
    match crate::styles::element_span_by_local_name(xml.as_str(), parent) {
        Some(sp) => {
            if sp.open_end > sp.close_start {
                return None;
            }
        },
        None => {},
    }
    Some(crate::styles::set_collection_count(xml, parent, child))
}

} // verus!
