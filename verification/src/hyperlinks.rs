//! Worksheet hyperlinks: reading the `hyperlinks` element, and adding,
//! updating and deleting links together with their relationships.
use vstd::prelude::*;
use crate::attrmap::{
    map_from_pairs, map_get, remove_key, sorted_insert, AttrMap, Entries,
};
use crate::cellref::{hyperlink_ref_spec, normalize_hyperlink_ref};
use crate::elements::{
    child_named, element_name, element_name_spec, first_tag_from, fragment_bounds_spec,
    render_attrs_spec, render_xml_attrs, prefix_of, xml_tag_prefix, direct_child_range,
    direct_child_ranges, child_spans, xml_fragment_bounds,
};
use crate::error::{CliError, CliResult, ErrorKind};
use crate::rels::{
    rel_hyperlink, rel_view, rels_view, RelationshipEntry,
};
use crate::text::{
    concat2, concat3, concat4, concat5, str_chars, str_eq, string_from_chars, slice_vec, to_string,
    trim, trim_string, debug_quoted, str_debug_text,
};
use crate::xml::{
    rfind_seq, lemma_rfind_from, matches_at, root_bounds_spec, root_bounds_valid, root_view,
    span_of, spans_of, spans_ordered, splice, vec_rfind, xlsx_worksheet_root_bounds,
    XlsxWorksheetRootBounds, XmlNamedRange,
};

verus! {

// ---------------------------------------------------------------------------
// Attribute names
// ---------------------------------------------------------------------------

/// The local part of an attribute name: what follows its last `:`.
pub open spec fn attr_local_spec(key: Seq<char>) -> Seq<char> {
    let c = rfind_seq(key, seq![':']);
    if c < 0 {
        key
    } else {
        key.subrange(c + 1, key.len() as int)
    }
}

/// `attr_local_name`: the local part of an attribute name.
pub fn attr_local_name(key: &str) -> (r: String)
    ensures
        r@ == attr_local_spec(key@),
{
    let v = str_chars(key);
    let mut colon: Vec<char> = Vec::new();
    colon.push(':');
    proof {
        assert(colon@ =~= seq![':']);
    }
    match vec_rfind(&v, &colon) {
        None => to_string(key),
        Some(c) => {
            proof {
                lemma_rfind_from(v@, colon@, v@.len() - 1);
                assert(rfind_seq(v@, colon@) == crate::xml::rfind_from(v@, colon@, v@.len() - 1));
                assert(matches_at(v@, colon@, c as int));
                assert(v@.len() == v.len());
            }
            let w = slice_vec(&v, c + 1, v.len());
            string_from_chars(w.as_slice())
        },
    }
}

/// The index of the first entry from `i` on whose local name is `local`, or -1.
pub open spec fn first_local(s: Entries, local: Seq<char>, i: int) -> int
    decreases s.len() - i,
{
    if i < 0 || i >= s.len() {
        -1
    } else if attr_local_spec(s[i].0) == local {
        i
    } else {
        first_local(s, local, i + 1)
    }
}

/// Whether an attribute name is that of a relationship id.
pub open spec fn is_rel_id_key(k: Seq<char>) -> bool {
    k == "r:id"@ || attr_local_spec(k) == "id"@
}

/// The index of the first relationship-id entry from `i` on, or -1.
pub open spec fn first_rel_id(s: Entries, i: int) -> int
    decreases s.len() - i,
{
    if i < 0 || i >= s.len() {
        -1
    } else if is_rel_id_key(s[i].0) {
        i
    } else {
        first_rel_id(s, i + 1)
    }
}

pub proof fn lemma_first_local(s: Entries, local: Seq<char>, i: int)
    requires
        0 <= i <= s.len(),
    ensures
        first_local(s, local, i) == -1 || (i <= first_local(s, local, i) < s.len()),
    decreases s.len() - i,
{
    if i < s.len() && attr_local_spec(s[i].0) != local {
        lemma_first_local(s, local, i + 1);
    }
}

pub proof fn lemma_first_rel_id(s: Entries, i: int)
    requires
        0 <= i <= s.len(),
    ensures
        first_rel_id(s, i) == -1 || (i <= first_rel_id(s, i) < s.len()),
    decreases s.len() - i,
{
    if i < s.len() && !is_rel_id_key(s[i].0) {
        lemma_first_rel_id(s, i + 1);
    }
}

/// The value at an index, empty for -1.
pub open spec fn value_at(s: Entries, i: int) -> Seq<char> {
    if i == -1 {
        Seq::empty()
    } else {
        s[i].1
    }
}

/// The value of the first attribute with the local name (empty when none).
pub open spec fn attr_value_spec(s: Entries, local: Seq<char>) -> Seq<char> {
    value_at(s, first_local(s, local, 0))
}

/// The value of the first relationship-id attribute (empty when none).
pub open spec fn rel_id_spec(s: Entries) -> Seq<char> {
    value_at(s, first_rel_id(s, 0))
}

fn find_local(attrs: &AttrMap, local: &str) -> (r: Option<usize>)
    ensures
        r is Some ==> r.unwrap() < attrs.view().len() && r.unwrap() as int == first_local(attrs.view(), local@, 0),
        r is None ==> first_local(attrs.view(), local@, 0) == -1,
{
    let ghost s = attrs.view();
    let lv = str_chars(local);
    let mut i: usize = 0;
    while i < attrs.entries.len()
        invariant
            0 <= i <= attrs.entries.len(),
            s == attrs.view(),
            lv@ == local@,
            first_local(s, local@, i as int) == first_local(s, local@, 0),
        decreases attrs.entries.len() - i,
    {
        proof {
            assert(s[i as int].0 == attrs.entries@[i as int].0@);
        }
        let ln = attr_local_name(attrs.entries[i].0.as_str());
        let lnv = str_chars(ln.as_str());
        if crate::text::vec_eq(&lnv, &lv) {
            return Some(i);
        }
        i = i + 1;
    }
    None
}

fn find_rel_id(attrs: &AttrMap) -> (r: Option<usize>)
    ensures
        r is Some ==> r.unwrap() < attrs.view().len() && r.unwrap() as int == first_rel_id(attrs.view(), 0),
        r is None ==> first_rel_id(attrs.view(), 0) == -1,
{
    let ghost s = attrs.view();
    let mut i: usize = 0;
    while i < attrs.entries.len()
        invariant
            0 <= i <= attrs.entries.len(),
            s == attrs.view(),
            first_rel_id(s, i as int) == first_rel_id(s, 0),
        decreases attrs.entries.len() - i,
    {
        proof {
            assert(s[i as int].0 == attrs.entries@[i as int].0@);
            reveal_strlit("r:id");
            reveal_strlit("id");
        }
        let ln = attr_local_name(attrs.entries[i].0.as_str());
        if str_eq(attrs.entries[i].0.as_str(), "r:id") || str_eq(ln.as_str(), "id") {
            return Some(i);
        }
        i = i + 1;
    }
    None
}

fn empty_string() -> (r: String)
    ensures
        r@ == Seq::<char>::empty(),
{
    let e = String::new();
    proof {
        assert(e@ =~= Seq::<char>::empty());
    }
    e
}

/// `attr_value`: the value of the first attribute with the local name, or
/// empty.
pub fn attr_value(attrs: &AttrMap, local: &str) -> (r: String)
    ensures
        r@ == attr_value_spec(attrs.view(), local@),
{
    match find_local(attrs, local) {
        Some(i) => {
            proof {
                assert(attrs.view()[i as int].1 == attrs.entries@[i as int].1@);
            }
            attrs.entries[i].1.clone()
        },
        None => empty_string(),
    }
}

/// `rel_id_attr`: the value of the first relationship-id attribute, or empty.
pub fn rel_id_attr(attrs: &AttrMap) -> (r: String)
    ensures
        r@ == rel_id_spec(attrs.view()),
{
    match find_rel_id(attrs) {
        Some(i) => {
            proof {
                assert(attrs.view()[i as int].1 == attrs.entries@[i as int].1@);
            }
            attrs.entries[i].1.clone()
        },
        None => empty_string(),
    }
}

/// The map without the entry at an index (-1: unchanged).
pub open spec fn remove_at(s: Entries, i: int) -> Entries {
    if i == -1 {
        s
    } else {
        remove_key(s, s[i].0)
    }
}

/// `remove_attr`: drops the first attribute with the local name.
pub fn remove_attr(attrs: &mut AttrMap, local: &str)
    ensures
        final(attrs).view() == remove_at(old(attrs).view(), first_local(old(attrs).view(), local@, 0)),
{
    match find_local(attrs, local) {
        Some(i) => {
            let key = attrs.entries[i].0.clone();
            proof {
                assert(attrs.view()[i as int].0 == attrs.entries@[i as int].0@);
            }
            attrs.remove(key.as_str());
        },
        None => {},
    }
}

/// `remove_rel_id_attr`: drops the first relationship-id attribute.
pub fn remove_rel_id_attr(attrs: &mut AttrMap)
    ensures
        final(attrs).view() == remove_at(old(attrs).view(), first_rel_id(old(attrs).view(), 0)),
{
    match find_rel_id(attrs) {
        Some(i) => {
            let key = attrs.entries[i].0.clone();
            proof {
                assert(attrs.view()[i as int].0 == attrs.entries@[i as int].0@);
            }
            attrs.remove(key.as_str());
        },
        None => {},
    }
}

// ---------------------------------------------------------------------------
// Hyperlinks
// ---------------------------------------------------------------------------

/// A hyperlink: its cell or range, its external target or in-workbook
/// location, display text, tooltip, relationship id, and whether its
/// relationship is missing.
#[derive(Debug)]
pub struct XlsxHyperlink {
    pub ref_: String,
    pub url: String,
    pub location: String,
    pub display: String,
    pub tooltip: String,
    pub rel_id: String,
    pub broken: bool,
}

pub open spec fn link_view(l: XlsxHyperlink) -> (Seq<char>, Seq<char>, Seq<char>, Seq<char>, Seq<char>, Seq<char>, bool) {
    (l.ref_@, l.url@, l.location@, l.display@, l.tooltip@, l.rel_id@, l.broken)
}

impl XlsxHyperlink {
    pub fn clone_link(&self) -> (r: XlsxHyperlink)
        ensures
            link_view(r) == link_view(*self),
    {
        XlsxHyperlink {
            ref_: self.ref_.clone(),
            url: self.url.clone(),
            location: self.location.clone(),
            display: self.display.clone(),
            tooltip: self.tooltip.clone(),
            rel_id: self.rel_id.clone(),
            broken: self.broken,
        }
    }
}

/// A `hyperlink` element: what it says, and its attributes.
#[derive(Debug)]
pub struct XlsxHyperlinkElement {
    pub info: XlsxHyperlink,
    pub attrs: AttrMap,
}

pub type LinkView = (Seq<char>, Seq<char>, Seq<char>, Seq<char>, Seq<char>, Seq<char>, bool);

pub open spec fn element_view(e: XlsxHyperlinkElement) -> (LinkView, Entries) {
    (link_view(e.info), e.attrs.view())
}

pub open spec fn elements_view(v: Seq<XlsxHyperlinkElement>) -> Seq<(LinkView, Entries)> {
    Seq::new(v.len(), |i: int| element_view(v[i]))
}

/// The hyperlink a `hyperlink` element's attributes describe, its target
/// looked up among the hyperlink relationships.
pub open spec fn link_from_attrs_spec(attrs: Entries, targets: Entries) -> (Seq<char>, Seq<char>, Seq<char>, Seq<char>, Seq<char>, Seq<char>, bool) {
    let rel = rel_id_spec(attrs);
    let found = map_get(targets, rel);
    (
        attr_value_spec(attrs, "ref"@),
        if rel.len() > 0 && found is Some {
            found.unwrap()
        } else {
            Seq::empty()
        },
        attr_value_spec(attrs, "location"@),
        attr_value_spec(attrs, "display"@),
        attr_value_spec(attrs, "tooltip"@),
        rel,
        rel.len() > 0 && found is None,
    )
}

/// `hyperlink_from_attrs`: the hyperlink an element's attributes describe.
pub fn hyperlink_from_attrs(attrs: &AttrMap, rel_targets: &AttrMap) -> (r: XlsxHyperlink)
    ensures
        link_view(r) == link_from_attrs_spec(attrs.view(), rel_targets.view()),
{
    let rel_id = rel_id_attr(attrs);
    let mut link = XlsxHyperlink {
        ref_: attr_value(attrs, "ref"),
        url: empty_string(),
        location: attr_value(attrs, "location"),
        display: attr_value(attrs, "display"),
        tooltip: attr_value(attrs, "tooltip"),
        rel_id: rel_id.clone(),
        broken: false,
    };
    if rel_id.unicode_len() > 0 {
        match rel_targets.get(rel_id.as_str()) {
            Some(t) => {
                link.url = t;
            },
            None => {
                link.broken = true;
            },
        }
    }
    link
}

/// The `(id, target)` pairs of the hyperlink relationships, in order.
pub open spec fn hyperlink_pairs(v: Seq<(Seq<char>, Seq<char>, Seq<char>, Seq<char>)>) -> Entries
    decreases v.len(),
{
    if v.len() == 0 {
        Seq::empty()
    } else if v.last().1 == rel_hyperlink() {
        hyperlink_pairs(v.drop_last()).push((v.last().0, v.last().2))
    } else {
        hyperlink_pairs(v.drop_last())
    }
}

/// `hyperlink_rel_targets`: the target of each hyperlink relationship, by id.
pub fn hyperlink_rel_targets(rels: &Vec<RelationshipEntry>) -> (r: AttrMap)
    ensures
        r.view() == map_from_pairs(hyperlink_pairs(rels_view(rels@))),
{
    let mut m = AttrMap::new();
    let mut i: usize = 0;
    while i < rels.len()
        invariant
            0 <= i <= rels.len(),
            m.view() == map_from_pairs(hyperlink_pairs(rels_view(rels@).subrange(0, i as int))),
        decreases rels.len() - i,
    {
        let ghost pre = rels_view(rels@).subrange(0, i + 1);
        proof {
            assert(pre.drop_last() =~= rels_view(rels@).subrange(0, i as int));
            assert(pre.last() == rel_view(rels@[i as int]));
            reveal_strlit("http://schemas.openxmlformats.org/officeDocument/2006/relationships/hyperlink");
        }
        if str_eq(rels[i].rel_type.as_str(), "http://schemas.openxmlformats.org/officeDocument/2006/relationships/hyperlink") {
            m.insert(rels[i].id.clone(), rels[i].target.clone());
            proof {
                let hp = hyperlink_pairs(pre.drop_last());
                assert(hyperlink_pairs(pre) == hp.push((pre.last().0, pre.last().2)));
                assert(hp.push((pre.last().0, pre.last().2)).drop_last() =~= hp);
            }
        }
        i = i + 1;
    }
    proof {
        assert(rels_view(rels@).subrange(0, rels@.len() as int) =~= rels_view(rels@));
    }
    m
}

/// The index of the first element from `i` on whose reference normalizes to
/// `norm_ref`, or -1.
pub open spec fn first_link_with_ref(els: Seq<XlsxHyperlinkElement>, norm_ref: Seq<char>, i: int) -> int
    decreases els.len() - i,
{
    if i < 0 || i >= els.len() {
        -1
    } else if hyperlink_ref_spec(els[i].info.ref_@) == Some(norm_ref) {
        i
    } else {
        first_link_with_ref(els, norm_ref, i + 1)
    }
}

/// `find_hyperlink_index`: the first element on the normalized reference.
pub fn find_hyperlink_index(elements: &Vec<XlsxHyperlinkElement>, norm_ref: &str) -> (r: Option<usize>)
    ensures
        r is Some ==> r.unwrap() < elements.len() && r.unwrap() as int == first_link_with_ref(elements@, norm_ref@, 0),
        r is None ==> first_link_with_ref(elements@, norm_ref@, 0) == -1,
{
    let mut i: usize = 0;
    while i < elements.len()
        invariant
            0 <= i <= elements.len(),
            first_link_with_ref(elements@, norm_ref@, i as int) == first_link_with_ref(elements@, norm_ref@, 0),
        decreases elements.len() - i,
    {
        match normalize_hyperlink_ref(elements[i].info.ref_.as_str()) {
            Ok(candidate) => {
                if str_eq(candidate.as_str(), norm_ref) {
                    return Some(i);
                }
            },
            Err(_) => {},
        }
        i = i + 1;
    }
    None
}

/// The failures of the `--expect-url` and `--expect-location` guards.
pub open spec fn guards_hold(current: (Seq<char>, Seq<char>, Seq<char>, Seq<char>, Seq<char>, Seq<char>, bool), has_url: bool, expect_url: Seq<char>, has_location: bool, expect_location: Seq<char>) -> bool {
    !(has_url && current.1 != expect_url) && !(has_location && current.2 != expect_location)
}

/// The message of a failed guard: the url guard is checked first; both
/// values are quoted as `{:?}` writes them.
pub open spec fn guard_failure_message(current: (Seq<char>, Seq<char>, Seq<char>, Seq<char>, Seq<char>, Seq<char>, bool), has_url: bool, expect_url: Seq<char>, expect_location: Seq<char>) -> Seq<char> {
    if has_url && current.1 != expect_url {
        "expected url "@ + str_debug_text(expect_url) + " but found "@ + str_debug_text(current.1)
    } else {
        "expected location "@ + str_debug_text(expect_location) + " but found "@ + str_debug_text(current.2)
    }
}

/// `check_hyperlink_guards`: the link's url and location are what the caller
/// expects, where it says what it expects.
pub fn check_hyperlink_guards(
    current: &XlsxHyperlink,
    has_url: bool,
    expect_url: &str,
    has_location: bool,
    expect_location: &str,
) -> (r: CliResult<()>)
    ensures
        r is Ok <==> guards_hold(link_view(*current), has_url, expect_url@, has_location, expect_location@),
        r is Err ==> r->Err_0.kind == ErrorKind::InvalidArgs,
        r is Err ==> r->Err_0.message@ == guard_failure_message(link_view(*current), has_url, expect_url@, expect_location@),
{
    if has_url && !str_eq(current.url.as_str(), expect_url) {
        let qe = debug_quoted(expect_url);
        let qc = debug_quoted(current.url.as_str());
        return Err(CliError::invalid_args(concat4("expected url ", qe.as_str(), " but found ", qc.as_str())));
    }
    if has_location && !str_eq(current.location.as_str(), expect_location) {
        let qe = debug_quoted(expect_location);
        let qc = debug_quoted(current.location.as_str());
        return Err(CliError::invalid_args(concat4("expected location ", qe.as_str(), " but found ", qc.as_str())));
    }
    Ok(())
}

/// One `hyperlink` element with the attributes in name order.
pub open spec fn render_link_spec(prefix: Seq<char>, attrs: Entries) -> Seq<char> {
    seq!['<'] + element_name_spec(prefix, "hyperlink"@) + render_attrs_spec(attrs) + "/>"@
}

/// `render_hyperlink_element`: a `hyperlink` element.
pub fn render_hyperlink_element(prefix: &str, attrs: &AttrMap) -> (r: String)
    ensures
        r@ == render_link_spec(prefix@, attrs.view()),
{
    let name = element_name(prefix, "hyperlink");
    let rendered = render_xml_attrs(&attrs.entries);
    proof {
        reveal_strlit("<");
    }
    concat4("<", name.as_str(), rendered.as_str(), "/>")
}

/// `required_cell`: the trimmed `--cell` value, which must not be blank.
pub fn required_cell(cell: Option<&str>) -> (r: CliResult<String>)
    ensures
        r is Ok <==> cell is Some && trim(cell.unwrap()@).len() > 0,
        r is Ok ==> r->Ok_0@ == trim(cell.unwrap()@),
        r is Err ==> r->Err_0.kind == ErrorKind::InvalidArgs,
{
    match cell {
        Some(c) => {
            let t = trim_string(c);
            if t.unicode_len() > 0 {
                Ok(t)
            } else {
                Err(CliError::invalid_args(to_string("--cell is required")))
            }
        },
        None => Err(CliError::invalid_args(to_string("--cell is required"))),
    }
}


// ---------------------------------------------------------------------------
// Relationships of hyperlinks
// ---------------------------------------------------------------------------

/// Whether another element (not on `exclude_ref`) still uses the relationship.
pub open spec fn rel_used_elsewhere(els: Seq<(LinkView, Entries)>, rel_id: Seq<char>, exclude_ref: Seq<char>) -> bool {
    exists|j: int| 0 <= j < els.len() && (#[trigger] els[j]).0.5 == rel_id && els[j].0.0 != exclude_ref
}

/// The relationships without the hyperlink relationship of an id.
pub open spec fn rels_without(v: Seq<(Seq<char>, Seq<char>, Seq<char>, Seq<char>)>, rel_id: Seq<char>) -> Seq<(Seq<char>, Seq<char>, Seq<char>, Seq<char>)>
    decreases v.len(),
{
    if v.len() == 0 {
        v
    } else if v.last().0 == rel_id && v.last().1 == rel_hyperlink() {
        rels_without(v.drop_last(), rel_id)
    } else {
        rels_without(v.drop_last(), rel_id).push(v.last())
    }
}

/// What dropping an unused hyperlink relationship leaves.
pub open spec fn drop_rel_spec(v: Seq<(Seq<char>, Seq<char>, Seq<char>, Seq<char>)>, rel_id: Seq<char>, els: Seq<(LinkView, Entries)>, exclude_ref: Seq<char>) -> Seq<(Seq<char>, Seq<char>, Seq<char>, Seq<char>)> {
    if rel_id.len() == 0 || rel_used_elsewhere(els, rel_id, exclude_ref) {
        v
    } else {
        rels_without(v, rel_id)
    }
}

/// `remove_hyperlink_rel_if_unused`: drops the hyperlink relationship of an
/// id that no other link uses; whether any relationship went.
pub fn remove_hyperlink_rel_if_unused(
    rels: &mut Vec<RelationshipEntry>,
    rel_id: &str,
    elements: &Vec<XlsxHyperlinkElement>,
    exclude_ref: &str,
) -> (r: bool)
    ensures
        rels_view(final(rels)@) == drop_rel_spec(rels_view(old(rels)@), rel_id@, elements_view(elements@), exclude_ref@),
        r == (final(rels)@.len() != old(rels)@.len()),
{
    if rel_id.unicode_len() == 0 {
        return false;
    }
    let mut j: usize = 0;
    while j < elements.len()
        invariant
            0 <= j <= elements.len(),
            forall|k: int| 0 <= k < j ==> !((#[trigger] elements_view(elements@)[k]).0.5 == rel_id@ && elements_view(elements@)[k].0.0 != exclude_ref@),
        decreases elements.len() - j,
    {
        proof {
            assert(elements_view(elements@)[j as int] == element_view(elements@[j as int]));
        }
        if str_eq(elements[j].info.rel_id.as_str(), rel_id) && !str_eq(elements[j].info.ref_.as_str(), exclude_ref) {
            return false;
        }
        j = j + 1;
    }
    let mut kept: Vec<RelationshipEntry> = Vec::new();
    let mut i: usize = 0;
    proof {
        reveal_strlit("http://schemas.openxmlformats.org/officeDocument/2006/relationships/hyperlink");
        assert(rels_view(kept@) =~= rels_without(rels_view(rels@).subrange(0, 0), rel_id@));
    }
    while i < rels.len()
        invariant
            0 <= i <= rels.len(),
            rels_view(kept@) == rels_without(rels_view(rels@).subrange(0, i as int), rel_id@),
        decreases rels.len() - i,
    {
        let ghost pre = rels_view(rels@).subrange(0, i + 1);
        proof {
            assert(pre.drop_last() =~= rels_view(rels@).subrange(0, i as int));
            assert(pre.last() == rel_view(rels@[i as int]));
        }
        if !(str_eq(rels[i].id.as_str(), rel_id) && str_eq(rels[i].rel_type.as_str(), "http://schemas.openxmlformats.org/officeDocument/2006/relationships/hyperlink")) {
            kept.push(rels[i].clone_entry());
            proof {
                assert(rels_view(kept@) =~= rels_without(pre.drop_last(), rel_id@).push(pre.last()));
            }
        }
        i = i + 1;
    }
    proof {
        assert(rels_view(rels@).subrange(0, rels@.len() as int) =~= rels_view(rels@));
    }
    let before = rels.len();
    *rels = kept;
    rels.len() != before
}

// ---------------------------------------------------------------------------
// The hyperlinks element
// ---------------------------------------------------------------------------

/// The first child named `kind` of the worksheet root (none for an empty root).
pub open spec fn root_child_spec(xml: Seq<char>, root: (int, int, int, int, Seq<char>, bool), kind: Seq<char>) -> Result<Option<(int, int, Seq<char>)>, ()> {
    if root.5 || root.1 >= root.2 {
        Ok(None)
    } else {
        match child_named(xml, root.1, root.2, kind) {
            None => Err(()),
            Some(x) => Ok(x),
        }
    }
}

/// `direct_worksheet_child_range`: the first child of the worksheet root
/// named `kind`.
pub fn direct_worksheet_child_range(xml: &str, root: &XlsxWorksheetRootBounds, kind: &str) -> (r: CliResult<Option<XmlNamedRange>>)
    requires
        root_bounds_valid(root_view(*root), xml@.len() as int),
    ensures
        r is Ok <==> root_child_spec(xml@, root_view(*root), kind@) is Ok,
        r is Ok ==> match r->Ok_0 {
            None => root_child_spec(xml@, root_view(*root), kind@)->Ok_0 is None,
            Some(x) => root_child_spec(xml@, root_view(*root), kind@)->Ok_0 == Some(span_of(x)) && x.start <= x.end <= xml@.len(),
        },
        r is Err ==> r->Err_0.kind == ErrorKind::Unexpected,
{
    if root.self_closing || root.open_end >= root.close_start {
        return Ok(None);
    }
    direct_child_range(xml, root.open_end, root.close_start, kind)
}

/// The worksheet's `hyperlinks` element.
pub open spec fn hl_range_spec(xml: Seq<char>) -> Result<Option<(int, int, Seq<char>)>, ()> {
    match root_bounds_spec(xml, true) {
        None => Err(()),
        Some(root) => root_child_spec(xml, root, "hyperlinks"@),
    }
}

/// `hyperlinks_range`: where the worksheet's `hyperlinks` element lies.
pub fn hyperlinks_range(sheet_xml: &str) -> (r: CliResult<Option<XmlNamedRange>>)
    ensures
        r is Ok <==> hl_range_spec(sheet_xml@) is Ok,
        r is Ok ==> match r->Ok_0 {
            None => hl_range_spec(sheet_xml@)->Ok_0 is None,
            Some(x) => hl_range_spec(sheet_xml@)->Ok_0 == Some(span_of(x)) && x.start <= x.end <= sheet_xml@.len(),
        },
        r is Err ==> r->Err_0.kind == ErrorKind::Unexpected,
{
    let root = xlsx_worksheet_root_bounds(sheet_xml)?;
    direct_worksheet_child_range(sheet_xml, &root, "hyperlinks")
}

/// The namespace declaration of the relationship prefix `r`.
pub open spec fn r_ns_attr() -> Seq<char> {
    " xmlns:r=\"http://schemas.openxmlformats.org/officeDocument/2006/relationships\""@
}

/// The worksheet with the `r` prefix declared on its root when it is not.
pub open spec fn ensure_r_ns_spec(xml: Seq<char>) -> Result<Seq<char>, ()> {
    match root_bounds_spec(xml, true) {
        None => Err(()),
        Some(root) => {
            let tag = xml.subrange(root.0, root.1);
            if rfind_seq(tag, "xmlns:r="@) >= 0 {
                Ok(xml)
            } else {
                let e = rfind_seq(tag, "/>"@);
                let rel = if e >= 0 {
                    e
                } else if tag.len() >= 1 {
                    tag.len() - 1
                } else {
                    0
                };
                Ok(splice(xml, root.0 + rel, root.0 + rel, r_ns_attr()))
            }
        },
    }
}

/// `ensure_relationships_namespace`: declares the relationships prefix on the
/// worksheet root, before the end of its start tag.
pub fn ensure_relationships_namespace(xml: &str) -> (r: CliResult<String>)
    ensures
        r is Ok <==> ensure_r_ns_spec(xml@) is Ok,
        r is Ok ==> r->Ok_0@ == ensure_r_ns_spec(xml@)->Ok_0,
        r is Err ==> r->Err_0.kind == ErrorKind::Unexpected,
{
    let root = xlsx_worksheet_root_bounds(xml)?;
    let v = str_chars(xml);
    let tag = slice_vec(&v, root.start, root.open_end);
    let pat = str_chars("xmlns:r=");
    if vec_rfind(&tag, &pat).is_some() {
        return Ok(to_string(xml));
    }
    let close = str_chars("/>");
    let rel = match vec_rfind(&tag, &close) {
        Some(e) => {
            proof {
                lemma_rfind_from(tag@, close@, tag@.len() - close@.len());
                assert(matches_at(tag@, close@, e as int));
            }
            e
        },
        None => if tag.len() >= 1 {
            tag.len() - 1
        } else {
            0
        },
    };
    proof {
        reveal_strlit(" xmlns:r=\"http://schemas.openxmlformats.org/officeDocument/2006/relationships\"");
    }
    Ok(crate::xml::insert_text(xml, root.start + rel, " xmlns:r=\"http://schemas.openxmlformats.org/officeDocument/2006/relationships\""))
}


// ---------------------------------------------------------------------------
// Reading the hyperlinks
// ---------------------------------------------------------------------------

/// The index of the first start or empty `hyperlink` tag from `i` on, or -1.
pub open spec fn first_link_tag(toks: Seq<crate::xml::CharToken>, i: int) -> int
    decreases toks.len() - i,
{
    if i < 0 || i >= toks.len() {
        -1
    } else if crate::xml::is_tag(toks[i]) && crate::xml::local_name_of(toks[i].name@) == "hyperlink"@ {
        i
    } else {
        first_link_tag(toks, i + 1)
    }
}

/// The attributes of the first `hyperlink` tag of a fragment, as a map.
pub open spec fn link_attrs_spec(x: Seq<char>) -> Option<Entries> {
    match crate::xml::char_tokens_spec(x) {
        None => None,
        Some(p) => {
            let k = first_link_tag(p.0, 0);
            if k == -1 {
                None
            } else {
                Some(map_from_pairs(crate::xml::quick_xml_tag_attributes(x.subrange(p.0[k].start as int, p.0[k].end as int))))
            }
        },
    }
}

/// `hyperlink_attrs`: the attributes of a `hyperlink` element.
pub fn hyperlink_attrs(xml: &str) -> (r: CliResult<AttrMap>)
    ensures
        r is Ok <==> link_attrs_spec(xml@) is Some,
        r is Ok ==> r->Ok_0.view() == link_attrs_spec(xml@).unwrap(),
        r is Err ==> r->Err_0.kind == ErrorKind::Unexpected,
{
    let (toks, _e) = crate::xml::char_tokens(xml)?;
    let hv = str_chars("hyperlink");
    let mut i: usize = 0;
    while i < toks.len()
        invariant
            0 <= i <= toks.len(),
            crate::xml::char_tokens_spec(xml@) is Some,
            toks@ == crate::xml::char_tokens_spec(xml@).unwrap().0,
            crate::xml::tokens_well_formed(toks@, xml@.len() as int),
            hv@ == "hyperlink"@,
            first_link_tag(toks@, i as int) == first_link_tag(toks@, 0),
        decreases toks.len() - i,
    {
        let t = &toks[i];
        if t.kind == crate::xml::XmlTokenKind::Start || t.kind == crate::xml::XmlTokenKind::Empty {
            let ln = crate::xml::local_name(t.name.as_str());
            let lv = str_chars(ln.as_str());
            if crate::text::vec_eq(&lv, &hv) {
                let v = str_chars(xml);
                let tv = slice_vec(&v, t.start, t.end);
                let tag = string_from_chars(tv.as_slice());
                let pairs = crate::xml::tag_attributes(tag.as_str());
                return Ok(AttrMap::from_pairs(&pairs));
            }
        }
        i = i + 1;
    }
    Err(CliError::unexpected(to_string("hyperlink element not found")))
}

/// The hyperlinks among the children `sp[i..]` of a `hyperlinks` fragment.
pub open spec fn links_from(frag: Seq<char>, sp: Seq<(int, int, Seq<char>)>, targets: Entries, i: int) -> Result<Seq<(LinkView, Entries)>, ()>
    decreases sp.len() - i,
{
    if i < 0 || i >= sp.len() {
        Ok(Seq::empty())
    } else if sp[i].2 != "hyperlink"@ {
        links_from(frag, sp, targets, i + 1)
    } else {
        match link_attrs_spec(frag.subrange(sp[i].0, sp[i].1)) {
            None => Err(()),
            Some(a) => match links_from(frag, sp, targets, i + 1) {
                Err(_) => Err(()),
                Ok(rest) => Ok(seq![(link_from_attrs_spec(a, targets), a)] + rest),
            },
        }
    }
}

/// The hyperlinks of a worksheet, in document order, with their attributes.
pub open spec fn parse_links_spec(xml: Seq<char>, targets: Entries) -> Result<Seq<(LinkView, Entries)>, ()> {
    match hl_range_spec(xml) {
        Err(_) => Err(()),
        Ok(None) => Ok(Seq::empty()),
        Ok(Some(r)) => {
            let frag = xml.subrange(r.0, r.1);
            match fragment_bounds_spec(frag) {
                None => Err(()),
                Some(b) => if b.3 {
                    Ok(Seq::empty())
                } else {
                    match child_spans(frag, b.0 + 1, b.2) {
                        None => Err(()),
                        Some(sp) => links_from(frag, sp, targets, 0),
                    }
                },
            }
        },
    }
}

/// `parse_hyperlink_elements`: the worksheet's hyperlinks, their targets
/// looked up among the hyperlink relationships.
pub fn parse_hyperlink_elements(sheet_xml: &str, rel_targets: &AttrMap) -> (r: CliResult<Vec<XlsxHyperlinkElement>>)
    ensures
        r is Ok <==> parse_links_spec(sheet_xml@, rel_targets.view()) is Ok,
        r is Ok ==> elements_view(r->Ok_0@) == parse_links_spec(sheet_xml@, rel_targets.view())->Ok_0,
        r is Err ==> r->Err_0.kind == ErrorKind::Unexpected,
{
    let range = match hyperlinks_range(sheet_xml)? {
        None => {
            let v: Vec<XlsxHyperlinkElement> = Vec::new();
            proof {
                assert(elements_view(v@) =~= Seq::<(LinkView, Entries)>::empty());
            }
            return Ok(v);
        },
        Some(r) => r,
    };
    let chars = str_chars(sheet_xml);
    let fv = slice_vec(&chars, range.start, range.end);
    let fragment = string_from_chars(fv.as_slice());
    let (open_end, _name, close_start, self_closing) = xml_fragment_bounds(fragment.as_str())?;
    if self_closing {
        let v: Vec<XlsxHyperlinkElement> = Vec::new();
        proof {
            assert(elements_view(v@) =~= Seq::<(LinkView, Entries)>::empty());
        }
        return Ok(v);
    }
    let children = direct_child_ranges(fragment.as_str(), open_end + 1, close_start)?;
    let ghost sp = spans_of(children@);
    let ghost fr = fragment@;
    let ghost tg = rel_targets.view();
    let fchars = str_chars(fragment.as_str());
    let hv = str_chars("hyperlink");
    let mut out: Vec<XlsxHyperlinkElement> = Vec::new();
    let mut i: usize = 0;
    proof {
        match links_from(fr, sp, tg, 0) {
            Ok(rest) => {
                assert(elements_view(out@) + rest =~= rest);
            },
            Err(_) => {},
        }
        assert(parse_links_spec(sheet_xml@, tg) == links_from(fr, sp, tg, 0));
    }
    while i < children.len()
        invariant
            0 <= i <= children.len(),
            parse_links_spec(sheet_xml@, tg) == links_from(fr, sp, tg, 0),
            sp == spans_of(children@),
            spans_ordered(sp, open_end + 1, close_start as int),
            close_start <= fr.len(),
            fchars@ == fr,
            fr == fragment@,
            tg == rel_targets.view(),
            hv@ == "hyperlink"@,
            links_from(fr, sp, tg, i as int) is Ok ==> links_from(fr, sp, tg, 0) == Ok::<Seq<(LinkView, Entries)>, ()>(
                elements_view(out@) + links_from(fr, sp, tg, i as int)->Ok_0),
            links_from(fr, sp, tg, i as int) is Err ==> links_from(fr, sp, tg, 0) is Err,
        decreases children.len() - i,
    {
        proof {
            assert(sp[i as int] == span_of(children@[i as int]));
            assert(open_end + 1 <= sp[i as int].0 <= sp[i as int].1 <= close_start);
        }
        let kv = str_chars(children[i].kind.as_str());
        if crate::text::vec_eq(&kv, &hv) {
            let cv = slice_vec(&fchars, children[i].start, children[i].end);
            let child_xml = string_from_chars(cv.as_slice());
            proof {
                assert(child_xml@ == fr.subrange(sp[i as int].0, sp[i as int].1));
                assert(sp[i as int].2 == "hyperlink"@);
            }
            let attrs = hyperlink_attrs(child_xml.as_str())?;
            let info = hyperlink_from_attrs(&attrs, rel_targets);
            let ghost before = elements_view(out@);
            let ghost ev = (link_view(info), attrs.view());
            out.push(XlsxHyperlinkElement { info, attrs });
            proof {
                assert(elements_view(out@) =~= before + seq![ev]);
                match links_from(fr, sp, tg, i + 1) {
                    Ok(rest) => {
                        assert(before + (seq![ev] + rest) =~= (before + seq![ev]) + rest);
                    },
                    Err(_) => {},
                }
            }
        }
        i = i + 1;
    }
    proof {
        assert(elements_view(out@) + Seq::<(LinkView, Entries)>::empty() =~= elements_view(out@));
    }
    Ok(out)
}

// ---------------------------------------------------------------------------
// Writing the hyperlinks
// ---------------------------------------------------------------------------

/// The `hyperlink` elements of the links, in order.
pub open spec fn links_body(prefix: Seq<char>, els: Seq<Entries>) -> Seq<char>
    decreases els.len(),
{
    if els.len() == 0 {
        Seq::empty()
    } else {
        links_body(prefix, els.drop_last()) + render_link_spec(prefix, els.last())
    }
}

/// The attributes of each element.
pub open spec fn attrs_list(v: Seq<(LinkView, Entries)>) -> Seq<Entries> {
    Seq::new(v.len(), |i: int| v[i].1)
}

/// A `hyperlinks` element holding the links.
pub open spec fn links_container(prefix: Seq<char>, els: Seq<Entries>) -> Seq<char> {
    let n = element_name_spec(prefix, "hyperlinks"@);
    seq!['<'] + n + seq!['>'] + links_body(prefix, els) + crate::xml::close_tag_of(n)
}

/// The worksheet with its `hyperlinks` element written for the links: removed
/// when there are none, replaced, or inserted in schema order.
pub open spec fn render_links_spec(xml: Seq<char>, els: Seq<Entries>) -> Result<Seq<char>, ()> {
    match root_bounds_spec(xml, true) {
        None => Err(()),
        Some(root) => {
            let p = prefix_of(root.4);
            match root_child_spec(xml, root, "hyperlinks"@) {
                Err(_) => Err(()),
                Ok(range) => if els.len() == 0 {
                    match range {
                        Some(r) => Ok(splice(xml, r.0, r.1, Seq::empty())),
                        None => Ok(xml),
                    }
                } else {
                    match range {
                        Some(r) => Ok(splice(xml, r.0, r.1, links_container(p, els))),
                        None => crate::freeze::insert_child_spec(xml, root, "hyperlinks"@, links_container(p, els)),
                    }
                },
            }
        },
    }
}

/// `render_hyperlinks_into_sheet`: the worksheet with the links written.
pub fn render_hyperlinks_into_sheet(sheet_xml: &str, elements: &Vec<XlsxHyperlinkElement>) -> (r: CliResult<String>)
    ensures
        r is Ok <==> render_links_spec(sheet_xml@, attrs_list(elements_view(elements@))) is Ok,
        r is Ok ==> r->Ok_0@ == render_links_spec(sheet_xml@, attrs_list(elements_view(elements@)))->Ok_0,
        r is Err ==> r->Err_0.kind == ErrorKind::Unexpected,
{
    let root = xlsx_worksheet_root_bounds(sheet_xml)?;
    let prefix = xml_tag_prefix(root.tag_name.as_str());
    let range = direct_worksheet_child_range(sheet_xml, &root, "hyperlinks")?;
    if elements.len() == 0 {
        return match range {
            Some(r) => Ok(crate::xml::remove_xml_span(sheet_xml, r.start, r.end)),
            None => Ok(to_string(sheet_xml)),
        };
    }
    let mut body = String::new();
    let mut i: usize = 0;
    let ghost al = attrs_list(elements_view(elements@));
    proof {
        assert(body@ =~= links_body(prefix@, al.subrange(0, 0)));
    }
    while i < elements.len()
        invariant
            0 <= i <= elements.len(),
            al == attrs_list(elements_view(elements@)),
            body@ == links_body(prefix@, al.subrange(0, i as int)),
        decreases elements.len() - i,
    {
        let one = render_hyperlink_element(prefix.as_str(), &elements[i].attrs);
        body.append(one.as_str());
        proof {
            let pre = al.subrange(0, i + 1);
            assert(pre.drop_last() =~= al.subrange(0, i as int));
            assert(pre.last() == elements@[i as int].attrs.view());
        }
        i = i + 1;
    }
    proof {
        assert(al.subrange(0, al.len() as int) =~= al);
        reveal_strlit("<");
        reveal_strlit(">");
    }
    let n = element_name(prefix.as_str(), "hyperlinks");
    let closev = crate::elements::close_tag_chars(n.as_str());
    let close = string_from_chars(closev.as_slice());
    let container = concat5("<", n.as_str(), ">", body.as_str(), close.as_str());
    match range {
        Some(r) => Ok(crate::xml::replace_xml_span(sheet_xml, r.start, r.end, container.as_str())),
        None => crate::freeze::insert_worksheet_child(sheet_xml, &root, "hyperlinks", container.as_str()),
    }
}


// ---------------------------------------------------------------------------
// Mutations
// ---------------------------------------------------------------------------

/// The sheet a hyperlink command works on: the sheet, its part and its text.
#[derive(Debug)]
pub struct XlsxHyperlinkSheet {
    pub sheet: crate::sheets::WorkbookSheet,
    pub part: String,
    pub xml: String,
}

/// The options of `hyperlinks add`.
pub struct XlsxHyperlinkAddOptions<'a> {
    pub sheet: Option<&'a str>,
    pub cell: Option<&'a str>,
    pub url: Option<&'a str>,
    pub location: Option<&'a str>,
    pub display: Option<&'a str>,
    pub tooltip: Option<&'a str>,
    pub replace: bool,
    pub out: Option<&'a str>,
    pub backup: Option<&'a str>,
    pub dry_run: bool,
    pub no_validate: bool,
    pub in_place: bool,
}

/// The options of `hyperlinks update`.
pub struct XlsxHyperlinkUpdateOptions<'a> {
    pub sheet: Option<&'a str>,
    pub cell: Option<&'a str>,
    pub url: Option<&'a str>,
    pub set_url: bool,
    pub location: Option<&'a str>,
    pub set_location: bool,
    pub display: Option<&'a str>,
    pub set_display: bool,
    pub tooltip: Option<&'a str>,
    pub set_tooltip: bool,
    pub expect_url: Option<&'a str>,
    pub has_expect_url: bool,
    pub expect_location: Option<&'a str>,
    pub has_expect_location: bool,
    pub out: Option<&'a str>,
    pub backup: Option<&'a str>,
    pub dry_run: bool,
    pub no_validate: bool,
    pub in_place: bool,
}

/// The options of `hyperlinks delete`.
pub struct XlsxHyperlinkDeleteOptions<'a> {
    pub sheet: Option<&'a str>,
    pub cell: Option<&'a str>,
    pub expect_url: Option<&'a str>,
    pub has_expect_url: bool,
    pub expect_location: Option<&'a str>,
    pub has_expect_location: bool,
    pub out: Option<&'a str>,
    pub backup: Option<&'a str>,
    pub dry_run: bool,
    pub no_validate: bool,
    pub in_place: bool,
}

/// Where a mutation's result goes.
pub struct XlsxHyperlinkOutputOptions<'a> {
    pub out: Option<&'a str>,
    pub backup: Option<&'a str>,
    pub dry_run: bool,
    pub no_validate: bool,
    pub in_place: bool,
}

impl<'a> XlsxHyperlinkAddOptions<'a> {
    /// `XlsxHyperlinkAddOptions::output_options`.
    pub fn output_options(&self) -> (r: XlsxHyperlinkOutputOptions<'a>)
        ensures
            r.out == self.out && r.backup == self.backup && r.dry_run == self.dry_run
                && r.no_validate == self.no_validate && r.in_place == self.in_place,
    {
        XlsxHyperlinkOutputOptions {
            out: self.out,
            backup: self.backup,
            dry_run: self.dry_run,
            no_validate: self.no_validate,
            in_place: self.in_place,
        }
    }
}

impl<'a> XlsxHyperlinkUpdateOptions<'a> {
    /// `XlsxHyperlinkUpdateOptions::output_options`.
    pub fn output_options(&self) -> (r: XlsxHyperlinkOutputOptions<'a>)
        ensures
            r.out == self.out && r.backup == self.backup && r.dry_run == self.dry_run
                && r.no_validate == self.no_validate && r.in_place == self.in_place,
    {
        XlsxHyperlinkOutputOptions {
            out: self.out,
            backup: self.backup,
            dry_run: self.dry_run,
            no_validate: self.no_validate,
            in_place: self.in_place,
        }
    }
}

impl<'a> XlsxHyperlinkDeleteOptions<'a> {
    /// `XlsxHyperlinkDeleteOptions::output_options`.
    pub fn output_options(&self) -> (r: XlsxHyperlinkOutputOptions<'a>)
        ensures
            r.out == self.out && r.backup == self.backup && r.dry_run == self.dry_run
                && r.no_validate == self.no_validate && r.in_place == self.in_place,
    {
        XlsxHyperlinkOutputOptions {
            out: self.out,
            backup: self.backup,
            dry_run: self.dry_run,
            no_validate: self.no_validate,
            in_place: self.in_place,
        }
    }
}

/// What a mutation produced: the normalized reference, the link as written
/// (none after a delete), and the new texts of the parts, by part name.
#[derive(Debug)]
pub struct HyperlinkMutation {
    pub ref_: String,
    pub hyperlink: Option<XlsxHyperlink>,
    pub text_overrides: AttrMap,
}

pub type RelsView = Seq<(Seq<char>, Seq<char>, Seq<char>, Seq<char>)>;

pub open spec fn opt_text(o: Option<&str>) -> Seq<char> {
    match o {
        Some(s) => s@,
        None => Seq::empty(),
    }
}

fn opt_str(o: Option<&str>) -> (r: &str)
    ensures
        r@ == opt_text(o),
{
    match o {
        Some(s) => s,
        None => {
            proof {
                reveal_strlit("");
            }
            ""
        },
    }
}

/// The hyperlink relationship targets of relationships, by id.
pub open spec fn targets_of(rels: RelsView) -> Entries {
    map_from_pairs(hyperlink_pairs(rels))
}

/// The index of the first link view from `i` on whose reference normalizes to `norm`.
pub open spec fn first_view_with_ref(els: Seq<(LinkView, Entries)>, norm: Seq<char>, i: int) -> int
    decreases els.len() - i,
{
    if i < 0 || i >= els.len() {
        -1
    } else if hyperlink_ref_spec(els[i].0.0) == Some(norm) {
        i
    } else {
        first_view_with_ref(els, norm, i + 1)
    }
}

proof fn lemma_first_view_with_ref(v: Seq<XlsxHyperlinkElement>, norm: Seq<char>, i: int)
    requires
        0 <= i <= v.len(),
    ensures
        first_view_with_ref(elements_view(v), norm, i) == first_link_with_ref(v, norm, i),
        first_link_with_ref(v, norm, i) == -1 || (i <= first_link_with_ref(v, norm, i) < v.len()),
    decreases v.len() - i,
{
    if i < v.len() {
        assert(elements_view(v)[i] == element_view(v[i]));
        lemma_first_view_with_ref(v, norm, i + 1);
    }
}

/// The new texts: the worksheet, and the relationships part when it changed.
pub open spec fn overrides_spec(part: Seq<char>, updated: Seq<char>, changed: bool, rels: RelsView) -> Entries {
    let m = sorted_insert(Seq::empty(), part, updated);
    if changed {
        sorted_insert(m, crate::rels::rels_part_spec(part), crate::rels::render_rels_spec(rels))
    } else {
        m
    }
}

fn make_overrides(part: &str, updated: String, changed: bool, rels: &Vec<RelationshipEntry>) -> (r: AttrMap)
    ensures
        r.view() == overrides_spec(part@, updated@, changed, rels_view(rels@)),
{
    let mut m = AttrMap::new();
    m.insert(to_string(part), updated);
    if changed {
        m.insert(crate::rels::relationships_part_for(part), crate::rels::render_relationships(rels));
    }
    m
}

/// The attributes of a new link.
pub open spec fn new_link_attrs(norm: Seq<char>, url: Seq<char>, location: Seq<char>, rel_id: Seq<char>, display: Seq<char>, tooltip: Seq<char>) -> Entries {
    let a0 = sorted_insert(Seq::empty(), "ref"@, norm);
    let a1 = if url.len() > 0 {
        sorted_insert(a0, "r:id"@, rel_id)
    } else {
        sorted_insert(a0, "location"@, location)
    };
    let a2 = if display.len() > 0 {
        sorted_insert(a1, "display"@, display)
    } else {
        a1
    };
    if tooltip.len() > 0 {
        sorted_insert(a2, "tooltip"@, tooltip)
    } else {
        a2
    }
}

/// The links and relationships once an existing link on the reference is
/// dropped (with `replace`), and whether the relationships changed.
pub open spec fn add_prepare(els: Seq<(LinkView, Entries)>, rels: RelsView, norm: Seq<char>, replace: bool) -> Result<(Seq<(LinkView, Entries)>, RelsView, bool), ErrorKind> {
    let idx = first_view_with_ref(els, norm, 0);
    if idx == -1 {
        Ok((els, rels, false))
    } else if !replace {
        Err(ErrorKind::InvalidArgs)
    } else {
        let rest = els.remove(idx);
        let r2 = drop_rel_spec(rels, els[idx].0.5, rest, els[idx].0.0);
        Ok((rest, r2, r2.len() != rels.len()))
    }
}

/// The relationship id a new external link gets.
pub open spec fn fresh_rel_id(rels: RelsView) -> Seq<char> {
    "rId"@ + crate::text::decimal(crate::rels::max_rel_number(rels) + 1)
}

/// What adding a link does: the normalized reference, the link, and the new
/// part texts; or the kind of the error.
pub open spec fn add_spec(
    xml: Seq<char>,
    part: Seq<char>,
    rels: RelsView,
    raw_ref: Seq<char>,
    url: Seq<char>,
    location: Seq<char>,
    display: Seq<char>,
    tooltip: Seq<char>,
    replace: bool,
) -> Result<(Seq<char>, LinkView, Entries), ErrorKind> {
    if (url.len() == 0) == (location.len() == 0) {
        Err(ErrorKind::InvalidArgs)
    } else {
        match hyperlink_ref_spec(raw_ref) {
            None => Err(ErrorKind::InvalidArgs),
            Some(norm) => match parse_links_spec(xml, targets_of(rels)) {
                Err(_) => Err(ErrorKind::Unexpected),
                Ok(els) => match add_prepare(els, rels, norm, replace) {
                    Err(e) => Err(e),
                    Ok(p) => {
                        let els2 = p.0;
                        let rels2 = p.1;
                        let rid = fresh_rel_id(rels2);
                        let ext = url.len() > 0;
                        let rels3 = if ext {
                            rels2.push((rid, rel_hyperlink(), url, "External"@))
                        } else {
                            rels2
                        };
                        let link: LinkView = (
                            norm,
                            if ext { url } else { Seq::empty() },
                            if ext { Seq::empty() } else { location },
                            display,
                            tooltip,
                            if ext { rid } else { Seq::empty() },
                            false,
                        );
                        let attrs = new_link_attrs(norm, url, location, rid, display, tooltip);
                        let els3 = els2.push((link, attrs));
                        match render_links_spec(xml, attrs_list(els3)) {
                            Err(_) => Err(ErrorKind::Unexpected),
                            Ok(u) => {
                                let u2 = if ext {
                                    ensure_r_ns_spec(u)
                                } else {
                                    Ok(u)
                                };
                                match u2 {
                                    Err(_) => Err(ErrorKind::Unexpected),
                                    Ok(u3) => Ok((norm, link, overrides_spec(part, u3, p.2 || ext, rels3))),
                                }
                            },
                        }
                    },
                },
            },
        }
    }
}

pub open spec fn mutation_view(m: HyperlinkMutation) -> (Seq<char>, Option<LinkView>, Entries) {
    (
        m.ref_@,
        match m.hyperlink {
            Some(l) => Some(link_view(l)),
            None => None,
        },
        m.text_overrides.view(),
    )
}

/// The message an add stops with when it is not given exactly one of a url
/// and a location, or when the reference already has a link and no
/// replacement is asked for; `None` otherwise.
pub open spec fn add_message_spec(
    xml: Seq<char>,
    rels: RelsView,
    raw_ref: Seq<char>,
    url: Seq<char>,
    location: Seq<char>,
    replace: bool,
) -> Option<Seq<char>> {
    if (url.len() == 0) == (location.len() == 0) {
        Some("specify exactly one of url or location"@)
    } else {
        match hyperlink_ref_spec(raw_ref) {
            None => None,
            Some(norm) => match parse_links_spec(xml, targets_of(rels)) {
                Err(_) => None,
                Ok(els) => if first_view_with_ref(els, norm, 0) != -1 && !replace {
                    Some("a hyperlink already exists on "@ + norm + " (use update)"@)
                } else {
                    None
                },
            },
        }
    }
}

#[verifier::rlimit(60)]
/// `add_hyperlink`: a new link on a cell or range, to a URL (through a new
/// relationship) or to a location in the workbook. The worksheet's current
/// relationships are given.
pub fn add_hyperlink(
    context: &XlsxHyperlinkSheet,
    rels: Vec<RelationshipEntry>,
    raw_ref: &str,
    options: &XlsxHyperlinkAddOptions,
) -> (r: CliResult<HyperlinkMutation>)
    ensures
        r is Ok <==> add_spec(context.xml@, context.part@, rels_view(rels@), raw_ref@, opt_text(options.url), opt_text(options.location), opt_text(options.display), opt_text(options.tooltip), options.replace) is Ok,
        r is Ok ==> {
            let s = add_spec(context.xml@, context.part@, rels_view(rels@), raw_ref@, opt_text(options.url), opt_text(options.location), opt_text(options.display), opt_text(options.tooltip), options.replace)->Ok_0;
            mutation_view(r->Ok_0) == (s.0, Some(s.1), s.2)
        },
        r is Err ==> add_spec(context.xml@, context.part@, rels_view(rels@), raw_ref@, opt_text(options.url), opt_text(options.location), opt_text(options.display), opt_text(options.tooltip), options.replace) == Err::<(Seq<char>, LinkView, Entries), ErrorKind>(r->Err_0.kind),
        add_message_spec(context.xml@, rels_view(rels@), raw_ref@, opt_text(options.url), opt_text(options.location), options.replace) is Some
            ==> r is Err && r->Err_0.message@ == add_message_spec(context.xml@, rels_view(rels@), raw_ref@, opt_text(options.url), opt_text(options.location), options.replace)->Some_0,
{
    let mut rels = rels;
    let url = opt_str(options.url);
    let location = opt_str(options.location);
    let display = opt_str(options.display);
    let tooltip = opt_str(options.tooltip);
    if (url.unicode_len() == 0) == (location.unicode_len() == 0) {
        return Err(CliError::invalid_args(to_string("specify exactly one of url or location")));
    }
    let norm_ref = normalize_hyperlink_ref(raw_ref)?;
    let ghost rels0 = rels_view(rels@);
    let rel_targets = hyperlink_rel_targets(&rels);
    let mut elements = match parse_hyperlink_elements(context.xml.as_str(), &rel_targets) {
        Ok(e) => e,
        Err(e) => {
            return Err(e);
        },
    };
    let ghost els0 = elements_view(elements@);
    let mut rels_changed = false;
    proof {
        lemma_first_view_with_ref(elements@, norm_ref@, 0);
    }
    match find_hyperlink_index(&elements, norm_ref.as_str()) {
        Some(index) => {
            if !options.replace {
                return Err(CliError::invalid_args(concat3("a hyperlink already exists on ", norm_ref.as_str(), " (use update)")));
            }
            let existing = elements.remove(index);
            proof {
                assert(elements_view(elements@) =~= els0.remove(index as int));
                assert(els0[index as int] == element_view(existing));
            }
            let changed = remove_hyperlink_rel_if_unused(&mut rels, existing.info.rel_id.as_str(), &elements, existing.info.ref_.as_str());
            rels_changed = changed;
        },
        None => {},
    }
    let ghost rels2 = rels_view(rels@);
    let ghost els2 = elements_view(elements@);
    let mut attrs = AttrMap::new();
    attrs.insert(to_string("ref"), norm_ref.clone());
    let mut result = XlsxHyperlink {
        ref_: norm_ref.clone(),
        url: empty_string(),
        location: empty_string(),
        display: to_string(display),
        tooltip: to_string(tooltip),
        rel_id: empty_string(),
        broken: false,
    };
    if url.unicode_len() > 0 {
        let rel_id = crate::rels::allocate_relationship_id(&rels);
        rels.push(RelationshipEntry {
            id: rel_id.clone(),
            rel_type: to_string("http://schemas.openxmlformats.org/officeDocument/2006/relationships/hyperlink"),
            target: to_string(url),
            target_mode: to_string("External"),
        });
        rels_changed = true;
        attrs.insert(to_string("r:id"), rel_id.clone());
        result.url = to_string(url);
        result.rel_id = rel_id;
        proof {
            reveal_strlit("http://schemas.openxmlformats.org/officeDocument/2006/relationships/hyperlink");
            assert(rels_view(rels@) =~= rels2.push((fresh_rel_id(rels2), rel_hyperlink(), url@, "External"@)));
        }
    } else {
        attrs.insert(to_string("location"), to_string(location));
        result.location = to_string(location);
    }
    if display.unicode_len() > 0 {
        attrs.insert(to_string("display"), to_string(display));
    }
    if tooltip.unicode_len() > 0 {
        attrs.insert(to_string("tooltip"), to_string(tooltip));
    }
    let link = result.clone_link();
    let ghost lv = link_view(result);
    let ghost av = attrs.view();
    elements.push(XlsxHyperlinkElement { info: result, attrs });
    proof {
        assert(elements_view(elements@) =~= els2.push((lv, av)));
    }
    let mut updated_xml = render_hyperlinks_into_sheet(context.xml.as_str(), &elements)?;
    if url.unicode_len() > 0 {
        updated_xml = ensure_relationships_namespace(updated_xml.as_str())?;
    }
    let text_overrides = make_overrides(context.part.as_str(), updated_xml, rels_changed, &rels);
    Ok(HyperlinkMutation { ref_: norm_ref, hyperlink: Some(link), text_overrides })
}


/// What deleting the link on a reference does: the normalized reference and
/// the new part texts, or the kind of the error.
pub open spec fn delete_spec(
    xml: Seq<char>,
    part: Seq<char>,
    rels: RelsView,
    raw_ref: Seq<char>,
    has_expect_url: bool,
    expect_url: Seq<char>,
    has_expect_location: bool,
    expect_location: Seq<char>,
) -> Result<(Seq<char>, Entries), ErrorKind> {
    match hyperlink_ref_spec(raw_ref) {
        None => Err(ErrorKind::InvalidArgs),
        Some(norm) => match parse_links_spec(xml, targets_of(rels)) {
            Err(_) => Err(ErrorKind::Unexpected),
            Ok(els) => {
                let idx = first_view_with_ref(els, norm, 0);
                if idx == -1 {
                    Err(ErrorKind::InvalidArgs)
                } else if !guards_hold(els[idx].0, has_expect_url, expect_url, has_expect_location, expect_location) {
                    Err(ErrorKind::InvalidArgs)
                } else {
                    let rest = els.remove(idx);
                    let r2 = drop_rel_spec(rels, els[idx].0.5, rest, els[idx].0.0);
                    match render_links_spec(xml, attrs_list(rest)) {
                        Err(_) => Err(ErrorKind::Unexpected),
                        Ok(u) => Ok((norm, overrides_spec(part, u, r2.len() != rels.len(), r2))),
                    }
                }
            },
        },
    }
}

/// The message a delete stops with when the reference has no link, or when
/// a guard fails on the link it has; `None` otherwise.
pub open spec fn delete_message_spec(
    xml: Seq<char>,
    rels: RelsView,
    raw_ref: Seq<char>,
    has_expect_url: bool,
    expect_url: Seq<char>,
    has_expect_location: bool,
    expect_location: Seq<char>,
) -> Option<Seq<char>> {
    match hyperlink_ref_spec(raw_ref) {
        None => None,
        Some(norm) => match parse_links_spec(xml, targets_of(rels)) {
            Err(_) => None,
            Ok(els) => {
                let idx = first_view_with_ref(els, norm, 0);
                if idx == -1 {
                    Some("no hyperlink found on "@ + norm)
                } else if !guards_hold(els[idx].0, has_expect_url, expect_url, has_expect_location, expect_location) {
                    Some(guard_failure_message(els[idx].0, has_expect_url, expect_url, expect_location))
                } else {
                    None
                }
            },
        },
    }
}

/// `delete_hyperlink`: removes the link on a reference, and its relationship
/// when no other link uses it.
pub fn delete_hyperlink(
    context: &XlsxHyperlinkSheet,
    rels: Vec<RelationshipEntry>,
    raw_ref: &str,
    options: &XlsxHyperlinkDeleteOptions,
) -> (r: CliResult<HyperlinkMutation>)
    ensures
        r is Ok <==> delete_spec(context.xml@, context.part@, rels_view(rels@), raw_ref@, options.has_expect_url, opt_text(options.expect_url), options.has_expect_location, opt_text(options.expect_location)) is Ok,
        r is Ok ==> {
            let s = delete_spec(context.xml@, context.part@, rels_view(rels@), raw_ref@, options.has_expect_url, opt_text(options.expect_url), options.has_expect_location, opt_text(options.expect_location))->Ok_0;
            mutation_view(r->Ok_0) == (s.0, None::<LinkView>, s.1)
        },
        r is Err ==> delete_spec(context.xml@, context.part@, rels_view(rels@), raw_ref@, options.has_expect_url, opt_text(options.expect_url), options.has_expect_location, opt_text(options.expect_location)) == Err::<(Seq<char>, Entries), ErrorKind>(r->Err_0.kind),
        delete_message_spec(context.xml@, rels_view(rels@), raw_ref@, options.has_expect_url, opt_text(options.expect_url), options.has_expect_location, opt_text(options.expect_location)) is Some
            ==> r is Err && r->Err_0.message@ == delete_message_spec(context.xml@, rels_view(rels@), raw_ref@, options.has_expect_url, opt_text(options.expect_url), options.has_expect_location, opt_text(options.expect_location))->Some_0,
{
    let mut rels = rels;
    let norm_ref = normalize_hyperlink_ref(raw_ref)?;
    let ghost rels0 = rels_view(rels@);
    let rel_targets = hyperlink_rel_targets(&rels);
    let mut elements = parse_hyperlink_elements(context.xml.as_str(), &rel_targets)?;
    let ghost els0 = elements_view(elements@);
    proof {
        lemma_first_view_with_ref(elements@, norm_ref@, 0);
    }
    let index = match find_hyperlink_index(&elements, norm_ref.as_str()) {
        Some(i) => i,
        None => {
            return Err(CliError::invalid_args(concat2("no hyperlink found on ", norm_ref.as_str())));
        },
    };
    proof {
        assert(els0[index as int] == element_view(elements@[index as int]));
    }
    check_hyperlink_guards(
        &elements[index].info,
        options.has_expect_url,
        opt_str(options.expect_url),
        options.has_expect_location,
        opt_str(options.expect_location),
    )?;
    let removed = elements.remove(index);
    proof {
        assert(elements_view(elements@) =~= els0.remove(index as int));
    }
    let rels_changed = remove_hyperlink_rel_if_unused(&mut rels, removed.info.rel_id.as_str(), &elements, removed.info.ref_.as_str());
    let updated_xml = render_hyperlinks_into_sheet(context.xml.as_str(), &elements)?;
    let text_overrides = make_overrides(context.part.as_str(), updated_xml, rels_changed, &rels);
    Ok(HyperlinkMutation { ref_: norm_ref, hyperlink: None, text_overrides })
}


/// The relationships with every hyperlink relationship of an id pointed at a
/// new external target.
pub open spec fn retarget_rels(v: RelsView, rel_id: Seq<char>, url: Seq<char>) -> RelsView {
    Seq::new(v.len(), |i: int| if v[i].0 == rel_id && v[i].1 == rel_hyperlink() {
        (v[i].0, v[i].1, url, "External"@)
    } else {
        v[i]
    })
}

/// Whether a hyperlink relationship has the id.
pub open spec fn has_hyperlink_rel(v: RelsView, rel_id: Seq<char>) -> bool {
    exists|j: int| 0 <= j < v.len() && (#[trigger] v[j]).0 == rel_id && v[j].1 == rel_hyperlink()
}

fn retarget_hyperlink_rels(rels: &mut Vec<RelationshipEntry>, rel_id: &str, url: &str) -> (r: bool)
    ensures
        rels_view(final(rels)@) == retarget_rels(rels_view(old(rels)@), rel_id@, url@),
        r == has_hyperlink_rel(rels_view(old(rels)@), rel_id@),
{
    let ghost v = rels_view(rels@);
    let mut out: Vec<RelationshipEntry> = Vec::new();
    let mut changed = false;
    let mut i: usize = 0;
    proof {
        reveal_strlit("http://schemas.openxmlformats.org/officeDocument/2006/relationships/hyperlink");
        reveal_strlit("External");
    }
    while i < rels.len()
        invariant
            0 <= i <= rels.len(),
            v == rels_view(rels@),
            rels_view(out@) == retarget_rels(v, rel_id@, url@).subrange(0, i as int),
            changed == exists|j: int| 0 <= j < i && (#[trigger] v[j]).0 == rel_id@ && v[j].1 == rel_hyperlink(),
        decreases rels.len() - i,
    {
        proof {
            assert(v[i as int] == rel_view(rels@[i as int]));
            reveal_strlit("http://schemas.openxmlformats.org/officeDocument/2006/relationships/hyperlink");
            reveal_strlit("External");
        }
        let ghost before = rels_view(out@);
        let ghost rt = retarget_rels(v, rel_id@, url@);
        if str_eq(rels[i].id.as_str(), rel_id) && str_eq(rels[i].rel_type.as_str(), "http://schemas.openxmlformats.org/officeDocument/2006/relationships/hyperlink") {
            let e = RelationshipEntry {
                id: rels[i].id.clone(),
                rel_type: rels[i].rel_type.clone(),
                target: to_string(url),
                target_mode: to_string("External"),
            };
            proof {
                assert(rel_view(e) == rt[i as int]);
            }
            out.push(e);
            changed = true;
        } else {
            let e = rels[i].clone_entry();
            proof {
                assert(rel_view(e) == rt[i as int]);
            }
            out.push(e);
        }
        proof {
            assert(rels_view(out@) =~= before.push(rt[i as int]));
            assert(rt.subrange(0, i + 1) =~= rt.subrange(0, i as int).push(rt[i as int]));
        }
        i = i + 1;
    }
    proof {
        assert(retarget_rels(v, rel_id@, url@).subrange(0, v.len() as int) =~= retarget_rels(v, rel_id@, url@));
    }
    *rels = out;
    changed
}

/// The attributes and relationships after `--url`: `location` dropped, and
/// the link's relationship retargeted, or a new one made.
pub open spec fn update_url_step(a: Entries, rels: RelsView, url: Seq<char>) -> (Entries, RelsView, bool) {
    let a1 = remove_at(a, first_local(a, "location"@, 0));
    let rid = rel_id_spec(a1);
    if rid.len() == 0 {
        let nid = fresh_rel_id(rels);
        (sorted_insert(a1, "r:id"@, nid), rels.push((nid, rel_hyperlink(), url, "External"@)), true)
    } else {
        (a1, retarget_rels(rels, rid, url), has_hyperlink_rel(rels, rid))
    }
}

/// The attributes and relationships after `--location`: the relationship id
/// dropped (and the relationship, when unused), and `location` set.
pub open spec fn update_location_step(a: Entries, rels: RelsView, els: Seq<(LinkView, Entries)>, exclude: Seq<char>, location: Seq<char>) -> (Entries, RelsView, bool) {
    let rid = rel_id_spec(a);
    if rid.len() > 0 {
        let r2 = drop_rel_spec(rels, rid, els, exclude);
        (sorted_insert(remove_at(a, first_rel_id(a, 0)), "location"@, location), r2, r2.len() != rels.len())
    } else {
        (sorted_insert(a, "location"@, location), rels, false)
    }
}

/// An attribute set when the text is not empty, else dropped.
pub open spec fn set_or_remove(a: Entries, local: Seq<char>, v: Seq<char>) -> Entries {
    if v.len() > 0 {
        sorted_insert(a, local, v)
    } else {
        remove_at(a, first_local(a, local, 0))
    }
}

/// The updated attributes and relationships of the link at `idx`, and
/// whether the relationships changed.
pub open spec fn update_attrs_spec(
    els: Seq<(LinkView, Entries)>,
    idx: int,
    rels: RelsView,
    set_url: bool,
    url: Seq<char>,
    set_location: bool,
    location: Seq<char>,
    set_display: bool,
    display: Seq<char>,
    set_tooltip: bool,
    tooltip: Seq<char>,
) -> (Entries, RelsView, bool) {
    let s1 = if set_url {
        update_url_step(els[idx].1, rels, url)
    } else {
        (els[idx].1, rels, false)
    };
    let s2 = if set_location {
        let l = update_location_step(s1.0, s1.1, els, els[idx].0.0, location);
        (l.0, l.1, s1.2 || l.2)
    } else {
        s1
    };
    let a3 = if set_display {
        set_or_remove(s2.0, "display"@, display)
    } else {
        s2.0
    };
    let a4 = if set_tooltip {
        set_or_remove(a3, "tooltip"@, tooltip)
    } else {
        a3
    };
    (a4, s2.1, s2.2)
}

/// What updating the link on a reference does: the normalized reference, the
/// link as read back from the written worksheet, and the new part texts; or
/// the kind of the error.
pub open spec fn update_spec(
    xml: Seq<char>,
    part: Seq<char>,
    rels: RelsView,
    raw_ref: Seq<char>,
    set_url: bool,
    url: Seq<char>,
    set_location: bool,
    location: Seq<char>,
    set_display: bool,
    display: Seq<char>,
    set_tooltip: bool,
    tooltip: Seq<char>,
    has_expect_url: bool,
    expect_url: Seq<char>,
    has_expect_location: bool,
    expect_location: Seq<char>,
) -> Result<(Seq<char>, LinkView, Entries), ErrorKind> {
    if set_url && set_location {
        Err(ErrorKind::InvalidArgs)
    } else {
        match hyperlink_ref_spec(raw_ref) {
            None => Err(ErrorKind::InvalidArgs),
            Some(norm) => match parse_links_spec(xml, targets_of(rels)) {
                Err(_) => Err(ErrorKind::Unexpected),
                Ok(els) => {
                    let idx = first_view_with_ref(els, norm, 0);
                    if idx == -1 {
                        Err(ErrorKind::InvalidArgs)
                    } else if !guards_hold(els[idx].0, has_expect_url, expect_url, has_expect_location, expect_location) {
                        Err(ErrorKind::InvalidArgs)
                    } else {
                        let st = update_attrs_spec(els, idx, rels, set_url, url, set_location, location, set_display, display, set_tooltip, tooltip);
                        let els2 = els.update(idx, (els[idx].0, st.0));
                        match render_links_spec(xml, attrs_list(els2)) {
                            Err(_) => Err(ErrorKind::Unexpected),
                            Ok(u) => {
                                let u2 = if set_url {
                                    ensure_r_ns_spec(u)
                                } else {
                                    Ok(u)
                                };
                                match u2 {
                                    Err(_) => Err(ErrorKind::Unexpected),
                                    Ok(u3) => match parse_links_spec(u3, targets_of(st.1)) {
                                        Err(_) => Err(ErrorKind::Unexpected),
                                        Ok(back) => {
                                            let j = first_view_with_ref(back, norm, 0);
                                            if j == -1 {
                                                Err(ErrorKind::Unexpected)
                                            } else {
                                                Ok((norm, back[j].0, overrides_spec(part, u3, st.2, st.1)))
                                            }
                                        },
                                    },
                                }
                            },
                        }
                    }
                },
            },
        }
    }
}

/// Whether two lists of links say the same, attributes aside.
pub open spec fn same_links(a: Seq<(LinkView, Entries)>, b: Seq<(LinkView, Entries)>) -> bool {
    a.len() == b.len() && forall|i: int| 0 <= i < a.len() ==> (#[trigger] a[i]).0 == b[i].0
}

proof fn lemma_drop_rel_same_links(v: RelsView, rel_id: Seq<char>, a: Seq<(LinkView, Entries)>, b: Seq<(LinkView, Entries)>, exclude: Seq<char>)
    requires
        same_links(a, b),
    ensures
        drop_rel_spec(v, rel_id, a, exclude) == drop_rel_spec(v, rel_id, b, exclude),
{
    if rel_used_elsewhere(a, rel_id, exclude) {
        let j = choose|j: int| 0 <= j < a.len() && (#[trigger] a[j]).0.5 == rel_id && a[j].0.0 != exclude;
        assert(a[j].0 == b[j].0);
        assert(rel_used_elsewhere(b, rel_id, exclude));
    }
    if rel_used_elsewhere(b, rel_id, exclude) {
        let j = choose|j: int| 0 <= j < b.len() && (#[trigger] b[j]).0.5 == rel_id && b[j].0.0 != exclude;
        assert(a[j].0 == b[j].0);
        assert(rel_used_elsewhere(a, rel_id, exclude));
    }
}

fn set_or_remove_attr(attrs: &mut AttrMap, local: &str, value: &str)
    ensures
        final(attrs).view() == set_or_remove(old(attrs).view(), local@, value@),
{
    if value.unicode_len() > 0 {
        attrs.insert(to_string(local), to_string(value));
    } else {
        remove_attr(attrs, local);
    }
}


fn update_url_attrs(el: &mut XlsxHyperlinkElement, rels: &mut Vec<RelationshipEntry>, url: &str) -> (r: bool)
    ensures
        (final(el).attrs.view(), rels_view(final(rels)@), r) == update_url_step(old(el).attrs.view(), rels_view(old(rels)@), url@),
        link_view(final(el).info) == link_view(old(el).info),
{
    remove_attr(&mut el.attrs, "location");
    let rel_id = rel_id_attr(&el.attrs);
    if rel_id.unicode_len() == 0 {
        let new_rel_id = crate::rels::allocate_relationship_id(rels);
        let ghost rb = rels_view(rels@);
        rels.push(RelationshipEntry {
            id: new_rel_id.clone(),
            rel_type: to_string("http://schemas.openxmlformats.org/officeDocument/2006/relationships/hyperlink"),
            target: to_string(url),
            target_mode: to_string("External"),
        });
        proof {
            reveal_strlit("http://schemas.openxmlformats.org/officeDocument/2006/relationships/hyperlink");
            assert(rels_view(rels@) =~= rb.push((fresh_rel_id(rb), rel_hyperlink(), url@, "External"@)));
        }
        el.attrs.insert(to_string("r:id"), new_rel_id);
        true
    } else {
        retarget_hyperlink_rels(rels, rel_id.as_str(), url)
    }
}

fn update_location_attrs(
    elements: &mut Vec<XlsxHyperlinkElement>,
    index: usize,
    rels: &mut Vec<RelationshipEntry>,
    location: &str,
    Ghost(els0): Ghost<Seq<(LinkView, Entries)>>,
) -> (r: bool)
    requires
        index < old(elements)@.len(),
        same_links(elements_view(old(elements)@), els0),
    ensures
        final(elements)@.len() == old(elements)@.len(),
        forall|i: int| 0 <= i < old(elements)@.len() && i != index ==> elements_view(final(elements)@)[i] == elements_view(old(elements)@)[i],
        link_view(final(elements)@[index as int].info) == link_view(old(elements)@[index as int].info),
        ({
            let l = update_location_step(old(elements)@[index as int].attrs.view(), rels_view(old(rels)@), els0, link_view(old(elements)@[index as int].info).0, location@);
            final(elements)@[index as int].attrs.view() == l.0 && rels_view(final(rels)@) == l.1 && r == l.2
        }),
{
    let ghost ev0 = elements_view(elements@);
    let rel_id = rel_id_attr(&elements[index].attrs);
    let mut changed = false;
    let mut el = elements.remove(index);
    if rel_id.unicode_len() > 0 {
        let ref_to_exclude = el.info.ref_.clone();
        elements.insert(index, el);
        proof {
            assert(elements_view(elements@) =~= ev0);
            lemma_drop_rel_same_links(rels_view(rels@), rel_id@, ev0, els0, ref_to_exclude@);
        }
        changed = remove_hyperlink_rel_if_unused(rels, rel_id.as_str(), elements, ref_to_exclude.as_str());
        el = elements.remove(index);
        remove_rel_id_attr(&mut el.attrs);
    }
    el.attrs.insert(to_string("location"), to_string(location));
    elements.insert(index, el);
    proof {
        assert forall|i: int| 0 <= i < ev0.len() && i != index implies elements_view(elements@)[i] == ev0[i] by {
            if i < index {
                assert(elements_view(elements@)[i] == ev0[i]);
            } else {
                assert(elements_view(elements@)[i] == ev0[i]);
            }
        }
    }
    changed
}

fn update_element(
    elements: &mut Vec<XlsxHyperlinkElement>,
    index: usize,
    rels: &mut Vec<RelationshipEntry>,
    options: &XlsxHyperlinkUpdateOptions,
) -> (r: bool)
    requires
        index < old(elements)@.len(),
    ensures
        ({
            let st = update_attrs_spec(elements_view(old(elements)@), index as int, rels_view(old(rels)@), options.set_url, opt_text(options.url), options.set_location, opt_text(options.location), options.set_display, opt_text(options.display), options.set_tooltip, opt_text(options.tooltip));
            &&& elements_view(final(elements)@) == elements_view(old(elements)@).update(index as int, (elements_view(old(elements)@)[index as int].0, st.0))
            &&& rels_view(final(rels)@) == st.1
            &&& r == st.2
        }),
{
    let ghost els0 = elements_view(elements@);
    let ghost rels0 = rels_view(rels@);
    let ghost idx = index as int;
    let mut rels_changed = false;
    if options.set_url {
        let mut el = elements.remove(index);
        rels_changed = update_url_attrs(&mut el, rels, opt_str(options.url));
        elements.insert(index, el);
    }
    let ghost s1 = if options.set_url {
        update_url_step(els0[idx].1, rels0, opt_text(options.url))
    } else {
        (els0[idx].1, rels0, false)
    };
    proof {
        assert(elements_view(elements@) =~= els0.update(idx, (els0[idx].0, s1.0)));
        assert(same_links(elements_view(elements@), els0)) by {
            assert forall|i: int| 0 <= i < els0.len() implies (#[trigger] elements_view(elements@)[i]).0 == els0[i].0 by {
                if i != idx {
                    assert(elements_view(elements@)[i] == els0[i]);
                }
            }
        }
    }
    proof {
        assert(elements_view(elements@)[idx] == (els0[idx].0, s1.0));
        assert(elements@[index as int].attrs.view() == s1.0);
        assert(link_view(elements@[index as int].info) == els0[idx].0);
    }
    if options.set_location {
        let changed = update_location_attrs(elements, index, rels, opt_str(options.location), Ghost(els0));
        rels_changed = rels_changed || changed;
    }
    let ghost s2 = if options.set_location {
        let l = update_location_step(s1.0, s1.1, els0, els0[idx].0.0, opt_text(options.location));
        (l.0, l.1, s1.2 || l.2)
    } else {
        s1
    };
    let ghost ev2 = elements_view(elements@);
    proof {
        assert(ev2.len() == els0.len());
        assert(elements@[index as int].attrs.view() == s2.0);
        assert(link_view(elements@[index as int].info) == els0[idx].0);
        assert(rels_view(rels@) == s2.1);
        assert(rels_changed == s2.2);
        assert(forall|i: int| 0 <= i < els0.len() && i != idx ==> ev2[i] == els0[i]);
    }
    let mut el = elements.remove(index);
    let ghost a2 = el.attrs.view();
    if options.set_display {
        set_or_remove_attr(&mut el.attrs, "display", opt_str(options.display));
    }
    let ghost a3 = if options.set_display {
        set_or_remove(a2, "display"@, opt_text(options.display))
    } else {
        a2
    };
    proof {
        assert(el.attrs.view() == a3);
    }
    if options.set_tooltip {
        set_or_remove_attr(&mut el.attrs, "tooltip", opt_str(options.tooltip));
    }
    let ghost a4 = if options.set_tooltip {
        set_or_remove(a3, "tooltip"@, opt_text(options.tooltip))
    } else {
        a3
    };
    proof {
        assert(el.attrs.view() == a4);
        assert(link_view(el.info) == els0[idx].0);
        assert(a4 == update_attrs_spec(els0, idx, rels0, options.set_url, opt_text(options.url), options.set_location, opt_text(options.location), options.set_display, opt_text(options.display), options.set_tooltip, opt_text(options.tooltip)).0);
    }
    elements.insert(index, el);
    proof {
        assert(elements_view(elements@) =~= els0.update(idx, (els0[idx].0, a4)));
    }
    rels_changed
}

/// The message of the error that `update_hyperlink` answers with, where one
/// of its checks before the rewrite refuses the request.
pub open spec fn update_message_spec(
    xml: Seq<char>,
    rels: RelsView,
    raw_ref: Seq<char>,
    set_url: bool,
    set_location: bool,
    has_expect_url: bool,
    expect_url: Seq<char>,
    has_expect_location: bool,
    expect_location: Seq<char>,
) -> Option<Seq<char>> {
    if set_url && set_location {
        Some("specify only one of url or location"@)
    } else {
        delete_message_spec(xml, rels, raw_ref, has_expect_url, expect_url, has_expect_location, expect_location)
    }
}

#[verifier::rlimit(60)]
/// `update_hyperlink`: changes the target, location, display text or tooltip
/// of the link on a reference, keeping its relationships in step.
pub fn update_hyperlink(
    context: &XlsxHyperlinkSheet,
    rels: Vec<RelationshipEntry>,
    raw_ref: &str,
    options: &XlsxHyperlinkUpdateOptions,
) -> (r: CliResult<HyperlinkMutation>)
    ensures
        r is Ok <==> update_spec(context.xml@, context.part@, rels_view(rels@), raw_ref@, options.set_url, opt_text(options.url), options.set_location, opt_text(options.location), options.set_display, opt_text(options.display), options.set_tooltip, opt_text(options.tooltip), options.has_expect_url, opt_text(options.expect_url), options.has_expect_location, opt_text(options.expect_location)) is Ok,
        r is Ok ==> {
            let s = update_spec(context.xml@, context.part@, rels_view(rels@), raw_ref@, options.set_url, opt_text(options.url), options.set_location, opt_text(options.location), options.set_display, opt_text(options.display), options.set_tooltip, opt_text(options.tooltip), options.has_expect_url, opt_text(options.expect_url), options.has_expect_location, opt_text(options.expect_location))->Ok_0;
            mutation_view(r->Ok_0) == (s.0, Some(s.1), s.2)
        },
        r is Err ==> update_spec(context.xml@, context.part@, rels_view(rels@), raw_ref@, options.set_url, opt_text(options.url), options.set_location, opt_text(options.location), options.set_display, opt_text(options.display), options.set_tooltip, opt_text(options.tooltip), options.has_expect_url, opt_text(options.expect_url), options.has_expect_location, opt_text(options.expect_location)) == Err::<(Seq<char>, LinkView, Entries), ErrorKind>(r->Err_0.kind),
        update_message_spec(context.xml@, rels_view(rels@), raw_ref@, options.set_url, options.set_location, options.has_expect_url, opt_text(options.expect_url), options.has_expect_location, opt_text(options.expect_location)) is Some
            ==> r is Err && r->Err_0.message@ == update_message_spec(context.xml@, rels_view(rels@), raw_ref@, options.set_url, options.set_location, options.has_expect_url, opt_text(options.expect_url), options.has_expect_location, opt_text(options.expect_location))->Some_0,
{
    if options.set_url && options.set_location {
        return Err(CliError::invalid_args(to_string("specify only one of url or location")));
    }
    let mut rels = rels;
    let norm_ref = normalize_hyperlink_ref(raw_ref)?;
    let rel_targets = hyperlink_rel_targets(&rels);
    let mut elements = parse_hyperlink_elements(context.xml.as_str(), &rel_targets)?;
    let ghost els0 = elements_view(elements@);
    let ghost rels0 = rels_view(rels@);
    proof {
        lemma_first_view_with_ref(elements@, norm_ref@, 0);
    }
    let index = match find_hyperlink_index(&elements, norm_ref.as_str()) {
        Some(i) => i,
        None => {
            return Err(CliError::invalid_args(concat2("no hyperlink found on ", norm_ref.as_str())));
        },
    };
    proof {
        assert(els0[index as int] == element_view(elements@[index as int]));
    }
    check_hyperlink_guards(
        &elements[index].info,
        options.has_expect_url,
        opt_str(options.expect_url),
        options.has_expect_location,
        opt_str(options.expect_location),
    )?;
    let rels_changed = update_element(&mut elements, index, &mut rels, options);
    let mut updated_xml = render_hyperlinks_into_sheet(context.xml.as_str(), &elements)?;
    if options.set_url {
        updated_xml = ensure_relationships_namespace(updated_xml.as_str())?;
    }
    let rel_targets2 = hyperlink_rel_targets(&rels);
    let updated_elements = parse_hyperlink_elements(updated_xml.as_str(), &rel_targets2)?;
    proof {
        lemma_first_view_with_ref(updated_elements@, norm_ref@, 0);
    }
    let hyperlink = match find_hyperlink_index(&updated_elements, norm_ref.as_str()) {
        Some(j) => {
            proof {
                assert(elements_view(updated_elements@)[j as int] == element_view(updated_elements@[j as int]));
            }
            updated_elements[j].info.clone_link()
        },
        None => {
            return Err(CliError::unexpected(to_string("updated hyperlink was not found")));
        },
    };
    let text_overrides = make_overrides(context.part.as_str(), updated_xml, rels_changed, &rels);
    Ok(HyperlinkMutation { ref_: norm_ref, hyperlink: Some(hyperlink), text_overrides })
}


/// The relationships of a worksheet as read from its relationships part
/// (`None`: the part is missing, so there are none), not yet changed.
pub open spec fn worksheet_rels_spec(rels_xml: Option<Seq<char>>) -> RelsView {
    match rels_xml {
        Some(x) => crate::rels::rel_entries_spec(x),
        None => crate::rels::rel_entries_spec(crate::rels::rels_head() + "</Relationships>"@),
    }
}

/// `worksheet_relationships`: a worksheet's relationships from the text of
/// its relationships part, or from an empty part when it has none.
pub fn worksheet_relationships(rels_xml: Option<&str>) -> (r: (Vec<RelationshipEntry>, bool))
    ensures
        rels_view(r.0@) == worksheet_rels_spec(crate::mutation::opt_view(rels_xml)),
        !r.1,
{
    let xml = match rels_xml {
        Some(x) => to_string(x),
        None => crate::rels::relationships_template(),
    };
    (crate::rels::relationship_entries_from_xml(xml.as_str()), false)
}

/// `list_hyperlinks_for_context`: the hyperlinks of the sheet, their targets
/// looked up among the worksheet's relationships.
pub fn list_hyperlinks_for_context(context: &XlsxHyperlinkSheet, rels: &Vec<RelationshipEntry>) -> (r: CliResult<Vec<XlsxHyperlink>>)
    ensures
        r is Ok <==> parse_links_spec(context.xml@, targets_of(rels_view(rels@))) is Ok,
        r is Ok ==> r->Ok_0@.len() == parse_links_spec(context.xml@, targets_of(rels_view(rels@)))->Ok_0.len(),
        r is Ok ==> forall|i: int| 0 <= i < r->Ok_0@.len() ==> link_view(#[trigger] r->Ok_0@[i]) == parse_links_spec(context.xml@, targets_of(rels_view(rels@)))->Ok_0[i].0,
        r is Err ==> r->Err_0.kind == ErrorKind::Unexpected,
{
    let targets = hyperlink_rel_targets(rels);
    let elements = parse_hyperlink_elements(context.xml.as_str(), &targets)?;
    let ghost ev = elements_view(elements@);
    let mut out: Vec<XlsxHyperlink> = Vec::new();
    let mut i: usize = 0;
    while i < elements.len()
        invariant
            0 <= i <= elements.len(),
            ev == elements_view(elements@),
            out@.len() == i,
            forall|k: int| 0 <= k < i ==> link_view(#[trigger] out@[k]) == ev[k].0,
        decreases elements.len() - i,
    {
        proof {
            assert(ev[i as int] == element_view(elements@[i as int]));
        }
        out.push(elements[i].info.clone_link());
        i = i + 1;
    }
    Ok(out)
}

/// The message of a hyperlink lookup that found nothing: the selector and
/// the listing command that shows the sheet's hyperlinks.
pub open spec fn hyperlink_not_found_message(sheet_id: u32, selector: Seq<char>) -> Seq<char> {
    "hyperlink not found: "@ + selector + "; discover with `ooxml --json xlsx hyperlinks list <file> --sheet "@
        + crate::sheets::sheet_id_selector(sheet_id) + "`"@
}

/// `hyperlink_not_found`: the error for a hyperlink selector that matches no
/// hyperlink of the sheet.
pub fn hyperlink_not_found(sheet: &crate::sheets::WorkbookSheet, selector: &str) -> (e: CliError)
    ensures
        e.kind == ErrorKind::TargetNotFound,
        e.message@ == hyperlink_not_found_message(sheet.sheet_id, selector@),
{
    let sel = crate::sheets::xlsx_sheet_selector(sheet);
    let head = concat2("hyperlink not found: ", selector);
    let msg = concat4(head.as_str(), "; discover with `ooxml --json xlsx hyperlinks list <file> --sheet ", sel.as_str(), "`");
    CliError::target_not_found(msg)
}

} // verus!
