//! Package relationships: entries of a `.rels` part, reading and writing the
//! part, naming it, and allocating fresh relationship ids.
use vstd::prelude::*;
use crate::elements::{attr_escape, attr_get, attr_lookup, element_name_spec, xml_attr_escape};
use crate::error::{CliError, CliResult, ErrorKind};
use crate::text::{
    concat2, concat3, concat4, concat5, decimal, find_from, has_prefix, parse_u32_chars,
    parse_u32_spec, slice_vec, str_chars, string_from_chars, strip_prefix_spec, to_string,
    u64_to_string, vec_strip_prefix,
};
use crate::xml::{
    char_tokens, char_tokens_spec, local_name, local_name_of, quick_xml_tag_attributes, rfind_seq,
    lemma_rfind_from, tag_attributes, vec_rfind, CharToken, XmlTokenKind, is_tag, tokens_well_formed,
};

verus! {

/// One relationship of a part: its id, type, target and target mode.
#[derive(Debug)]
pub struct RelationshipEntry {
    pub id: String,
    pub rel_type: String,
    pub target: String,
    pub target_mode: String,
}

pub open spec fn rel_view(r: RelationshipEntry) -> (Seq<char>, Seq<char>, Seq<char>, Seq<char>) {
    (r.id@, r.rel_type@, r.target@, r.target_mode@)
}

pub open spec fn rels_view(v: Seq<RelationshipEntry>) -> Seq<(Seq<char>, Seq<char>, Seq<char>, Seq<char>)> {
    Seq::new(v.len(), |i: int| rel_view(v[i]))
}

impl RelationshipEntry {
    pub fn clone_entry(&self) -> (r: RelationshipEntry)
        ensures
            rel_view(r) == rel_view(*self),
    {
        RelationshipEntry {
            id: self.id.clone(),
            rel_type: self.rel_type.clone(),
            target: self.target.clone(),
            target_mode: self.target_mode.clone(),
        }
    }
}

/// The namespace of a relationships part.
pub open spec fn rel_ns() -> Seq<char> {
    "http://schemas.openxmlformats.org/package/2006/relationships"@
}

/// The relationship type of a hyperlink.
pub open spec fn rel_hyperlink() -> Seq<char> {
    "http://schemas.openxmlformats.org/officeDocument/2006/relationships/hyperlink"@
}

/// The opening of a relationships part, up to its first relationship.
pub open spec fn rels_head() -> Seq<char> {
    "<?xml version=\"1.0\" encoding=\"UTF-8\"?><Relationships xmlns=\"http://schemas.openxmlformats.org/package/2006/relationships\">"@
}

fn rels_head_str() -> (r: &'static str)
    ensures
        r@ == rels_head(),
{
    "<?xml version=\"1.0\" encoding=\"UTF-8\"?><Relationships xmlns=\"http://schemas.openxmlformats.org/package/2006/relationships\">"
}

/// `relationships_template`: a relationships part with no relationship.
pub fn relationships_template() -> (r: String)
    ensures
        r@ == rels_head() + "</Relationships>"@,
{
    concat2(rels_head_str(), "</Relationships>")
}

/// One `Relationship` element, its attribute values escaped.
pub open spec fn render_rel_spec(r: (Seq<char>, Seq<char>, Seq<char>, Seq<char>)) -> Seq<char> {
    "<Relationship Id=\""@ + attr_escape(r.0) + "\" Type=\""@ + attr_escape(r.1) + "\" Target=\""@
        + attr_escape(r.2) + "\""@ + (if r.3.len() > 0 {
        " TargetMode=\""@ + attr_escape(r.3) + "\""@
    } else {
        Seq::empty()
    }) + "/>"@
}

/// `render_relationship`: one relationship as an element.
pub fn render_relationship(rel: &RelationshipEntry) -> (r: String)
    ensures
        r@ == render_rel_spec(rel_view(*rel)),
{
    let id = xml_attr_escape(rel.id.as_str());
    let ty = xml_attr_escape(rel.rel_type.as_str());
    let target = xml_attr_escape(rel.target.as_str());
    let head = concat4("<Relationship Id=\"", id.as_str(), "\" Type=\"", ty.as_str());
    let mut out = concat4(head.as_str(), "\" Target=\"", target.as_str(), "\"");
    if rel.target_mode.unicode_len() > 0 {
        let mode = xml_attr_escape(rel.target_mode.as_str());
        let m = concat3(" TargetMode=\"", mode.as_str(), "\"");
        out.append(m.as_str());
    }
    out.append("/>");
    out
}

/// The elements of every relationship, in order.
pub open spec fn render_rels_body(v: Seq<(Seq<char>, Seq<char>, Seq<char>, Seq<char>)>) -> Seq<char>
    decreases v.len(),
{
    if v.len() == 0 {
        Seq::empty()
    } else {
        render_rels_body(v.drop_last()) + render_rel_spec(v.last())
    }
}

/// A relationships part holding the relationships, in order.
pub open spec fn render_rels_spec(v: Seq<(Seq<char>, Seq<char>, Seq<char>, Seq<char>)>) -> Seq<char> {
    rels_head() + render_rels_body(v) + "</Relationships>"@
}

/// `render_relationships`: the relationships part for the entries.
pub fn render_relationships(rels: &Vec<RelationshipEntry>) -> (r: String)
    ensures
        r@ == render_rels_spec(rels_view(rels@)),
{
    let mut body = String::new();
    let mut i: usize = 0;
    proof {
        assert(body@ =~= render_rels_body(rels_view(rels@).subrange(0, 0)));
    }
    while i < rels.len()
        invariant
            0 <= i <= rels.len(),
            body@ == render_rels_body(rels_view(rels@).subrange(0, i as int)),
        decreases rels.len() - i,
    {
        let one = render_relationship(&rels[i]);
        body.append(one.as_str());
        proof {
            let pre = rels_view(rels@).subrange(0, i + 1);
            assert(pre.drop_last() =~= rels_view(rels@).subrange(0, i as int));
            assert(pre.last() == rel_view(rels@[i as int]));
        }
        i = i + 1;
    }
    proof {
        assert(rels_view(rels@).subrange(0, rels@.len() as int) =~= rels_view(rels@));
    }
    concat3(rels_head_str(), body.as_str(), "</Relationships>")
}

// ---------------------------------------------------------------------------
// The relationships part of a part
// ---------------------------------------------------------------------------

/// The relationships part of a part: `dir/_rels/name.rels` for `dir/name`.
pub open spec fn rels_part_spec(part: Seq<char>) -> Seq<char> {
    let s = rfind_seq(part, seq!['/']);
    if s < 0 {
        "_rels/"@ + part + ".rels"@
    } else {
        part.subrange(0, s + 1) + "_rels/"@ + part.subrange(s + 1, part.len() as int) + ".rels"@
    }
}

/// `relationships_part_for`: the name of the part holding a part's relationships.
pub fn relationships_part_for(part: &str) -> (r: String)
    ensures
        r@ == rels_part_spec(part@),
{
    let v = str_chars(part);
    let mut slash: Vec<char> = Vec::new();
    slash.push('/');
    proof {
        assert(slash@ =~= seq!['/']);
    }
    match vec_rfind(&v, &slash) {
        None => concat3("_rels/", part, ".rels"),
        Some(s) => {
            proof {
                lemma_rfind_from(v@, slash@, v@.len() - 1);
                assert(rfind_seq(v@, slash@) == crate::xml::rfind_from(v@, slash@, v@.len() - 1));
                assert(crate::xml::matches_at(v@, slash@, s as int));
                assert(s + 1 <= v@.len());
                assert(v@.len() == v.len());
            }
            let dir = slice_vec(&v, 0, s + 1);
            let name = slice_vec(&v, s + 1, v.len());
            let ds = string_from_chars(dir.as_slice());
            let ns = string_from_chars(name.as_slice());
            concat4(ds.as_str(), "_rels/", ns.as_str(), ".rels")
        },
    }
}

// ---------------------------------------------------------------------------
// Fresh ids
// ---------------------------------------------------------------------------

/// The number of an id of the form `rId<n>`.
pub open spec fn rel_number(id: Seq<char>) -> Option<u32> {
    match strip_prefix_spec(id, "rId"@) {
        Some(d) => parse_u32_spec(d),
        None => None,
    }
}

/// The greatest number of an `rId<n>` id among the relationships (0 if none).
pub open spec fn max_rel_number(v: Seq<(Seq<char>, Seq<char>, Seq<char>, Seq<char>)>) -> nat
    decreases v.len(),
{
    if v.len() == 0 {
        0
    } else {
        let m = max_rel_number(v.drop_last());
        match rel_number(v.last().0) {
            Some(n) => if n > m {
                n as nat
            } else {
                m
            },
            None => m,
        }
    }
}

/// `allocate_relationship_id`: `rId<n>` for `n` one past the greatest number
/// in use.
pub fn allocate_relationship_id(rels: &Vec<RelationshipEntry>) -> (r: String)
    ensures
        r@ == "rId"@ + decimal(max_rel_number(rels_view(rels@)) + 1),
{
    let mut m: u32 = 0;
    let mut i: usize = 0;
    while i < rels.len()
        invariant
            0 <= i <= rels.len(),
            m == max_rel_number(rels_view(rels@).subrange(0, i as int)),
        decreases rels.len() - i,
    {
        let idv = str_chars(rels[i].id.as_str());
        let n = match vec_strip_prefix(&idv, "rId") {
            Some(d) => {
                proof {
                    assert(d@.subrange(0, d@.len() as int) =~= d@);
                }
                parse_u32_chars(&d, 0, d.len())
            },
            None => None,
        };
        proof {
            let pre = rels_view(rels@).subrange(0, i + 1);
            assert(pre.drop_last() =~= rels_view(rels@).subrange(0, i as int));
            assert(pre.last() == rel_view(rels@[i as int]));
            assert(n == rel_number(pre.last().0));
        }
        match n {
            Some(x) => {
                if x > m {
                    m = x;
                }
            },
            None => {},
        }
        i = i + 1;
    }
    proof {
        assert(rels_view(rels@).subrange(0, rels@.len() as int) =~= rels_view(rels@));
    }
    let num = u64_to_string(m as u64 + 1);
    concat2("rId", num.as_str())
}

proof fn lemma_max_rel_number_bound(v: Seq<(Seq<char>, Seq<char>, Seq<char>, Seq<char>)>, j: int)
    requires
        0 <= j < v.len(),
        rel_number(v[j].0) is Some,
    ensures
        rel_number(v[j].0).unwrap() <= max_rel_number(v),
    decreases v.len(),
{
    if j < v.len() - 1 {
        assert(v.drop_last()[j] == v[j]);
        lemma_max_rel_number_bound(v.drop_last(), j);
    }
}

/// An allocated id is not in use, unless the greatest number in use is the
/// largest `u32` (ids with larger numbers are not read as numbers).
pub proof fn lemma_allocated_id_fresh(v: Seq<(Seq<char>, Seq<char>, Seq<char>, Seq<char>)>)
    requires
        max_rel_number(v) < u32::MAX,
    ensures
        forall|j: int| 0 <= j < v.len() ==> (#[trigger] v[j]).0 != "rId"@ + decimal(max_rel_number(v) + 1),
{
    assert forall|j: int| 0 <= j < v.len() implies (#[trigger] v[j]).0 != "rId"@ + decimal(max_rel_number(v) + 1) by {
        let n = (max_rel_number(v) + 1) as u32;
        reveal_strlit("rId");
        if v[j].0 == "rId"@ + decimal(n as nat) {
            crate::text::lemma_parse_decimal_u32(n);
            assert(("rId"@ + decimal(n as nat)).subrange(0, 3) =~= "rId"@);
            assert(("rId"@ + decimal(n as nat)).subrange(3, 3 + decimal(n as nat).len() as int) =~= decimal(n as nat));
            assert(rel_number(v[j].0) == Some(n));
            lemma_max_rel_number_bound(v, j);
        }
    }
}


// ---------------------------------------------------------------------------
// Reading a relationships part
// ---------------------------------------------------------------------------

pub open spec fn attr_or_empty(attrs: Seq<(Seq<char>, Seq<char>)>, key: Seq<char>) -> Seq<char> {
    match attr_lookup(attrs, key) {
        Some(v) => v,
        None => Seq::empty(),
    }
}

/// The relationship a `Relationship` element's attributes describe.
pub open spec fn entry_of(attrs: Seq<(Seq<char>, Seq<char>)>) -> (Seq<char>, Seq<char>, Seq<char>, Seq<char>) {
    (
        attr_or_empty(attrs, "Id"@),
        attr_or_empty(attrs, "Type"@),
        attr_or_empty(attrs, "Target"@),
        attr_or_empty(attrs, "TargetMode"@),
    )
}

/// The relationships of the `Relationship` elements from token `i` on.
pub open spec fn rel_entries_from(xml: Seq<char>, toks: Seq<CharToken>, i: int) -> Seq<(Seq<char>, Seq<char>, Seq<char>, Seq<char>)>
    decreases toks.len() - i,
{
    if i < 0 || i >= toks.len() {
        Seq::empty()
    } else if is_tag(toks[i]) && local_name_of(toks[i].name@) == "Relationship"@ {
        seq![entry_of(quick_xml_tag_attributes(xml.subrange(toks[i].start as int, toks[i].end as int)))]
            + rel_entries_from(xml, toks, i + 1)
    } else {
        rel_entries_from(xml, toks, i + 1)
    }
}

/// The relationships a part lists (none when it cannot be read).
pub open spec fn rel_entries_spec(xml: Seq<char>) -> Seq<(Seq<char>, Seq<char>, Seq<char>, Seq<char>)> {
    match char_tokens_spec(xml) {
        None => Seq::empty(),
        Some(p) => rel_entries_from(xml, p.0, 0),
    }
}

fn attr_or_empty_exec(attrs: &Vec<(String, String)>, key: &str) -> (r: String)
    ensures
        r@ == attr_or_empty(attrs.deep_view(), key@),
{
    match attr_get(attrs, key) {
        Some(v) => v,
        None => {
            let e = String::new();
            proof {
                assert(e@ =~= Seq::<char>::empty());
            }
            e
        },
    }
}

/// `relationship_entries_from_xml`: the relationships a relationships part lists.
pub fn relationship_entries_from_xml(xml: &str) -> (r: Vec<RelationshipEntry>)
    ensures
        rels_view(r@) == rel_entries_spec(xml@),
{
    let toks = match char_tokens(xml) {
        Ok(p) => p.0,
        Err(_) => {
            let v: Vec<RelationshipEntry> = Vec::new();
            proof {
                assert(rels_view(v@) =~= Seq::<(Seq<char>, Seq<char>, Seq<char>, Seq<char>)>::empty());
            }
            return v;
        },
    };
    let chars = str_chars(xml);
    let rl = str_chars("Relationship");
    let mut out: Vec<RelationshipEntry> = Vec::new();
    let mut i: usize = 0;
    while i < toks.len()
        invariant
            0 <= i <= toks.len(),
            char_tokens_spec(xml@) is Some,
            toks@ == char_tokens_spec(xml@).unwrap().0,
            tokens_well_formed(toks@, xml@.len() as int),
            chars@ == xml@,
            rl@ == "Relationship"@,
            rels_view(out@) + rel_entries_from(xml@, toks@, i as int) == rel_entries_spec(xml@),
        decreases toks.len() - i,
    {
        let t = &toks[i];
        let ghost before = rels_view(out@);
        if t.kind == XmlTokenKind::Start || t.kind == XmlTokenKind::Empty {
            let ln = local_name(t.name.as_str());
            let lv = str_chars(ln.as_str());
            if crate::text::vec_eq(&lv, &rl) {
                let tagv = slice_vec(&chars, t.start, t.end);
                let tag = string_from_chars(tagv.as_slice());
                let attrs = tag_attributes(tag.as_str());
                let e = RelationshipEntry {
                    id: attr_or_empty_exec(&attrs, "Id"),
                    rel_type: attr_or_empty_exec(&attrs, "Type"),
                    target: attr_or_empty_exec(&attrs, "Target"),
                    target_mode: attr_or_empty_exec(&attrs, "TargetMode"),
                };
                out.push(e);
                proof {
                    assert(rels_view(out@) =~= before + seq![entry_of(quick_xml_tag_attributes(xml@.subrange(t.start as int, t.end as int)))]);
                }
            }
        }
        i = i + 1;
    }
    out
}

} // verus!
