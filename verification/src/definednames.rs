//! The `definedNames` block of a workbook part: where a new block goes, how
//! the block is written, and how a workbook part is rewritten with a new list
//! of defined names.
use vstd::prelude::*;
use crate::elements::{attr_escape, text_escape, xml_attr_escape, xml_escape};
use crate::error::{CliError, CliResult, ErrorKind};
use crate::names::XlsxDefinedName;
use crate::orders::{workbook_child_order, workbook_child_order_spec};
use crate::text::{concat2, concat3, decimal_int, find_from, i64_to_string, str_eq, to_string, trim, trim_string};
use crate::xml::{
    char_tokens, char_tokens_spec, local_name, local_name_of, replace_xml_span, splice, tokens_well_formed,
    CharToken, XmlTokenKind,
};

verus! {

// ---------------------------------------------------------------------------
// Where a new block goes
// ---------------------------------------------------------------------------

/// Walks the events of a workbook part for the place of a new `definedNames`
/// child: before the first child of the document element that the schema
/// orders after `definedNames`, else before the `workbook` end tag.
pub open spec fn names_insert_walk(toks: Seq<CharToken>, i: int, depth: int) -> Option<int>
    decreases toks.len() - i,
{
    if i < 0 || i >= toks.len() {
        None
    } else {
        let t = toks[i];
        let after = workbook_child_order_spec(local_name_of(t.name@)) > workbook_child_order_spec("definedNames"@);
        match t.kind {
            XmlTokenKind::Start => if depth == 1 && after {
                Some(t.start as int)
            } else {
                names_insert_walk(toks, i + 1, depth + 1)
            },
            XmlTokenKind::Empty => if depth == 1 && after {
                Some(t.start as int)
            } else {
                names_insert_walk(toks, i + 1, depth)
            },
            XmlTokenKind::End => if depth == 1 && local_name_of(t.name@) == "workbook"@ {
                Some(t.start as int)
            } else {
                names_insert_walk(toks, i + 1, if depth > 0 { depth - 1 } else { 0 })
            },
            XmlTokenKind::Other => names_insert_walk(toks, i + 1, depth),
        }
    }
}

pub open spec fn names_insert_spec(xml: Seq<char>) -> Option<int> {
    match char_tokens_spec(xml) {
        None => None,
        Some(p) => names_insert_walk(p.0, 0, 0),
    }
}

/// `workbook_defined_names_insert_position`: where a `definedNames` block
/// goes in a workbook part that has none (a character position).
pub fn workbook_defined_names_insert_position(workbook_xml: &str) -> (r: Option<usize>)
    ensures
        match names_insert_spec(workbook_xml@) {
            None => r is None,
            Some(p) => r is Some && r->0 as int == p,
        },
        r is Some ==> r->0 <= workbook_xml@.len(),
{
    let (toks, _failed) = match char_tokens(workbook_xml) {
        Ok(p) => p,
        Err(_) => {
            return None;
        },
    };
    let target = workbook_child_order("definedNames");
    let mut depth: usize = 0;
    let mut i: usize = 0;
    while i < toks.len()
        invariant
            0 <= i <= toks.len(),
            depth <= i,
            target == workbook_child_order_spec("definedNames"@),
            char_tokens_spec(workbook_xml@) is Some,
            char_tokens_spec(workbook_xml@).unwrap().0 == toks@,
            tokens_well_formed(toks@, workbook_xml@.len() as int),
            names_insert_walk(toks@, 0, 0) == names_insert_walk(toks@, i as int, depth as int),
        decreases toks.len() - i,
    {
        let t = &toks[i];
        let local = local_name(t.name.as_str());
        match t.kind {
            XmlTokenKind::Start => {
                if depth == 1 && workbook_child_order(local.as_str()) > target {
                    return Some(t.start);
                }
                depth = depth + 1;
            },
            XmlTokenKind::Empty => {
                if depth == 1 && workbook_child_order(local.as_str()) > target {
                    return Some(t.start);
                }
            },
            XmlTokenKind::End => {
                if depth == 1 && str_eq(local.as_str(), "workbook") {
                    return Some(t.start);
                }
                if depth > 0 {
                    depth = depth - 1;
                }
            },
            XmlTokenKind::Other => {},
        }
        i = i + 1;
    }
    None
}

// ---------------------------------------------------------------------------
// Writing the block
// ---------------------------------------------------------------------------

/// The namespace prefix of the first `workbook` element, where its name has
/// one.
pub open spec fn prefix_walk(toks: Seq<CharToken>, i: int) -> Option<Seq<char>>
    decreases toks.len() - i,
{
    if i < 0 || i >= toks.len() {
        None
    } else {
        let t = toks[i];
        if (t.kind is Start || t.kind is Empty) && local_name_of(t.name@) == "workbook"@ {
            let c = find_from(t.name@, ':', 0);
            if c == -1 {
                None
            } else {
                Some(t.name@.subrange(0, c))
            }
        } else {
            prefix_walk(toks, i + 1)
        }
    }
}

pub open spec fn workbook_prefix_spec(xml: Seq<char>) -> Option<Seq<char>> {
    match char_tokens_spec(xml) {
        None => None,
        Some(p) => prefix_walk(p.0, 0),
    }
}

/// `workbook_element_prefix`: the namespace prefix that the workbook part
/// writes its document element with, if any.
pub fn workbook_element_prefix(workbook_xml: &str) -> (r: Option<String>)
    ensures
        match workbook_prefix_spec(workbook_xml@) {
            None => r is None,
            Some(p) => r is Some && r->0@ == p,
        },
{
    let (toks, _failed) = match char_tokens(workbook_xml) {
        Ok(p) => p,
        Err(_) => {
            return None;
        },
    };
    let mut i: usize = 0;
    while i < toks.len()
        invariant
            0 <= i <= toks.len(),
            char_tokens_spec(workbook_xml@) is Some,
            char_tokens_spec(workbook_xml@).unwrap().0 == toks@,
            prefix_walk(toks@, 0) == prefix_walk(toks@, i as int),
        decreases toks.len() - i,
    {
        let t = &toks[i];
        let is_tag = match t.kind {
            XmlTokenKind::Start => true,
            XmlTokenKind::Empty => true,
            _ => false,
        };
        if is_tag && str_eq(local_name(t.name.as_str()).as_str(), "workbook") {
            let v = crate::text::str_chars(t.name.as_str());
            return match crate::text::vec_find_char(&v, ':', 0) {
                None => None,
                Some(c) => {
                    proof {
                        crate::text::lemma_find_from(v@, ':', 0);
                    }
                    let w = crate::text::slice_vec(&v, 0, c);
                    Some(crate::text::string_from_chars(w.as_slice()))
                },
            };
        }
        i = i + 1;
    }
    None
}

/// A name written with the prefix, where the prefix is present and not empty.
pub open spec fn qualified_spec(prefix: Option<Seq<char>>, local: Seq<char>) -> Seq<char> {
    match prefix {
        Some(p) => if p.len() > 0 {
            p + ":"@ + local
        } else {
            local
        },
        None => local,
    }
}

/// `xml_qualified_name`: a local name with the namespace prefix, if any.
pub fn xml_qualified_name(prefix: Option<&str>, local: &str) -> (r: String)
    ensures
        r@ == qualified_spec(match prefix { Some(p) => Some(p@), None => None }, local@),
{
    match prefix {
        Some(p) => if p.unicode_len() > 0 {
            concat3(p, ":", local)
        } else {
            to_string(local)
        },
        None => to_string(local),
    }
}

/// The attributes of a `definedName` element, in a fixed order: the comment
/// and description trimmed and left out when blank.
pub open spec fn name_attrs_spec(n: XlsxDefinedName) -> Seq<char> {
    let a1 = " name=\""@ + attr_escape(n.name@) + "\""@;
    let a2 = match n.local_sheet_id {
        Some(id) => " localSheetId=\""@ + decimal_int(id as int) + "\""@,
        None => Seq::empty(),
    };
    let a3 = if n.hidden { " hidden=\"1\""@ } else { Seq::<char>::empty() };
    let a4 = if trim(n.comment@).len() > 0 {
        " comment=\""@ + attr_escape(trim(n.comment@)) + "\""@
    } else {
        Seq::empty()
    };
    let a5 = if trim(n.description@).len() > 0 {
        " description=\""@ + attr_escape(trim(n.description@)) + "\""@
    } else {
        Seq::empty()
    };
    a1 + a2 + a3 + a4 + a5
}

/// A `definedName` element: its attributes and the formula as content.
pub open spec fn name_element_spec(prefix: Option<Seq<char>>, n: XlsxDefinedName) -> Seq<char> {
    let tag = qualified_spec(prefix, "definedName"@);
    "<"@ + tag + name_attrs_spec(n) + ">"@ + text_escape(n.ref_text@) + "</"@ + tag + ">"@
}

fn render_name_attrs(name: &XlsxDefinedName) -> (r: String)
    ensures
        r@ == name_attrs_spec(*name),
{
    let ghost n = *name;
    let mut attrs = concat3(" name=\"", xml_attr_escape(name.name.as_str()).as_str(), "\"");
    let ghost a1 = " name=\""@ + attr_escape(n.name@) + "\""@;
    let ghost a2 = match n.local_sheet_id {
        Some(id) => " localSheetId=\""@ + decimal_int(id as int) + "\""@,
        None => Seq::<char>::empty(),
    };
    let ghost a3 = if n.hidden { " hidden=\"1\""@ } else { Seq::<char>::empty() };
    let ghost a4 = if trim(n.comment@).len() > 0 {
        " comment=\""@ + attr_escape(trim(n.comment@)) + "\""@
    } else {
        Seq::<char>::empty()
    };
    let ghost a5 = if trim(n.description@).len() > 0 {
        " description=\""@ + attr_escape(trim(n.description@)) + "\""@
    } else {
        Seq::<char>::empty()
    };
    assert(attrs@ == a1);
    match name.local_sheet_id {
        Some(id) => {
            let piece = concat3(" localSheetId=\"", i64_to_string(id).as_str(), "\"");
            attrs = concat2(attrs.as_str(), piece.as_str());
        },
        None => {
            assert(a1 + a2 =~= a1);
        },
    }
    assert(attrs@ == a1 + a2);
    if name.hidden {
        attrs = concat2(attrs.as_str(), " hidden=\"1\"");
    } else {
        assert(a1 + a2 + a3 =~= a1 + a2);
    }
    assert(attrs@ == a1 + a2 + a3);
    let comment = trim_string(name.comment.as_str());
    if comment.unicode_len() > 0 {
        let piece = concat3(" comment=\"", xml_attr_escape(comment.as_str()).as_str(), "\"");
        attrs = concat2(attrs.as_str(), piece.as_str());
    } else {
        assert(a1 + a2 + a3 + a4 =~= a1 + a2 + a3);
    }
    assert(attrs@ == a1 + a2 + a3 + a4);
    let description = trim_string(name.description.as_str());
    if description.unicode_len() > 0 {
        let piece = concat3(" description=\"", xml_attr_escape(description.as_str()).as_str(), "\"");
        attrs = concat2(attrs.as_str(), piece.as_str());
    } else {
        assert(a1 + a2 + a3 + a4 + a5 =~= a1 + a2 + a3 + a4);
    }
    attrs
}

/// `render_defined_name_element`: one `definedName` element.
pub fn render_defined_name_element(prefix: Option<&str>, name: &XlsxDefinedName) -> (r: String)
    ensures
        r@ == name_element_spec(match prefix { Some(p) => Some(p@), None => None }, *name),
{
    let tag = xml_qualified_name(prefix, "definedName");
    let attrs = render_name_attrs(name);
    let open = concat3("<", tag.as_str(), attrs.as_str());
    let body = concat3(open.as_str(), ">", xml_escape(name.ref_text.as_str()).as_str());
    let close = concat3("</", tag.as_str(), ">");
    let r = concat2(body.as_str(), close.as_str());
    proof {
        assert(r@ =~= name_element_spec(match prefix { Some(p) => Some(p@), None => None }, *name));
    }
    r
}

/// The `definedName` elements of a list, one after another.
pub open spec fn name_elements_spec(prefix: Option<Seq<char>>, names: Seq<XlsxDefinedName>) -> Seq<char>
    decreases names.len(),
{
    if names.len() == 0 {
        Seq::empty()
    } else {
        name_elements_spec(prefix, names.drop_last()) + name_element_spec(prefix, names.last())
    }
}

/// The `definedNames` block for a list of names, written with the workbook
/// part's prefix; nothing for an empty list.
pub open spec fn names_block_spec(xml: Seq<char>, names: Seq<XlsxDefinedName>) -> Seq<char> {
    if names.len() == 0 {
        Seq::empty()
    } else {
        let p = workbook_prefix_spec(xml);
        let w = qualified_spec(p, "definedNames"@);
        "<"@ + w + ">"@ + name_elements_spec(p, names) + "</"@ + w + ">"@
    }
}

/// `render_defined_names_block`: the `definedNames` block of a list of names.
pub fn render_defined_names_block(workbook_xml: &str, names: &Vec<XlsxDefinedName>) -> (r: String)
    ensures
        r@ == names_block_spec(workbook_xml@, names@),
{
    if names.len() == 0 {
        return String::new();
    }
    let prefix = workbook_element_prefix(workbook_xml);
    let pref: Option<&str> = match &prefix {
        Some(p) => Some(p.as_str()),
        None => None,
    };
    let ghost pv = workbook_prefix_spec(workbook_xml@);
    assert(pv == match pref { Some(p) => Some(p@), None => None });
    let wrapper = xml_qualified_name(pref, "definedNames");
    let mut elems = String::new();
    let mut i: usize = 0;
    while i < names.len()
        invariant
            0 <= i <= names.len(),
            pv == match pref { Some(p) => Some(p@), None => None::<Seq<char>> },
            elems@ == name_elements_spec(pv, names@.subrange(0, i as int)),
        decreases names.len() - i,
    {
        let piece = render_defined_name_element(pref, &names[i]);
        proof {
            assert(names@.subrange(0, i as int + 1).drop_last() =~= names@.subrange(0, i as int));
        }
        elems = concat2(elems.as_str(), piece.as_str());
        i = i + 1;
    }
    proof {
        assert(names@.subrange(0, names@.len() as int) =~= names@);
    }
    let open = concat3("<", wrapper.as_str(), ">");
    let close = concat3("</", wrapper.as_str(), ">");
    concat3(open.as_str(), elems.as_str(), close.as_str())
}

// ---------------------------------------------------------------------------
// Rewriting the workbook part
// ---------------------------------------------------------------------------

/// The span of a `definedNames` block, where the end lies past the start.
pub open spec fn span_result(start: int, end: int) -> Result<Option<(int, int)>, ()> {
    if end > start {
        Ok(Some((start, end)))
    } else {
        Ok(None)
    }
}

/// Walks the events of a workbook part for its `definedNames` block: from
/// the start tag of `definedNames` (or an empty `definedNames` tag) to the
/// first `definedNames` end tag. `current` is whether a `definedName`
/// element of the block is open; a reading error met before the block ends
/// fails the walk.
pub open spec fn block_walk(
    toks: Seq<CharToken>,
    failed: bool,
    i: int,
    in_block: bool,
    depth: int,
    start: int,
    current: bool,
) -> Result<Option<(int, int)>, ()>
    decreases toks.len() - i,
{
    if i < 0 || i >= toks.len() {
        if failed {
            Err(())
        } else {
            Ok(None)
        }
    } else {
        let t = toks[i];
        let name = local_name_of(t.name@);
        let closed = if in_block && depth > 0 { depth - 1 } else { depth };
        match t.kind {
            XmlTokenKind::Start => if name == "definedNames"@ && !current {
                block_walk(toks, failed, i + 1, true, 1, t.start as int, current)
            } else if in_block && !current && depth == 1 && name == "definedName"@ {
                block_walk(toks, failed, i + 1, in_block, depth + 1, start, true)
            } else if in_block {
                block_walk(toks, failed, i + 1, in_block, depth + 1, start, current)
            } else {
                block_walk(toks, failed, i + 1, in_block, depth, start, current)
            },
            XmlTokenKind::Empty => if name == "definedNames"@ {
                span_result(t.start as int, t.end as int)
            } else {
                block_walk(toks, failed, i + 1, in_block, depth, start, current)
            },
            XmlTokenKind::End => if name == "definedName"@ && current {
                block_walk(toks, failed, i + 1, in_block, closed, start, false)
            } else if name == "definedNames"@ {
                span_result(start, t.end as int)
            } else {
                block_walk(toks, failed, i + 1, in_block, closed, start, current)
            },
            XmlTokenKind::Other => block_walk(toks, failed, i + 1, in_block, depth, start, current),
        }
    }
}

pub open spec fn block_span_spec(xml: Seq<char>) -> Result<Option<(int, int)>, ()> {
    match char_tokens_spec(xml) {
        None => Err(()),
        Some(p) => block_walk(p.0, p.1, 0, false, 0, 0, false),
    }
}

/// `defined_names_block_span`: the character span of the workbook part's
/// `definedNames` block, if it has one.
pub fn defined_names_block_span(workbook_xml: &str) -> (r: CliResult<Option<(usize, usize)>>)
    ensures
        r is Ok <==> block_span_spec(workbook_xml@) is Ok,
        r is Err ==> r->Err_0.kind == ErrorKind::Unexpected,
        r is Ok ==> match block_span_spec(workbook_xml@)->Ok_0 {
            None => r->Ok_0 is None,
            Some(sp) => r->Ok_0 matches Some(q) && q.0 as int == sp.0 && q.1 as int == sp.1,
        },
        r matches Ok(Some(sp)) ==> sp.0 < sp.1 <= workbook_xml@.len(),
{
    let (toks, failed) = char_tokens(workbook_xml)?;
    let ghost n = workbook_xml@.len() as int;
    let mut in_block = false;
    let mut depth: usize = 0;
    let mut start: usize = 0;
    let mut current = false;
    let mut i: usize = 0;
    while i < toks.len()
        invariant
            0 <= i <= toks.len(),
            depth <= i,
            start <= n,
            n == workbook_xml@.len(),
            char_tokens_spec(workbook_xml@) is Some,
            char_tokens_spec(workbook_xml@).unwrap().0 == toks@,
            char_tokens_spec(workbook_xml@).unwrap().1 == failed,
            tokens_well_formed(toks@, n),
            block_walk(toks@, failed, 0, false, 0, 0, false)
                == block_walk(toks@, failed, i as int, in_block, depth as int, start as int, current),
        decreases toks.len() - i,
    {
        let t = &toks[i];
        let local = local_name(t.name.as_str());
        let is_names = str_eq(local.as_str(), "definedNames");
        let is_name = str_eq(local.as_str(), "definedName");
        match t.kind {
            XmlTokenKind::Start => {
                if is_names && !current {
                    in_block = true;
                    depth = 1;
                    start = t.start;
                } else if in_block && !current && depth == 1 && is_name {
                    current = true;
                    depth = depth + 1;
                } else if in_block {
                    depth = depth + 1;
                }
            },
            XmlTokenKind::Empty => {
                if is_names {
                    if t.end > t.start {
                        return Ok(Some((t.start, t.end)));
                    }
                    return Ok(None);
                }
            },
            XmlTokenKind::End => {
                if is_name && current {
                    current = false;
                } else if is_names {
                    if t.end > start {
                        return Ok(Some((start, t.end)));
                    }
                    return Ok(None);
                }
                if in_block && depth > 0 {
                    depth = depth - 1;
                }
            },
            XmlTokenKind::Other => {},
        }
        i = i + 1;
    }
    if failed {
        return Err(CliError::unexpected(to_string("the workbook part is not well-formed XML")));
    }
    Ok(None)
}

/// The workbook part with its `definedNames` block replaced by the block of
/// `names` (removed for an empty list), or, where it has none, the new block
/// inserted where the schema puts it.
pub open spec fn rewrite_spec(xml: Seq<char>, names: Seq<XlsxDefinedName>) -> Result<Seq<char>, ()> {
    let rendered = names_block_spec(xml, names);
    match block_span_spec(xml) {
        Err(_) => Err(()),
        Ok(Some(sp)) => Ok(splice(xml, sp.0, sp.1, rendered)),
        Ok(None) => if rendered.len() == 0 {
            Ok(xml)
        } else {
            match names_insert_spec(xml) {
                None => Err(()),
                Some(q) => Ok(splice(xml, q, q, rendered)),
            }
        },
    }
}

/// `rewrite_workbook_defined_names`: the workbook part with the list of
/// defined names written in.
pub fn rewrite_workbook_defined_names(workbook_xml: &str, names: &Vec<XlsxDefinedName>) -> (r: CliResult<String>)
    ensures
        r is Ok <==> rewrite_spec(workbook_xml@, names@) is Ok,
        r is Ok ==> r->Ok_0@ == rewrite_spec(workbook_xml@, names@)->Ok_0,
        r is Err ==> r->Err_0.kind == ErrorKind::Unexpected,
        block_span_spec(workbook_xml@) matches Ok(None) && names_block_spec(workbook_xml@, names@).len() > 0
            && names_insert_spec(workbook_xml@) is None
            ==> r is Err && r->Err_0.message@ == "could not locate workbook insertion point"@,
{
    let rendered = render_defined_names_block(workbook_xml, names);
    match defined_names_block_span(workbook_xml)? {
        Some((start, end)) => Ok(replace_xml_span(workbook_xml, start, end, rendered.as_str())),
        None => {
            if rendered.unicode_len() == 0 {
                return Ok(to_string(workbook_xml));
            }
            match workbook_defined_names_insert_position(workbook_xml) {
                None => Err(CliError::unexpected(to_string("could not locate workbook insertion point"))),
                Some(at) => Ok(replace_xml_span(workbook_xml, at, at, rendered.as_str())),
            }
        },
    }
}

} // verus!
