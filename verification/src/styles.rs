//! The styles part: finding its collections, keeping their `count`
//! attributes, inserting collections in schema order, the default part, and
//! adding number formats.
use vstd::prelude::*;
use crate::error::{CliError, CliResult, ErrorKind};
use crate::orders::{xlsx_styles_collection_order, xlsx_styles_collection_order_spec};
use crate::text::{
    concat2, concat3, concat4, concat5, decimal, find_from, find_seq_from, has_suffix, slice_vec,
    str_chars, string_from_chars, to_string, trim_end, u64_to_string,
};
use crate::xml::{
    char_tokens, char_tokens_spec, local_name, local_name_of, rfind_seq, splice, CharToken,
    XmlTokenKind, tokens_well_formed,
};

verus! {

// ---------------------------------------------------------------------------
// The span of an element
// ---------------------------------------------------------------------------

/// Where an element lies: its start tag `start..open_end`, and where its end
/// tag starts (`start` again for an empty-element tag).
#[derive(Clone, Copy, PartialEq, Eq, Structural, Debug)]
pub struct XmlElementSpan {
    pub start: usize,
    pub open_end: usize,
    pub close_start: usize,
}

pub open spec fn is_named(t: CharToken, kind: XmlTokenKind, wanted: Seq<char>) -> bool {
    t.kind == kind && local_name_of(t.name@) == wanted
}

/// The index of the first start or empty tag named `wanted` from `i` on, or -1.
pub open spec fn first_named_tag(toks: Seq<CharToken>, wanted: Seq<char>, i: int) -> int
    decreases toks.len() - i,
{
    if i < 0 || i >= toks.len() {
        -1
    } else if is_named(toks[i], XmlTokenKind::Start, wanted) || is_named(toks[i], XmlTokenKind::Empty, wanted) {
        i
    } else {
        first_named_tag(toks, wanted, i + 1)
    }
}

/// The index of the end tag that closes an element named `wanted` open at
/// `depth` levels, reading from `j` (counting only elements of that name), or -1.
pub open spec fn closing_tag(toks: Seq<CharToken>, wanted: Seq<char>, j: int, depth: nat) -> int
    decreases toks.len() - j,
{
    if j < 0 || j >= toks.len() {
        -1
    } else if is_named(toks[j], XmlTokenKind::Start, wanted) {
        closing_tag(toks, wanted, j + 1, depth + 1)
    } else if is_named(toks[j], XmlTokenKind::End, wanted) {
        if depth <= 1 {
            j
        } else {
            closing_tag(toks, wanted, j + 1, (depth - 1) as nat)
        }
    } else {
        closing_tag(toks, wanted, j + 1, depth)
    }
}

/// The span of the first element named `wanted`.
pub open spec fn element_span_spec(xml: Seq<char>, wanted: Seq<char>) -> Option<(int, int, int)> {
    match char_tokens_spec(xml) {
        None => None,
        Some(p) => {
            let toks = p.0;
            let k = first_named_tag(toks, wanted, 0);
            if k == -1 {
                None
            } else if toks[k].kind == XmlTokenKind::Empty {
                Some((toks[k].start as int, toks[k].end as int, toks[k].start as int))
            } else {
                let c = closing_tag(toks, wanted, k + 1, 1);
                if c == -1 {
                    None
                } else {
                    Some((toks[k].start as int, toks[k].end as int, toks[c].start as int))
                }
            }
        },
    }
}

pub open spec fn span_view(s: XmlElementSpan) -> (int, int, int) {
    (s.start as int, s.open_end as int, s.close_start as int)
}

proof fn lemma_first_named_tag(toks: Seq<CharToken>, wanted: Seq<char>, i: int)
    requires
        0 <= i <= toks.len(),
    ensures
        first_named_tag(toks, wanted, i) == -1 || (i <= first_named_tag(toks, wanted, i) < toks.len()),
    decreases toks.len() - i,
{
    if i < toks.len() && !(is_named(toks[i], XmlTokenKind::Start, wanted) || is_named(toks[i], XmlTokenKind::Empty, wanted)) {
        lemma_first_named_tag(toks, wanted, i + 1);
    }
}

proof fn lemma_closing_tag(toks: Seq<CharToken>, wanted: Seq<char>, j: int, depth: nat)
    requires
        0 <= j <= toks.len(),
    ensures
        closing_tag(toks, wanted, j, depth) == -1 || (j <= closing_tag(toks, wanted, j, depth) < toks.len()),
    decreases toks.len() - j,
{
    if j < toks.len() {
        if is_named(toks[j], XmlTokenKind::Start, wanted) {
            lemma_closing_tag(toks, wanted, j + 1, depth + 1);
        } else if is_named(toks[j], XmlTokenKind::End, wanted) {
            if depth > 1 {
                lemma_closing_tag(toks, wanted, j + 1, (depth - 1) as nat);
            }
        } else {
            lemma_closing_tag(toks, wanted, j + 1, depth);
        }
    }
}

/// Later tokens start no earlier.
pub proof fn lemma_tokens_monotone(toks: Seq<CharToken>, n: int, i: int, j: int)
    requires
        tokens_well_formed(toks, n),
        0 <= i <= j < toks.len(),
    ensures
        toks[i].start <= toks[j].start,
    decreases j - i,
{
    if i < j {
        lemma_tokens_monotone(toks, n, i, j - 1);
        assert(toks[j - 1].end == toks[j].start);
        assert(toks[j - 1].start <= toks[j - 1].end);
    }
}

/// `element_span_by_local_name`: where the first element with the local name lies.
pub fn element_span_by_local_name(xml: &str, wanted: &str) -> (r: Option<XmlElementSpan>)
    ensures
        r is Some <==> element_span_spec(xml@, wanted@) is Some,
        r is Some ==> span_view(r.unwrap()) == element_span_spec(xml@, wanted@).unwrap(),
        r is Some ==> r.unwrap().start <= r.unwrap().open_end <= xml@.len() && r.unwrap().start
            <= r.unwrap().close_start <= xml@.len(),
{
    let toks = match char_tokens(xml) {
        Ok(p) => p.0,
        Err(_) => {
            return None;
        },
    };
    let wv = str_chars(wanted);
    let mut i: usize = 0;
    while i < toks.len()
        invariant
            0 <= i <= toks.len(),
            char_tokens_spec(xml@) is Some,
            toks@ == char_tokens_spec(xml@).unwrap().0,
            tokens_well_formed(toks@, xml@.len() as int),
            wv@ == wanted@,
            first_named_tag(toks@, wanted@, i as int) == first_named_tag(toks@, wanted@, 0),
        decreases toks.len() - i,
    {
        let t = &toks[i];
        if t.kind == XmlTokenKind::Start || t.kind == XmlTokenKind::Empty {
            let ln = local_name(t.name.as_str());
            let lv = str_chars(ln.as_str());
            if crate::text::vec_eq(&lv, &wv) {
                if t.kind == XmlTokenKind::Empty {
                    return Some(XmlElementSpan { start: t.start, open_end: t.end, close_start: t.start });
                }
                let mut depth: usize = 1;
                let mut j: usize = i + 1;
                proof {
                    assert(first_named_tag(toks@, wanted@, i as int) == i);
                }
                while j < toks.len()
                    invariant
                        i < j <= toks.len(),
                        char_tokens_spec(xml@) is Some,
                        first_named_tag(toks@, wanted@, 0) == i,
                        toks@[i as int].kind == XmlTokenKind::Start,
                        t == &toks@[i as int],
                        1 <= depth <= j - i,
                        toks@ == char_tokens_spec(xml@).unwrap().0,
                        tokens_well_formed(toks@, xml@.len() as int),
                        wv@ == wanted@,
                        closing_tag(toks@, wanted@, j as int, depth as nat) == closing_tag(toks@, wanted@, i + 1, 1),
                    decreases toks.len() - j,
                {
                    let u = &toks[j];
                    if u.kind == XmlTokenKind::Start || u.kind == XmlTokenKind::End {
                        let un = local_name(u.name.as_str());
                        let uv = str_chars(un.as_str());
                        if crate::text::vec_eq(&uv, &wv) {
                            if u.kind == XmlTokenKind::Start {
                                depth = depth + 1;
                            } else {
                                if depth <= 1 {
                                    proof {
                                        assert(toks@[i as int].start <= toks@[i as int].end);
                                        lemma_tokens_monotone(toks@, xml@.len() as int, i as int, j as int);
                                    }
                                    return Some(XmlElementSpan { start: t.start, open_end: t.end, close_start: u.start });
                                }
                                depth = depth - 1;
                            }
                        }
                    }
                    j = j + 1;
                }
                return None;
            }
        }
        i = i + 1;
    }
    None
}

// ---------------------------------------------------------------------------
// Counting children and writing `count`
// ---------------------------------------------------------------------------

/// How many elements named `child` sit at depth zero of the tokens from `i`
/// on, at the given depth.
pub open spec fn count_children_from(toks: Seq<CharToken>, child: Seq<char>, i: int, depth: nat) -> nat
    decreases toks.len() - i,
{
    if i < 0 || i >= toks.len() {
        0
    } else if toks[i].kind == XmlTokenKind::Start {
        (if depth == 0 && local_name_of(toks[i].name@) == child {
            1nat
        } else {
            0nat
        }) + count_children_from(toks, child, i + 1, depth + 1)
    } else if toks[i].kind == XmlTokenKind::Empty {
        (if depth == 0 && local_name_of(toks[i].name@) == child {
            1nat
        } else {
            0nat
        }) + count_children_from(toks, child, i + 1, depth)
    } else if toks[i].kind == XmlTokenKind::End {
        count_children_from(toks, child, i + 1, if depth == 0 {
            0nat
        } else {
            (depth - 1) as nat
        })
    } else {
        count_children_from(toks, child, i + 1, depth)
    }
}

/// The number of `child` elements directly inside the first `parent`.
pub open spec fn count_children_spec(xml: Seq<char>, parent: Seq<char>, child: Seq<char>) -> nat {
    match element_span_spec(xml, parent) {
        None => 0,
        Some(sp) => match char_tokens_spec(xml.subrange(sp.1, sp.2)) {
            None => 0,
            Some(p) => count_children_from(p.0, child, 0, 0),
        },
    }
}

/// Whether the first element named `parent` is not an empty-element tag
/// whose content span would be inverted (reading its content panics then).
pub open spec fn content_span_ok(xml: Seq<char>, parent: Seq<char>) -> bool {
    match element_span_spec(xml, parent) {
        Some(sp) => sp.1 <= sp.2,
        None => true,
    }
}

/// `count_children_in_parent`: how many `child` elements sit directly inside
/// the first `parent`.
pub fn count_children_in_parent(xml: &str, parent: &str, child: &str) -> (r: usize)
    requires
        content_span_ok(xml@, parent@),
    ensures
        r == count_children_spec(xml@, parent@, child@),
{
    let span = match element_span_by_local_name(xml, parent) {
        None => {
            return 0;
        },
        Some(s) => s,
    };
    let v = str_chars(xml);
    let fv = slice_vec(&v, span.open_end, span.close_start);
    let fragment = string_from_chars(fv.as_slice());
    let toks = match char_tokens(fragment.as_str()) {
        Ok(p) => p.0,
        Err(_) => {
            return 0;
        },
    };
    let cv = str_chars(child);
    let mut count: usize = 0;
    let mut depth: usize = 0;
    let mut i: usize = 0;
    while i < toks.len()
        invariant
            0 <= i <= toks.len(),
            depth <= i,
            count <= i,
            cv@ == child@,
            count + count_children_from(toks@, child@, i as int, depth as nat) == count_children_from(toks@, child@, 0, 0),
        decreases toks.len() - i,
    {
        let t = &toks[i];
        if t.kind == XmlTokenKind::Start {
            let ln = local_name(t.name.as_str());
            let lv = str_chars(ln.as_str());
            if depth == 0 && crate::text::vec_eq(&lv, &cv) {
                count = count + 1;
            }
            depth = depth + 1;
        } else if t.kind == XmlTokenKind::Empty {
            let ln = local_name(t.name.as_str());
            let lv = str_chars(ln.as_str());
            if depth == 0 && crate::text::vec_eq(&lv, &cv) {
                count = count + 1;
            }
        } else if t.kind == XmlTokenKind::End {
            if depth > 0 {
                depth = depth - 1;
            }
        }
        i = i + 1;
    }
    count
}

/// The start tag of a span with its `count` attribute set.
pub open spec fn counted_tag_spec(open: Seq<char>, count: nat) -> Seq<char> {
    let pos = find_seq_from(open, "count=\""@, 0);
    if pos != -1 {
        let vs = pos + 7;
        let ve = find_from(open, '"', vs);
        if ve != -1 {
            open.subrange(0, vs) + decimal(count) + open.subrange(ve, open.len() as int)
        } else {
            open
        }
    } else if rfind_seq(open, "/>"@) >= 0 {
        trim_end(open.subrange(0, rfind_seq(open, "/>"@))) + " count=\""@ + decimal(count) + "\"/>"@
    } else if rfind_seq(open, seq!['>']) >= 0 {
        trim_end(open.subrange(0, rfind_seq(open, seq!['>']))) + " count=\""@ + decimal(count) + "\">"@
    } else {
        open
    }
}

/// `set_start_tag_count_attr`: the text with the span's start tag carrying
/// the count.
pub fn set_start_tag_count_attr(xml: &str, span: XmlElementSpan, count: usize) -> (r: String)
    requires
        span.start <= span.open_end <= xml@.len(),
    ensures
        r@ == splice(xml@, span.start as int, span.open_end as int, counted_tag_spec(xml@.subrange(span.start as int, span.open_end as int), count as nat)),
{
    let v = str_chars(xml);
    let open = slice_vec(&v, span.start, span.open_end);
    let pat = str_chars("count=\"");
    let num = u64_to_string(count as u64);
    proof {
        reveal_strlit("count=\"");
        reveal_strlit("/>");
        reveal_strlit(" count=\"");
        reveal_strlit("\"/>");
        reveal_strlit("\">");
        crate::text::lemma_find_seq_from(open@, pat@, 0);
    }
    let replacement: String = match crate::text::vec_find_seq(&open, &pat, 0) {
        Some(pos) => {
            let vs = pos + 7;
            proof {
                crate::text::lemma_find_from(open@, '"', vs as int);
            }
            match crate::text::vec_find_char(&open, '"', vs) {
                Some(ve) => {
                    let a = slice_vec(&open, 0, vs);
                    let b = slice_vec(&open, ve, open.len());
                    let sa = string_from_chars(a.as_slice());
                    let sb = string_from_chars(b.as_slice());
                    concat3(sa.as_str(), num.as_str(), sb.as_str())
                },
                None => string_from_chars(open.as_slice()),
            }
        },
        None => {
            let close = str_chars("/>");
            match crate::xml::vec_rfind(&open, &close) {
                Some(pos) => {
                    proof {
                        crate::xml::lemma_rfind_from(open@, close@, open@.len() - close@.len());
                    }
                    let a = slice_vec(&open, 0, pos);
                    let n = crate::text::trim_end_len(&a);
                    let t = slice_vec(&a, 0, n);
                    let st = string_from_chars(t.as_slice());
                    concat4(st.as_str(), " count=\"", num.as_str(), "\"/>")
                },
                None => {
                    let mut gt: Vec<char> = Vec::new();
                    gt.push('>');
                    proof {
                        assert(gt@ =~= seq!['>']);
                    }
                    match crate::xml::vec_rfind(&open, &gt) {
                        Some(pos) => {
                            proof {
                                crate::xml::lemma_rfind_from(open@, gt@, open@.len() - 1);
                            }
                            let a = slice_vec(&open, 0, pos);
                            let n = crate::text::trim_end_len(&a);
                            let t = slice_vec(&a, 0, n);
                            let st = string_from_chars(t.as_slice());
                            concat4(st.as_str(), " count=\"", num.as_str(), "\">")
                        },
                        None => string_from_chars(open.as_slice()),
                    }
                },
            }
        },
    };
    proof {
        assert(replacement@ == counted_tag_spec(open@, count as nat));
    }
    crate::xml::replace_xml_span(xml, span.start, span.open_end, replacement.as_str())
}

/// The text with the first `parent`'s `count` set to its number of `child`
/// elements.
pub open spec fn set_count_spec(xml: Seq<char>, parent: Seq<char>, child: Seq<char>) -> Seq<char> {
    match element_span_spec(xml, parent) {
        None => xml,
        Some(sp) => splice(xml, sp.0, sp.1, counted_tag_spec(xml.subrange(sp.0, sp.1), count_children_spec(xml, parent, child))),
    }
}

/// `set_collection_count`: the first `parent` with its `count` attribute
/// made its number of `child` elements.
pub fn set_collection_count(xml: String, parent: &str, child: &str) -> (r: String)
    requires
        content_span_ok(xml@, parent@),
    ensures
        r@ == set_count_spec(xml@, parent@, child@),
{
    let count = count_children_in_parent(xml.as_str(), parent, child);
    match element_span_by_local_name(xml.as_str(), parent) {
        None => xml,
        Some(span) => set_start_tag_count_attr(xml.as_str(), span, count),
    }
}


// ---------------------------------------------------------------------------
// Inserting collections in schema order
// ---------------------------------------------------------------------------

/// The collections of a styles part, in schema order.
pub open spec fn style_collections() -> Seq<Seq<char>> {
    seq![
        "numFmts"@,
        "fonts"@,
        "fills"@,
        "borders"@,
        "cellStyleXfs"@,
        "cellXfs"@,
        "cellStyles"@,
        "dxfs"@,
        "tableStyles"@,
        "colors"@,
        "extLst"@
    ]
}

/// The styles part with `block` inserted before the first present collection
/// (from the `i`th on) that the schema puts after `target`, else before the
/// end of the part.
pub open spec fn insert_collection_from(xml: Seq<char>, target: u32, block: Seq<char>, i: int) -> Seq<char>
    decreases 11 - i,
{
    if i < 0 || i >= 11 {
        let pos = rfind_seq(xml, "</styleSheet>"@);
        if pos >= 0 {
            splice(xml, pos, pos, block)
        } else {
            xml
        }
    } else {
        let c = style_collections()[i];
        if xlsx_styles_collection_order_spec(c) > target && element_span_spec(xml, c) is Some {
            let sp = element_span_spec(xml, c).unwrap();
            splice(xml, sp.0, sp.0, block)
        } else {
            insert_collection_from(xml, target, block, i + 1)
        }
    }
}

/// The styles part with a collection inserted in schema order.
pub open spec fn insert_collection_spec(xml: Seq<char>, name: Seq<char>, block: Seq<char>) -> Seq<char> {
    insert_collection_from(xml, xlsx_styles_collection_order_spec(name), block, 0)
}

fn collection_name(i: usize) -> (r: &'static str)
    requires
        i < 11,
    ensures
        r@ == style_collections()[i as int],
{
    match i {
        0 => "numFmts",
        1 => "fonts",
        2 => "fills",
        3 => "borders",
        4 => "cellStyleXfs",
        5 => "cellXfs",
        6 => "cellStyles",
        7 => "dxfs",
        8 => "tableStyles",
        9 => "colors",
        _ => "extLst",
    }
}

/// `insert_xlsx_styles_collection`: the styles part with a collection block
/// inserted where the schema orders it.
pub fn insert_xlsx_styles_collection(styles_xml: &str, name: &str, block: &str) -> (r: String)
    ensures
        r@ == insert_collection_spec(styles_xml@, name@, block@),
{
    let target = xlsx_styles_collection_order(name);
    let mut i: usize = 0;
    while i < 11
        invariant
            0 <= i <= 11,
            target == xlsx_styles_collection_order_spec(name@),
            insert_collection_from(styles_xml@, target, block@, i as int) == insert_collection_spec(styles_xml@, name@, block@),
        decreases 11 - i,
    {
        let c = collection_name(i);
        if xlsx_styles_collection_order(c) > target {
            match element_span_by_local_name(styles_xml, c) {
                Some(span) => {
                    return crate::xml::insert_text(styles_xml, span.start, block);
                },
                None => {},
            }
        }
        i = i + 1;
    }
    let v = str_chars(styles_xml);
    let end = str_chars("</styleSheet>");
    match crate::xml::vec_rfind(&v, &end) {
        Some(pos) => {
            proof {
                crate::xml::lemma_rfind_from(v@, end@, v@.len() - end@.len());
            }
            crate::xml::insert_text(styles_xml, pos, block)
        },
        None => to_string(styles_xml),
    }
}

// ---------------------------------------------------------------------------
// Defaults
// ---------------------------------------------------------------------------

/// The styles part a workbook without one gets.
pub open spec fn default_styles() -> Seq<char> {
    "<styleSheet xmlns=\"http://schemas.openxmlformats.org/spreadsheetml/2006/main\"><fonts count=\"1\"><font/></fonts><fills count=\"2\"><fill><patternFill patternType=\"none\"/></fill><fill><patternFill patternType=\"gray125\"/></fill></fills><borders count=\"1\"><border/></borders><cellStyleXfs count=\"1\"><xf numFmtId=\"0\" fontId=\"0\" fillId=\"0\" borderId=\"0\"/></cellStyleXfs><cellXfs count=\"1\"><xf numFmtId=\"0\" fontId=\"0\" fillId=\"0\" borderId=\"0\" xfId=\"0\"/></cellXfs><cellStyles count=\"1\"><cellStyle name=\"Normal\" xfId=\"0\" builtinId=\"0\"/></cellStyles></styleSheet>"@
}

/// `default_xlsx_styles_xml`.
pub fn default_xlsx_styles_xml() -> (r: String)
    ensures
        r@ == default_styles(),
{
    to_string("<styleSheet xmlns=\"http://schemas.openxmlformats.org/spreadsheetml/2006/main\"><fonts count=\"1\"><font/></fonts><fills count=\"2\"><fill><patternFill patternType=\"none\"/></fill><fill><patternFill patternType=\"gray125\"/></fill></fills><borders count=\"1\"><border/></borders><cellStyleXfs count=\"1\"><xf numFmtId=\"0\" fontId=\"0\" fillId=\"0\" borderId=\"0\"/></cellStyleXfs><cellXfs count=\"1\"><xf numFmtId=\"0\" fontId=\"0\" fillId=\"0\" borderId=\"0\" xfId=\"0\"/></cellXfs><cellStyles count=\"1\"><cellStyle name=\"Normal\" xfId=\"0\" builtinId=\"0\"/></cellStyles></styleSheet>")
}

/// The collections every styles part needs, each with its default block.
pub open spec fn style_defaults() -> Seq<(Seq<char>, Seq<char>)> {
    seq![
        ("fonts"@, "<fonts count=\"1\"><font/></fonts>"@),
        ("fills"@, "<fills count=\"2\"><fill><patternFill patternType=\"none\"/></fill><fill><patternFill patternType=\"gray125\"/></fill></fills>"@),
        ("borders"@, "<borders count=\"1\"><border/></borders>"@),
        ("cellStyleXfs"@, "<cellStyleXfs count=\"1\"><xf numFmtId=\"0\" fontId=\"0\" fillId=\"0\" borderId=\"0\"/></cellStyleXfs>"@),
        ("cellXfs"@, "<cellXfs count=\"1\"><xf numFmtId=\"0\" fontId=\"0\" fillId=\"0\" borderId=\"0\" xfId=\"0\"/></cellXfs>"@),
        ("cellStyles"@, "<cellStyles count=\"1\"><cellStyle name=\"Normal\" xfId=\"0\" builtinId=\"0\"/></cellStyles>"@)
    ]
}

/// The styles part with each missing default collection (from the `i`th on)
/// inserted.
pub open spec fn ensure_defaults_from(xml: Seq<char>, i: int) -> Seq<char>
    decreases 6 - i,
{
    if i < 0 || i >= 6 {
        xml
    } else {
        let d = style_defaults()[i];
        let next = if element_span_spec(xml, d.0) is None {
            insert_collection_spec(xml, d.0, d.1)
        } else {
            xml
        };
        ensure_defaults_from(next, i + 1)
    }
}

/// A styles part with every default collection: the default part when the
/// text has no `styleSheet`.
pub open spec fn ensure_defaults_spec(xml: Seq<char>) -> Seq<char> {
    if rfind_seq(xml, "<styleSheet"@) < 0 {
        default_styles()
    } else {
        ensure_defaults_from(xml, 0)
    }
}

fn style_default(i: usize) -> (r: (&'static str, &'static str))
    requires
        i < 6,
    ensures
        (r.0@, r.1@) == style_defaults()[i as int],
{
    match i {
        0 => ("fonts", "<fonts count=\"1\"><font/></fonts>"),
        1 => ("fills", "<fills count=\"2\"><fill><patternFill patternType=\"none\"/></fill><fill><patternFill patternType=\"gray125\"/></fill></fills>"),
        2 => ("borders", "<borders count=\"1\"><border/></borders>"),
        3 => ("cellStyleXfs", "<cellStyleXfs count=\"1\"><xf numFmtId=\"0\" fontId=\"0\" fillId=\"0\" borderId=\"0\"/></cellStyleXfs>"),
        4 => ("cellXfs", "<cellXfs count=\"1\"><xf numFmtId=\"0\" fontId=\"0\" fillId=\"0\" borderId=\"0\" xfId=\"0\"/></cellXfs>"),
        _ => ("cellStyles", "<cellStyles count=\"1\"><cellStyle name=\"Normal\" xfId=\"0\" builtinId=\"0\"/></cellStyles>"),
    }
}

/// `ensure_xlsx_style_defaults`: the styles part with every collection the
/// writers rely on.
pub fn ensure_xlsx_style_defaults(styles_xml: String) -> (r: String)
    ensures
        r@ == ensure_defaults_spec(styles_xml@),
{
    let v = str_chars(styles_xml.as_str());
    let pat = str_chars("<styleSheet");
    if crate::xml::vec_rfind(&v, &pat).is_none() {
        return default_xlsx_styles_xml();
    }
    let mut xml = styles_xml;
    let mut i: usize = 0;
    while i < 6
        invariant
            0 <= i <= 6,
            rfind_seq(v@, "<styleSheet"@) >= 0,
            ensure_defaults_from(xml@, i as int) == ensure_defaults_spec(v@),
        decreases 6 - i,
    {
        let (name, block) = style_default(i);
        if element_span_by_local_name(xml.as_str(), name).is_none() {
            xml = insert_xlsx_styles_collection(xml.as_str(), name, block);
        }
        i = i + 1;
    }
    xml
}


// ---------------------------------------------------------------------------
// Number formats
// ---------------------------------------------------------------------------

/// The custom number format a `numFmt` element's attributes declare.
pub open spec fn numfmt_of(attrs: Seq<(Seq<char>, Seq<char>)>) -> Option<(u32, Seq<char>)> {
    match (crate::elements::attr_lookup(attrs, "numFmtId"@), crate::elements::attr_lookup(attrs, "formatCode"@)) {
        (Some(id), Some(code)) => match crate::text::parse_u32_spec(id) {
            Some(n) => Some((n, code)),
            None => None,
        },
        _ => None,
    }
}

/// The custom number formats declared from token `i` on.
pub open spec fn numfmts_from(xml: Seq<char>, toks: Seq<CharToken>, i: int) -> Seq<(u32, Seq<char>)>
    decreases toks.len() - i,
{
    if i < 0 || i >= toks.len() {
        Seq::empty()
    } else if (toks[i].kind == XmlTokenKind::Start || toks[i].kind == XmlTokenKind::Empty) && local_name_of(toks[i].name@) == "numFmt"@ {
        match numfmt_of(crate::xml::quick_xml_tag_attributes(xml.subrange(toks[i].start as int, toks[i].end as int))) {
            Some(f) => seq![f] + numfmts_from(xml, toks, i + 1),
            None => numfmts_from(xml, toks, i + 1),
        }
    } else {
        numfmts_from(xml, toks, i + 1)
    }
}

/// The custom number formats of a styles part, in order.
pub open spec fn numfmts_spec(xml: Seq<char>) -> Seq<(u32, Seq<char>)> {
    match char_tokens_spec(xml) {
        None => Seq::empty(),
        Some(p) => numfmts_from(xml, p.0, 0),
    }
}

/// `parse_xlsx_num_formats`: the custom number formats of a styles part.
pub fn parse_xlsx_num_formats(styles_xml: &str) -> (r: Vec<(u32, String)>)
    ensures
        r.deep_view() == numfmts_spec(styles_xml@),
{
    let toks = match char_tokens(styles_xml) {
        Ok(p) => p.0,
        Err(_) => {
            let v: Vec<(u32, String)> = Vec::new();
            proof {
                assert(v.deep_view() =~= Seq::<(u32, Seq<char>)>::empty());
            }
            return v;
        },
    };
    let chars = str_chars(styles_xml);
    let nv = str_chars("numFmt");
    let mut out: Vec<(u32, String)> = Vec::new();
    let mut i: usize = 0;
    proof {
        assert(out.deep_view() + numfmts_from(styles_xml@, toks@, 0) =~= numfmts_from(styles_xml@, toks@, 0));
    }
    while i < toks.len()
        invariant
            0 <= i <= toks.len(),
            char_tokens_spec(styles_xml@) is Some,
            toks@ == char_tokens_spec(styles_xml@).unwrap().0,
            tokens_well_formed(toks@, styles_xml@.len() as int),
            chars@ == styles_xml@,
            nv@ == "numFmt"@,
            out.deep_view() + numfmts_from(styles_xml@, toks@, i as int) == numfmts_spec(styles_xml@),
        decreases toks.len() - i,
    {
        let t = &toks[i];
        if t.kind == XmlTokenKind::Start || t.kind == XmlTokenKind::Empty {
            let ln = local_name(t.name.as_str());
            let lv = str_chars(ln.as_str());
            if crate::text::vec_eq(&lv, &nv) {
                let tv = slice_vec(&chars, t.start, t.end);
                let tag = string_from_chars(tv.as_slice());
                let attrs = crate::xml::tag_attributes(tag.as_str());
                let id = crate::elements::attr_get(&attrs, "numFmtId");
                let code = crate::elements::attr_get(&attrs, "formatCode");
                match (id, code) {
                    (Some(id), Some(code)) => match crate::text::parse_u32(id.as_str()) {
                        Some(n) => {
                            let ghost before = out.deep_view();
                            out.push((n, code));
                            proof {
                                assert(out.deep_view() =~= before + seq![(n, code@)]);
                            }
                        },
                        None => {},
                    },
                    _ => {},
                }
            }
        }
        i = i + 1;
    }
    proof {
        assert(out.deep_view() + Seq::<(u32, Seq<char>)>::empty() =~= out.deep_view());
    }
    out
}

/// The index of the first format from `i` on with the code, or -1.
pub open spec fn first_with_code(fm: Seq<(u32, Seq<char>)>, code: Seq<char>, i: int) -> int
    decreases fm.len() - i,
{
    if i < 0 || i >= fm.len() {
        -1
    } else if fm[i].1 == code {
        i
    } else {
        first_with_code(fm, code, i + 1)
    }
}

/// The id a new custom format gets: 164, or one past the largest id in use
/// (wrapping, as the running program does).
pub open spec fn next_numfmt_id(fm: Seq<(u32, Seq<char>)>) -> u32
    decreases fm.len(),
{
    if fm.len() == 0 {
        164
    } else {
        let n = next_numfmt_id(fm.drop_last());
        if fm.last().0 >= n {
            fm.last().0.wrapping_add(1)
        } else {
            n
        }
    }
}

/// A `numFmt` element.
pub open spec fn numfmt_element(id: u32, code: Seq<char>) -> Seq<char> {
    "<numFmt numFmtId=\""@ + decimal(id as nat) + "\" formatCode=\""@ + crate::elements::attr_escape(code) + "\"/>"@
}

/// The styles text right after a new format goes into an existing `numFmts`.
pub open spec fn numfmt_appended(x: Seq<char>, id: u32, code: Seq<char>) -> Seq<char> {
    let sp = element_span_spec(x, "numFmts"@).unwrap();
    splice(x, sp.2, sp.2, numfmt_element(id, code))
}

/// The styles part and id a number format gets: a built-in one keeps its
/// id, a custom one reuses a format with the same code or is added with a
/// fresh id.
pub open spec fn ensure_numfmt_spec(xml: Seq<char>, spec: (Seq<char>, Seq<char>, u32, bool)) -> (Seq<char>, u32) {
    let x = ensure_defaults_spec(xml);
    if spec.3 {
        (x, spec.2)
    } else {
        let fm = numfmts_spec(x);
        let j = first_with_code(fm, spec.1, 0);
        if j != -1 {
            (x, fm[j].0)
        } else {
            let id = next_numfmt_id(fm);
            if element_span_spec(x, "numFmts"@) is Some {
                (set_count_spec(numfmt_appended(x, id, spec.1), "numFmts"@, "numFmt"@), id)
            } else {
                (insert_collection_spec(x, "numFmts"@, "<numFmts count=\"1\">"@ + numfmt_element(id, spec.1) + "</numFmts>"@), id)
            }
        }
    }
}

/// Whether adding the format reads no inverted content span: the running
/// program panics when the part's `numFmts` is an empty-element tag.
pub open spec fn numfmt_fits(xml: Seq<char>, spec: (Seq<char>, Seq<char>, u32, bool)) -> bool {
    let x = ensure_defaults_spec(xml);
    let fm = numfmts_spec(x);
    spec.3 || first_with_code(fm, spec.1, 0) != -1 || element_span_spec(x, "numFmts"@) is None
        || content_span_ok(numfmt_appended(x, next_numfmt_id(fm), spec.1), "numFmts"@)
}

struct NumFmtPlan {
    x: String,
    found: Option<u32>,
    id: u32,
}

fn plan_number_format(styles_xml: String, spec: &crate::numfmt::XlsxNumberFormatSpec) -> (r: NumFmtPlan)
    requires
        !spec.builtin,
    ensures
        r.x@ == ensure_defaults_spec(styles_xml@),
        ({
            let fm = numfmts_spec(r.x@);
            let j = first_with_code(fm, spec.format_code@, 0);
            &&& (r.found is Some <==> j != -1)
            &&& (r.found is Some ==> r.found.unwrap() == fm[j].0)
            &&& (r.found is None ==> r.id == next_numfmt_id(fm))
        }),
{
    let ghost orig = styles_xml@;
    let x = ensure_xlsx_style_defaults(styles_xml);
    proof {
        assert(orig == styles_xml@);
    }
    let formats = parse_xlsx_num_formats(x.as_str());
    let ghost fm = formats.deep_view();
    let mut j: usize = 0;
    while j < formats.len()
        invariant
            0 <= j <= formats.len(),
            fm == formats.deep_view(),
            fm == numfmts_spec(x@),
            x@ == ensure_defaults_spec(orig),
            orig == styles_xml@,
            first_with_code(fm, spec.format_code@, j as int) == first_with_code(fm, spec.format_code@, 0),
        decreases formats.len() - j,
    {
        proof {
            assert(fm[j as int] == (formats@[j as int].0, formats@[j as int].1@));
        }
        if crate::text::str_eq(formats[j].1.as_str(), spec.format_code.as_str()) {
            proof {
                assert(first_with_code(fm, spec.format_code@, j as int) == j);
            }
            return NumFmtPlan { x, found: Some(formats[j].0), id: 0 };
        }
        j = j + 1;
    }
    let mut next: u32 = 164;
    let mut k: usize = 0;
    while k < formats.len()
        invariant
            0 <= k <= formats.len(),
            fm == formats.deep_view(),
            fm == numfmts_spec(x@),
            x@ == ensure_defaults_spec(orig),
            first_with_code(fm, spec.format_code@, 0) == -1,
            next == next_numfmt_id(fm.subrange(0, k as int)),
        decreases formats.len() - k,
    {
        proof {
            let pre = fm.subrange(0, k + 1);
            assert(pre.drop_last() =~= fm.subrange(0, k as int));
            assert(pre.last() == fm[k as int]);
            assert(fm[k as int] == (formats@[k as int].0, formats@[k as int].1@));
        }
        if formats[k].0 >= next {
            next = formats[k].0.wrapping_add(1);
        }
        k = k + 1;
    }
    proof {
        assert(fm.subrange(0, fm.len() as int) =~= fm);
    }
    NumFmtPlan { x, found: None, id: next }
}

fn numfmt_element_exec(id: u32, code: &str) -> (r: String)
    ensures
        r@ == numfmt_element(id, code@),
{
    let ids = crate::text::u32_to_string(id);
    let esc = crate::elements::xml_attr_escape(code);
    let a = concat4("<numFmt numFmtId=\"", ids.as_str(), "\" formatCode=\"", esc.as_str());
    concat2(a.as_str(), "\"/>")
}

/// `ensure_xlsx_number_format`: the styles part holding the number format,
/// and its id.
pub fn ensure_xlsx_number_format(styles_xml: String, spec: &crate::numfmt::XlsxNumberFormatSpec) -> (r: CliResult<(String, u32)>)
    requires
        numfmt_fits(styles_xml@, crate::numfmt::numfmt_view(*spec)),
    ensures
        r is Ok,
        (r->Ok_0.0@, r->Ok_0.1) == ensure_numfmt_spec(styles_xml@, crate::numfmt::numfmt_view(*spec)),
{
    if spec.builtin {
        let x = ensure_xlsx_style_defaults(styles_xml);
        return Ok((x, spec.number_format_id));
    }
    let plan = plan_number_format(styles_xml, spec);
    match plan.found {
        Some(id) => {
            return Ok((plan.x, id));
        },
        None => {},
    }
    let x = plan.x;
    let num_fmt = numfmt_element_exec(plan.id, spec.format_code.as_str());
    match element_span_by_local_name(x.as_str(), "numFmts") {
        Some(span) => {
            let out = crate::xml::insert_text(x.as_str(), span.close_start, num_fmt.as_str());
            Ok((set_collection_count(out, "numFmts", "numFmt"), plan.id))
        },
        None => {
            let block = concat3("<numFmts count=\"1\">", num_fmt.as_str(), "</numFmts>");
            Ok((insert_xlsx_styles_collection(x.as_str(), "numFmts", block.as_str()), plan.id))
        },
    }
}

/// Whether the number format can be added without the inverted span the
/// running program panics on.
pub fn number_format_fits(styles_xml: &str, spec: &crate::numfmt::XlsxNumberFormatSpec) -> (r: bool)
    ensures
        r == numfmt_fits(styles_xml@, crate::numfmt::numfmt_view(*spec)),
{
    if spec.builtin {
        return true;
    }
    let plan = plan_number_format(to_string(styles_xml), spec);
    if plan.found.is_some() {
        return true;
    }
    match element_span_by_local_name(plan.x.as_str(), "numFmts") {
        None => true,
        Some(span) => {
            let num_fmt = numfmt_element_exec(plan.id, spec.format_code.as_str());
            let out = crate::xml::insert_text(plan.x.as_str(), span.close_start, num_fmt.as_str());
            match element_span_by_local_name(out.as_str(), "numFmts") {
                None => true,
                Some(s2) => s2.open_end <= s2.close_start,
            }
        },
    }
}

/// The styles part holding the number format and its id, or `None` where
/// the part's `numFmts` is an empty-element tag (on which the running
/// program panics).
pub fn ensure_xlsx_number_format_checked(styles_xml: String, spec: &crate::numfmt::XlsxNumberFormatSpec) -> (r: Option<(String, u32)>)
    ensures
        r is Some <==> numfmt_fits(styles_xml@, crate::numfmt::numfmt_view(*spec)),
        r is Some ==> (r.unwrap().0@, r.unwrap().1) == ensure_numfmt_spec(styles_xml@, crate::numfmt::numfmt_view(*spec)),
{
    if !number_format_fits(styles_xml.as_str(), spec) {
        return None;
    }
    match ensure_xlsx_number_format(styles_xml, spec) {
        Ok(p) => Some(p),
        Err(_) => None,
    }
}


// ---------------------------------------------------------------------------
// The styles part of a workbook
// ---------------------------------------------------------------------------

/// The relationship type of a styles part.
pub open spec fn rel_styles() -> Seq<char> {
    "http://schemas.openxmlformats.org/officeDocument/2006/relationships/styles"@
}

/// The index of the first internal styles relationship from `i` on, or -1.
pub open spec fn first_styles_rel(v: crate::hyperlinks::RelsView, i: int) -> int
    decreases v.len() - i,
{
    if i < 0 || i >= v.len() {
        -1
    } else if v[i].3 != "External"@ && v[i].1 == rel_styles() {
        i
    } else {
        first_styles_rel(v, i + 1)
    }
}

/// The styles relationship a workbook gets when it has none.
pub open spec fn styles_rel_element(id: Seq<char>) -> Seq<char> {
    "<Relationship Id=\""@ + id + "\" Type=\"http://schemas.openxmlformats.org/officeDocument/2006/relationships/styles\" Target=\"styles.xml\"/>"@
}

/// The workbook's styles part, and the new text of its relationships part
/// when a styles relationship had to be added.
pub open spec fn styles_part_spec(rels_xml: Seq<char>, v: crate::hyperlinks::RelsView) -> (Seq<char>, Option<Seq<char>>) {
    let k = first_styles_rel(v, 0);
    if k != -1 {
        (crate::sheets::xl_target_spec(v[k].2), None)
    } else {
        let rel = styles_rel_element(crate::hyperlinks::fresh_rel_id(v));
        let pos = rfind_seq(rels_xml, "</Relationships>"@);
        let updated = if pos >= 0 {
            splice(rels_xml, pos, pos, rel)
        } else {
            "<?xml version=\"1.0\" encoding=\"UTF-8\"?><Relationships xmlns=\"http://schemas.openxmlformats.org/package/2006/relationships\">"@ + rel + "</Relationships>"@
        };
        ("xl/styles.xml"@, Some(updated))
    }
}

/// `resolve_or_add_xlsx_styles_part`: the workbook's styles part, adding a
/// relationship to `xl/styles.xml` when there is none (given the workbook
/// relationships part's text and its entries).
pub fn resolve_or_add_xlsx_styles_part(rels_xml: &str, rels: &Vec<crate::rels::RelationshipEntry>) -> (r: (String, Option<String>))
    ensures
        (r.0@, match r.1 {
            Some(x) => Some(x@),
            None => None,
        }) == styles_part_spec(rels_xml@, crate::rels::rels_view(rels@)),
{
    let ghost v = crate::rels::rels_view(rels@);
    let mut i: usize = 0;
    while i < rels.len()
        invariant
            0 <= i <= rels.len(),
            v == crate::rels::rels_view(rels@),
            first_styles_rel(v, i as int) == first_styles_rel(v, 0),
        decreases rels.len() - i,
    {
        proof {
            assert(v[i as int] == crate::rels::rel_view(rels@[i as int]));
            reveal_strlit("External");
            reveal_strlit("http://schemas.openxmlformats.org/officeDocument/2006/relationships/styles");
        }
        if !crate::text::str_eq(rels[i].target_mode.as_str(), "External")
            && crate::text::str_eq(rels[i].rel_type.as_str(), "http://schemas.openxmlformats.org/officeDocument/2006/relationships/styles") {
            return (crate::sheets::normalize_xl_target(rels[i].target.as_str()), None);
        }
        i = i + 1;
    }
    let next_id = crate::rels::allocate_relationship_id(rels);
    let rel = concat3("<Relationship Id=\"", next_id.as_str(), "\" Type=\"http://schemas.openxmlformats.org/officeDocument/2006/relationships/styles\" Target=\"styles.xml\"/>");
    let x = str_chars(rels_xml);
    let end = str_chars("</Relationships>");
    let updated = match crate::xml::vec_rfind(&x, &end) {
        Some(pos) => {
            proof {
                crate::xml::lemma_rfind_from(x@, end@, x@.len() - end@.len());
            }
            crate::xml::insert_text(rels_xml, pos, rel.as_str())
        },
        None => concat3("<?xml version=\"1.0\" encoding=\"UTF-8\"?><Relationships xmlns=\"http://schemas.openxmlformats.org/package/2006/relationships\">", rel.as_str(), "</Relationships>"),
    };
    (to_string("xl/styles.xml"), Some(updated))
}

} // verus!
