//! Element-level helpers over XML text: the direct children of an element,
//! the bounds of a one-element fragment, qualified names, the attributes of a
//! start tag, and rendering attributes back.
use vstd::prelude::*;
use crate::error::{CliError, CliResult, ErrorKind};
use crate::text::{
    concat2, concat3, find_from, has_suffix, slice_vec, str_chars, string_from_chars, to_string,
    trim_end, vec_eq_str, vec_find_char, lemma_find_from,
};
use crate::xml::{
    char_tokens, char_tokens_spec, close_tag_of, direct_children_spec, matches_at, rfind_seq,
    lemma_rfind_from, shift_spans, span_of, spans_of, spans_ordered, tag_attributes, quick_xml_tag_attributes,
    vec_rfind, xml_direct_child_ranges, CharToken, XmlNamedRange, XmlTokenKind, is_tag,
    tokens_well_formed,
};

verus! {

// ---------------------------------------------------------------------------
// Direct children
// ---------------------------------------------------------------------------

/// The direct children of `xml[cs..ce]` with positions in `xml`; none at all
/// for an empty or inverted content span.
pub open spec fn child_spans(xml: Seq<char>, cs: int, ce: int) -> Option<Seq<(int, int, Seq<char>)>> {
    if cs >= ce {
        Some(Seq::empty())
    } else {
        match direct_children_spec(xml.subrange(cs, ce)) {
            Some(sp) => Some(shift_spans(sp, cs)),
            None => None,
        }
    }
}

/// `direct_child_ranges`: the elements directly inside a content span.
pub fn direct_child_ranges(xml: &str, content_start: usize, content_end: usize) -> (r: CliResult<
    Vec<XmlNamedRange>,
>)
    requires
        content_start < content_end ==> content_end <= xml@.len(),
    ensures
        r is Ok <==> child_spans(xml@, content_start as int, content_end as int) is Some,
        r is Ok ==> spans_of(r->Ok_0@) == child_spans(
            xml@,
            content_start as int,
            content_end as int,
        ).unwrap(),
        r is Ok ==> spans_ordered(spans_of(r->Ok_0@), content_start as int, content_end as int),
        r is Err ==> r->Err_0.kind == ErrorKind::Unexpected,
{
    if content_start >= content_end {
        let v: Vec<XmlNamedRange> = Vec::new();
        proof {
            assert(spans_of(v@) =~= Seq::empty());
        }
        return Ok(v);
    }
    xml_direct_child_ranges(xml, content_start, content_end)
}

/// The index of the first span from `i` on named `kind`, or -1.
pub open spec fn first_with_kind(sp: Seq<(int, int, Seq<char>)>, kind: Seq<char>, i: int) -> int
    decreases sp.len() - i,
{
    if i < 0 || i >= sp.len() {
        -1
    } else if sp[i].2 == kind {
        i
    } else {
        first_with_kind(sp, kind, i + 1)
    }
}

pub proof fn lemma_first_with_kind(sp: Seq<(int, int, Seq<char>)>, kind: Seq<char>, i: int)
    requires
        0 <= i <= sp.len(),
    ensures
        first_with_kind(sp, kind, i) == -1 || (i <= first_with_kind(sp, kind, i) < sp.len()
            && sp[first_with_kind(sp, kind, i)].2 == kind),
    decreases sp.len() - i,
{
    if i < sp.len() && sp[i].2 != kind {
        lemma_first_with_kind(sp, kind, i + 1);
    }
}

/// The first direct child named `kind` in a content span, as a span of `xml`.
pub open spec fn child_named(xml: Seq<char>, cs: int, ce: int, kind: Seq<char>) -> Option<
    Option<(int, int, Seq<char>)>,
> {
    match child_spans(xml, cs, ce) {
        None => None,
        Some(sp) => {
            let j = first_with_kind(sp, kind, 0);
            if j == -1 {
                Some(None)
            } else {
                Some(Some(sp[j]))
            }
        },
    }
}

/// `direct_child_range`: the first element named `kind` directly inside a
/// content span.
pub fn direct_child_range(xml: &str, content_start: usize, content_end: usize, kind: &str) -> (r:
    CliResult<Option<XmlNamedRange>>)
    requires
        content_start < content_end ==> content_end <= xml@.len(),
    ensures
        r is Ok <==> child_named(xml@, content_start as int, content_end as int, kind@) is Some,
        r is Ok ==> match r->Ok_0 {
            None => child_named(xml@, content_start as int, content_end as int, kind@).unwrap() is None,
            Some(x) => child_named(xml@, content_start as int, content_end as int, kind@).unwrap()
                == Some(span_of(x)) && content_start <= x.start <= x.end <= content_end,
        },
        r is Err ==> r->Err_0.kind == ErrorKind::Unexpected,
{
    let children = direct_child_ranges(xml, content_start, content_end)?;
    let ghost sp = spans_of(children@);
    let k = str_chars(kind);
    let mut i: usize = 0;
    proof {
        lemma_first_with_kind(sp, kind@, 0);
    }
    while i < children.len()
        invariant
            0 <= i <= children.len(),
            sp == spans_of(children@),
            child_spans(xml@, content_start as int, content_end as int) == Some(sp),
            spans_ordered(sp, content_start as int, content_end as int),
            k@ == kind@,
            first_with_kind(sp, kind@, i as int) == first_with_kind(sp, kind@, 0),
        decreases children.len() - i,
    {
        let c = str_chars(children[i].kind.as_str());
        proof {
            assert(sp[i as int] == span_of(children@[i as int]));
        }
        if crate::text::vec_eq(&c, &k) {
            proof {
                assert(content_start <= sp[i as int].0 <= sp[i as int].1 <= content_end);
                assert(first_with_kind(sp, kind@, i as int) == i);
            }
            return Ok(Some(children[i].clone_range()));
        }
        i = i + 1;
    }
    Ok(None)
}

// ---------------------------------------------------------------------------
// Qualified names
// ---------------------------------------------------------------------------

/// The prefix of a qualified name (empty when it has none).
pub open spec fn prefix_of(name: Seq<char>) -> Seq<char> {
    let c = find_from(name, ':', 0);
    if c == -1 {
        Seq::empty()
    } else {
        name.subrange(0, c)
    }
}

/// `xml_tag_prefix`: the namespace prefix of a qualified tag name.
pub fn xml_tag_prefix(name: &str) -> (r: String)
    ensures
        r@ == prefix_of(name@),
{
    let v = str_chars(name);
    proof {
        lemma_find_from(v@, ':', 0);
    }
    match vec_find_char(&v, ':', 0) {
        None => {
            let e = String::new();
            proof {
                assert(e@ =~= Seq::<char>::empty());
            }
            e
        },
        Some(c) => vec_to_string_range(&v, 0, c),
    }
}

pub fn vec_to_string_range(v: &Vec<char>, a: usize, b: usize) -> (r: String)
    requires
        a <= b <= v.len(),
    ensures
        r@ == v@.subrange(a as int, b as int),
{
    let w = slice_vec(v, a, b);
    string_from_chars(w.as_slice())
}

/// A local name with the prefix in front, when there is one.
pub open spec fn element_name_spec(prefix: Seq<char>, local: Seq<char>) -> Seq<char> {
    if prefix.len() == 0 {
        local
    } else {
        prefix + seq![':'] + local
    }
}

/// `element_name`: the qualified name of a local name under a prefix.
pub fn element_name(prefix: &str, local: &str) -> (r: String)
    ensures
        r@ == element_name_spec(prefix@, local@),
{
    if prefix.unicode_len() == 0 {
        to_string(local)
    } else {
        proof {
            reveal_strlit(":");
        }
        concat3(prefix, ":", local)
    }
}

// ---------------------------------------------------------------------------
// The bounds of a one-element fragment
// ---------------------------------------------------------------------------

/// The index of the first start or empty tag from `i` on, or -1.
pub open spec fn first_tag_from(toks: Seq<CharToken>, i: int) -> int
    decreases toks.len() - i,
{
    if i < 0 || i >= toks.len() {
        -1
    } else if is_tag(toks[i]) {
        i
    } else {
        first_tag_from(toks, i + 1)
    }
}

pub proof fn lemma_first_tag_from(toks: Seq<CharToken>, i: int)
    requires
        0 <= i <= toks.len(),
    ensures
        first_tag_from(toks, i) == -1 || (i <= first_tag_from(toks, i) < toks.len() && is_tag(
            toks[first_tag_from(toks, i)],
        )),
    decreases toks.len() - i,
{
    if i < toks.len() && !is_tag(toks[i]) {
        lemma_first_tag_from(toks, i + 1);
    }
}

/// The first start or empty tag of a fragment, as a token.
pub open spec fn first_tag_spec(frag: Seq<char>) -> Option<CharToken> {
    match char_tokens_spec(frag) {
        None => None,
        Some(p) => {
            let k = first_tag_from(p.0, 0);
            if k == -1 {
                None
            } else {
                Some(p.0[k])
            }
        },
    }
}

/// Where the element a fragment starts with lies: the index of the `>` that
/// ends its start tag, its qualified name, where its end tag starts, and
/// whether it is an empty-element tag.
pub open spec fn fragment_bounds_spec(frag: Seq<char>) -> Option<(int, Seq<char>, int, bool)> {
    match first_tag_spec(frag) {
        None => None,
        Some(t) => if t.end <= t.start {
            None
        } else if t.kind == XmlTokenKind::Empty {
            Some((t.end - 1, t.name@, t.end as int, true))
        } else {
            let c = rfind_seq(frag, close_tag_of(t.name@));
            if c < 0 {
                None
            } else {
                Some((t.end - 1, t.name@, c, false))
            }
        },
    }
}

fn first_tag(frag: &str) -> (r: CliResult<(XmlTokenKind, usize, usize, String)>)
    ensures
        r is Ok <==> first_tag_spec(frag@) is Some,
        r is Ok ==> {
            let t = first_tag_spec(frag@).unwrap();
            &&& r->Ok_0.0 == t.kind
            &&& r->Ok_0.1 == t.start
            &&& r->Ok_0.2 == t.end
            &&& r->Ok_0.3@ == t.name@
            &&& t.start <= t.end <= frag@.len()
        },
        r is Err ==> r->Err_0.kind == ErrorKind::Unexpected,
{
    let (toks, _err) = char_tokens(frag)?;
    let mut i: usize = 0;
    while i < toks.len()
        invariant
            0 <= i <= toks.len(),
            char_tokens_spec(frag@) is Some,
            toks@ == char_tokens_spec(frag@).unwrap().0,
            tokens_well_formed(toks@, frag@.len() as int),
            first_tag_from(toks@, i as int) == first_tag_from(toks@, 0),
        decreases toks.len() - i,
    {
        let t = &toks[i];
        if t.kind == XmlTokenKind::Start || t.kind == XmlTokenKind::Empty {
            return Ok((t.kind, t.start, t.end, t.name.clone()));
        }
        i = i + 1;
    }
    Err(CliError::unexpected(to_string("XML element not found")))
}

/// `xml_fragment_bounds`: the bounds of the element a fragment starts with.
pub fn xml_fragment_bounds(fragment: &str) -> (r: CliResult<(usize, String, usize, bool)>)
    ensures
        r is Ok <==> fragment_bounds_spec(fragment@) is Some,
        r is Ok ==> {
            let b = fragment_bounds_spec(fragment@).unwrap();
            &&& r->Ok_0.0 == b.0
            &&& r->Ok_0.1@ == b.1
            &&& r->Ok_0.2 == b.2
            &&& r->Ok_0.3 == b.3
        },
        r is Ok ==> r->Ok_0.0 < fragment@.len() && r->Ok_0.2 <= fragment@.len(),
        r is Err ==> r->Err_0.kind == ErrorKind::Unexpected,
{
    let (kind, start, end, name) = first_tag(fragment)?;
    if end <= start {
        return Err(CliError::unexpected(to_string("invalid XML element")));
    }
    if kind == XmlTokenKind::Empty {
        return Ok((end - 1, name, end, true));
    }
    let v = str_chars(fragment);
    let ct = close_tag_chars(name.as_str());
    match vec_rfind(&v, &ct) {
        None => Err(CliError::unexpected(to_string("XML element has no closing tag"))),
        Some(c) => {
            proof {
                lemma_rfind_from(v@, ct@, v@.len() - ct@.len());
                assert(matches_at(v@, ct@, c as int));
            }
            Ok((end - 1, name, c, false))
        },
    }
}

/// The characters of the end tag `</name>`.
pub fn close_tag_chars(name: &str) -> (r: Vec<char>)
    ensures
        r@ == close_tag_of(name@),
{
    let n = str_chars(name);
    let mut ct: Vec<char> = Vec::new();
    ct.push('<');
    ct.push('/');
    let mut q: usize = 0;
    while q < n.len()
        invariant
            0 <= q <= n.len(),
            ct@ == seq!['<', '/'] + n@.subrange(0, q as int),
        decreases n.len() - q,
    {
        ct.push(n[q]);
        q = q + 1;
    }
    ct.push('>');
    proof {
        assert(n@.subrange(0, n@.len() as int) =~= n@);
        assert(ct@ =~= close_tag_of(name@));
    }
    ct
}

// ---------------------------------------------------------------------------
// Start tags
// ---------------------------------------------------------------------------

/// The start tag an empty-element tag would have: `<a x="1"/>` gives `<a x="1">`.
pub open spec fn open_tag_spec(tag: Seq<char>) -> Seq<char> {
    let t = trim_end(tag);
    if has_suffix(t, "/>"@) {
        trim_end(t.subrange(0, t.len() - 2)) + seq!['>']
    } else {
        t
    }
}

/// `xml_open_tag_from_start`: the start tag of an empty-element tag, so that
/// content can follow it.
pub fn xml_open_tag_from_start(tag: &str) -> (r: String)
    ensures
        r@ == open_tag_spec(tag@),
{
    let v = str_chars(tag);
    let b = crate::text::trim_end_len(&v);
    let t = slice_vec(&v, 0, b);
    let suffix = str_chars("/>");
    proof {
        reveal_strlit("/>");
    }
    if crate::text::vec_ends_with(&t, &suffix) {
        let u = slice_vec(&t, 0, t.len() - 2);
        let d = crate::text::trim_end_len(&u);
        let mut w = slice_vec(&u, 0, d);
        w.push('>');
        proof {
            assert(t@ == trim_end(tag@));
            assert(w@ =~= open_tag_spec(tag@));
        }
        string_from_chars(w.as_slice())
    } else {
        string_from_chars(t.as_slice())
    }
}

// ---------------------------------------------------------------------------
// Attributes
// ---------------------------------------------------------------------------

/// The attributes of the first start or empty tag of a fragment.
pub open spec fn first_attrs_spec(frag: Seq<char>) -> Option<Seq<(Seq<char>, Seq<char>)>> {
    match first_tag_spec(frag) {
        None => None,
        Some(t) => Some(quick_xml_tag_attributes(frag.subrange(t.start as int, t.end as int))),
    }
}

/// `first_element_attrs`: the attributes of the first element of a fragment.
pub fn first_element_attrs(fragment: &str) -> (r: CliResult<Vec<(String, String)>>)
    ensures
        r is Ok <==> first_attrs_spec(fragment@) is Some,
        r is Ok ==> r->Ok_0.deep_view() == first_attrs_spec(fragment@).unwrap(),
        r is Err ==> r->Err_0.kind == ErrorKind::Unexpected,
{
    let (_kind, start, end, _name) = first_tag(fragment)?;
    let v = str_chars(fragment);
    let tag = vec_to_string_range(&v, start, end);
    Ok(tag_attributes(tag.as_str()))
}

/// The value of the last attribute named `key` (a later attribute with the
/// same name replaces an earlier one).
pub open spec fn attr_lookup(attrs: Seq<(Seq<char>, Seq<char>)>, key: Seq<char>) -> Option<Seq<char>>
    decreases attrs.len(),
{
    if attrs.len() == 0 {
        None
    } else if attrs.last().0 == key {
        Some(attrs.last().1)
    } else {
        attr_lookup(attrs.drop_last(), key)
    }
}

/// `attr_get`: the value of an attribute, by its qualified name.
pub fn attr_get(attrs: &Vec<(String, String)>, key: &str) -> (r: Option<String>)
    ensures
        r is Some <==> attr_lookup(attrs.deep_view(), key@) is Some,
        r is Some ==> r.unwrap()@ == attr_lookup(attrs.deep_view(), key@).unwrap(),
{
    let k = str_chars(key);
    let mut i: usize = attrs.len();
    proof {
        assert(attrs.deep_view().subrange(0, attrs.deep_view().len() as int) =~= attrs.deep_view());
    }
    while i > 0
        invariant
            0 <= i <= attrs.len(),
            k@ == key@,
            attr_lookup(attrs.deep_view().subrange(0, i as int), key@) == attr_lookup(
                attrs.deep_view(),
                key@,
            ),
        decreases i,
    {
        let ghost pre = attrs.deep_view().subrange(0, i as int);
        proof {
            assert(pre.last() == attrs.deep_view()[i - 1]);
            assert(pre.drop_last() =~= attrs.deep_view().subrange(0, i - 1));
        }
        let name = str_chars(attrs[i - 1].0.as_str());
        if crate::text::vec_eq(&name, &k) {
            return Some(attrs[i - 1].1.clone());
        }
        i = i - 1;
    }
    proof {
        assert(attrs.deep_view().subrange(0, attrs.deep_view().len() as int) =~= attrs.deep_view());
    }
    None
}

// ---------------------------------------------------------------------------
// Rendering attributes
// ---------------------------------------------------------------------------

/// The escape of one character in an attribute value.
pub open spec fn attr_escape_char(c: char) -> Seq<char> {
    if c == '&' {
        "&amp;"@
    } else if c == '<' {
        "&lt;"@
    } else if c == '>' {
        "&gt;"@
    } else if c == '"' {
        "&quot;"@
    } else {
        seq![c]
    }
}

/// A text escaped for a double-quoted attribute value.
pub open spec fn attr_escape(s: Seq<char>) -> Seq<char>
    decreases s.len(),
{
    if s.len() == 0 {
        Seq::empty()
    } else {
        attr_escape(s.drop_last()) + attr_escape_char(s.last())
    }
}

/// `xml_attr_escape`: a text escaped for a double-quoted attribute value.
pub fn xml_attr_escape(value: &str) -> (r: String)
    ensures
        r@ == attr_escape(value@),
{
    proof {
        reveal_strlit("&amp;");
        reveal_strlit("&lt;");
        reveal_strlit("&gt;");
        reveal_strlit("&quot;");
    }
    let v = str_chars(value);
    let amp = str_chars("&amp;");
    let lt = str_chars("&lt;");
    let gt = str_chars("&gt;");
    let quot = str_chars("&quot;");
    let mut out: Vec<char> = Vec::new();
    let mut i: usize = 0;
    while i < v.len()
        invariant
            0 <= i <= v.len(),
            v@ == value@,
            amp@ == "&amp;"@,
            lt@ == "&lt;"@,
            gt@ == "&gt;"@,
            quot@ == "&quot;"@,
            out@ == attr_escape(v@.subrange(0, i as int)),
        decreases v.len() - i,
    {
        let c = v[i];
        let ghost before = out@;
        if c == '&' {
            crate::text::push_all(&mut out, &amp);
        } else if c == '<' {
            crate::text::push_all(&mut out, &lt);
        } else if c == '>' {
            crate::text::push_all(&mut out, &gt);
        } else if c == '"' {
            crate::text::push_all(&mut out, &quot);
        } else {
            out.push(c);
        }
        proof {
            let pre = v@.subrange(0, i + 1);
            assert(pre.drop_last() =~= v@.subrange(0, i as int));
            assert(pre.last() == c);
            assert(out@ =~= before + attr_escape_char(c));
        }
        i = i + 1;
    }
    proof {
        assert(v@.subrange(0, v@.len() as int) =~= v@);
    }
    string_from_chars(out.as_slice())
}

/// The escape of one character in element text.
pub open spec fn text_escape_char(c: char) -> Seq<char> {
    if c == '&' {
        "&amp;"@
    } else if c == '<' {
        "&lt;"@
    } else if c == '>' {
        "&gt;"@
    } else {
        seq![c]
    }
}

/// A text escaped for element content.
pub open spec fn text_escape(s: Seq<char>) -> Seq<char>
    decreases s.len(),
{
    if s.len() == 0 {
        Seq::empty()
    } else {
        text_escape(s.drop_last()) + text_escape_char(s.last())
    }
}

/// `xml_escape`: a text escaped for element content (`&`, `<`, `>`).
pub fn xml_escape(value: &str) -> (r: String)
    ensures
        r@ == text_escape(value@),
{
    let v = str_chars(value);
    let amp = str_chars("&amp;");
    let lt = str_chars("&lt;");
    let gt = str_chars("&gt;");
    let mut out: Vec<char> = Vec::new();
    let mut i: usize = 0;
    while i < v.len()
        invariant
            0 <= i <= v.len(),
            v@ == value@,
            amp@ == "&amp;"@,
            lt@ == "&lt;"@,
            gt@ == "&gt;"@,
            out@ == text_escape(v@.subrange(0, i as int)),
        decreases v.len() - i,
    {
        let c = v[i];
        let ghost before = out@;
        if c == '&' {
            crate::text::push_all(&mut out, &amp);
        } else if c == '<' {
            crate::text::push_all(&mut out, &lt);
        } else if c == '>' {
            crate::text::push_all(&mut out, &gt);
        } else {
            out.push(c);
        }
        proof {
            let pre = v@.subrange(0, i + 1);
            assert(pre.drop_last() =~= v@.subrange(0, i as int));
            assert(pre.last() == c);
            assert(out@ =~= before + text_escape_char(c));
        }
        i = i + 1;
    }
    proof {
        assert(v@.subrange(0, v@.len() as int) =~= v@);
    }
    string_from_chars(out.as_slice())
}

/// Attributes written out as ` key="value"` each, values escaped.
pub open spec fn render_attrs_spec(attrs: Seq<(Seq<char>, Seq<char>)>) -> Seq<char>
    decreases attrs.len(),
{
    if attrs.len() == 0 {
        Seq::empty()
    } else {
        render_attrs_spec(attrs.drop_last()) + seq![' '] + attrs.last().0 + seq!['=', '"']
            + attr_escape(attrs.last().1) + seq!['"']
    }
}

/// `render_xml_attrs`: attributes written out in the given order.
pub fn render_xml_attrs(attrs: &Vec<(String, String)>) -> (r: String)
    ensures
        r@ == render_attrs_spec(attrs.deep_view()),
{
    let mut out = String::new();
    let mut i: usize = 0;
    proof {
        assert(out@ =~= render_attrs_spec(attrs.deep_view().subrange(0, 0)));
    }
    while i < attrs.len()
        invariant
            0 <= i <= attrs.len(),
            out@ == render_attrs_spec(attrs.deep_view().subrange(0, i as int)),
        decreases attrs.len() - i,
    {
        let esc = xml_attr_escape(attrs[i].1.as_str());
        proof {
            reveal_strlit(" ");
            reveal_strlit("=\"");
            reveal_strlit("\"");
        }
        let piece = crate::text::concat5(" ", attrs[i].0.as_str(), "=\"", esc.as_str(), "\"");
        out.append(piece.as_str());
        proof {
            let pre = attrs.deep_view().subrange(0, i + 1);
            assert(pre.drop_last() =~= attrs.deep_view().subrange(0, i as int));
            assert(pre.last() == attrs.deep_view()[i as int]);
            assert(out@ =~= render_attrs_spec(pre));
        }
        i = i + 1;
    }
    proof {
        assert(attrs.deep_view().subrange(0, attrs.deep_view().len() as int) =~= attrs.deep_view());
    }
    out
}

} // verus!
