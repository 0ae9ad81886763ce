//! Markup-level view of XML text.
//!
//! Tokenizing is done by `quick_xml`; this module turns its events into tokens
//! whose positions are character indices into the text, and builds on them the
//! element-level operations the worksheet editors need: the direct children of
//! an element, the bounds of a document's root, and splicing.
use vstd::prelude::*;
use quick_xml::events::Event;
use quick_xml::name::ResolveResult;
use quick_xml::reader::NsReader;
use quick_xml::{Reader, XmlVersion};
use crate::error::{CliError, CliResult, ErrorKind};
use crate::text::{find_from, str_chars, string_from_chars, to_string};

verus! {

/// The kinds of markup `quick_xml` reports that the editors tell apart: start,
/// empty and end tags; every other event (text, comments, declarations) is
/// `Other`.
#[derive(Clone, Copy, PartialEq, Eq, Structural, Debug)]
pub enum XmlTokenKind {
    Start,
    Empty,
    End,
    Other,
}

/// One `quick_xml` event: its kind, the byte offsets of its text, and the
/// qualified name of a start, empty or end tag (empty for other events).
#[derive(Clone, Debug)]
pub struct XmlToken {
    pub kind: XmlTokenKind,
    pub start: u64,
    pub end: u64,
    pub name: String,
}

/// What `quick_xml::Reader::read_event` reports, read to the end, for a text:
/// the events before the end of input or the first error, and whether an error
/// stopped the reading.
pub uninterp spec fn quick_xml_scan(xml: Seq<char>) -> (Seq<XmlToken>, bool);

/// Reads every event of `xml` with `quick_xml::Reader::from_str` and
/// `Reader::read_event` (default configuration, text untrimmed), recording for
/// each the reader's `buffer_position` before and after it, and whether an
/// error stopped it. The contract names the result, and states that each event
/// ends where the next begins and does not end before it starts (the position
/// is read around each call and never moves back).
#[verifier::external_body]
pub(crate) fn scan_xml(xml: &str) -> (r: (Vec<XmlToken>, bool))
    ensures
        (r.0@, r.1) == quick_xml_scan(xml@),
        forall|i: int| 0 <= i < r.0@.len() ==> (#[trigger] r.0@[i]).start <= r.0@[i].end,
        forall|i: int, j: int|
            0 <= i && j == i + 1 && j < r.0@.len() ==> (#[trigger] r.0@[i]).end == (
            #[trigger] r.0@[j]).start,
{
    let mut reader = Reader::from_str(xml);
    let mut out = Vec::new();
    loop {
        let start = reader.buffer_position();
        let (kind, name) = match reader.read_event() {
            Ok(Event::Eof) => return (out, false),
            Ok(Event::Start(e)) => (XmlTokenKind::Start, e.name().0.to_string()),
            Ok(Event::Empty(e)) => (XmlTokenKind::Empty, e.name().0.to_string()),
            Ok(Event::End(e)) => (XmlTokenKind::End, e.name().0.to_string()),
            Ok(_) => (XmlTokenKind::Other, String::new()),
            Err(_) => return (out, true),
        };
        out.push(XmlToken { kind, start, end: reader.buffer_position(), name });
    }
}

/// The namespace that `quick_xml::NsReader::read_resolved_event` resolves
/// for each event of a text, read to the end: the namespace an element name
/// is bound to (`None` for a name bound to no namespace, one with an
/// undeclared prefix, and events without a name), one entry per event before
/// the end of input or the first error, and whether an error stopped the
/// reading.
pub uninterp spec fn quick_xml_namespaces(xml: Seq<char>) -> (Seq<Option<Seq<char>>>, bool);

/// Reads every event of `xml` with `quick_xml::NsReader::from_str` and
/// `NsReader::read_resolved_event`, keeping the namespace each resolves to.
/// Claimed: the result is what `quick_xml_namespaces` names for the text.
#[verifier::external_body]
pub(crate) fn scan_namespaces(xml: &str) -> (r: (Vec<Option<String>>, bool))
    ensures
        (r.0.deep_view(), r.1) == quick_xml_namespaces(xml@),
{
    let mut reader = NsReader::from_str(xml);
    let mut out = Vec::new();
    loop {
        match reader.read_resolved_event() {
            Ok((_, Event::Eof)) => return (out, false),
            Ok((ResolveResult::Bound(n), _)) => out.push(Some(n.0.to_string())),
            Ok((ResolveResult::Unbound, _)) => out.push(None),
            Ok((ResolveResult::Unknown(_), _)) => out.push(None),
            Err(_) => return (out, true),
        }
    }
}

/// The attributes `quick_xml` reads from the first tag of a text, each as its
/// qualified key and its normalized (unescaped) value.
pub uninterp spec fn quick_xml_tag_attributes(tag: Seq<char>) -> Seq<(Seq<char>, Seq<char>)>;

/// Reads the first event of `tag` with `quick_xml`; for a start or empty tag,
/// collects `BytesStart::attributes`, skipping malformed ones, with each value
/// from `Attribute::normalized_value` (the raw value where that fails).
#[verifier::external_body]
pub(crate) fn tag_attributes(tag: &str) -> (r: Vec<(String, String)>)
    ensures
        r.deep_view() == quick_xml_tag_attributes(tag@),
{
    match Reader::from_str(tag).read_event() {
        Ok(Event::Start(e)) | Ok(Event::Empty(e)) => e
            .attributes()
            .flatten()
            .map(|a| (a.key.as_ref().to_string(), a.normalized_value(XmlVersion::Implicit1_0).map(|v| v.into_owned()).unwrap_or_else(|_| a.value.to_string())))
            .collect(),
        _ => Vec::new(),
    }
}

} // verus!

verus! {

// ---------------------------------------------------------------------------
// Byte offsets and character indices
// ---------------------------------------------------------------------------

/// The number of bytes of a character in UTF-8.
pub open spec fn utf8_len(c: char) -> nat {
    let u = c as u32;
    if u < 0x80 {
        1
    } else if u < 0x800 {
        2
    } else if u < 0x10000 {
        3
    } else {
        4
    }
}

/// The byte offset in UTF-8 of the character index `k` of `s`.
pub open spec fn byte_offset(s: Seq<char>, k: int) -> nat
    decreases k,
{
    if k <= 0 || k > s.len() {
        0
    } else {
        byte_offset(s, k - 1) + utf8_len(s[k - 1])
    }
}

pub open spec fn is_char_index_of(s: Seq<char>, b: int, k: int) -> bool {
    0 <= k <= s.len() && byte_offset(s, k) == b
}

/// The character index at byte offset `b`, or -1 when `b` is not the start of
/// a character (nor the end of the text).
#[verifier::opaque]
pub open spec fn char_index_of_byte(s: Seq<char>, b: int) -> int {
    if exists|k: int| is_char_index_of(s, b, k) {
        choose|k: int| is_char_index_of(s, b, k)
    } else {
        -1
    }
}

pub proof fn lemma_byte_offset_strict(s: Seq<char>, j: int, k: int)
    requires
        0 <= j < k <= s.len(),
    ensures
        byte_offset(s, j) < byte_offset(s, k),
    decreases k - j,
{
    if j + 1 < k {
        lemma_byte_offset_strict(s, j, k - 1);
    }
}

pub proof fn lemma_char_index_unique(s: Seq<char>, b: int, k: int)
    requires
        is_char_index_of(s, b, k),
    ensures
        char_index_of_byte(s, b) == k,
{
    reveal(char_index_of_byte);
    let c = choose|j: int| is_char_index_of(s, b, j);
    assert(is_char_index_of(s, b, c));
    if c < k {
        lemma_byte_offset_strict(s, c, k);
    } else if k < c {
        lemma_byte_offset_strict(s, k, c);
    }
}

fn utf8_width(c: char) -> (r: u128)
    ensures
        r == utf8_len(c),
{
    let u = c as u32;
    if u < 0x80 {
        1
    } else if u < 0x800 {
        2
    } else if u < 0x10000 {
        3
    } else {
        4
    }
}

/// The byte offset of every character index `0..=s.len()`.
fn byte_offset_table(s: &Vec<char>) -> (t: Vec<u128>)
    ensures
        t.len() == s.len() + 1,
        forall|k: int| 0 <= k <= s.len() ==> t@[k] == byte_offset(s@, k),
        forall|k: int| 0 <= k <= s.len() ==> t@[k] <= 4 * k,
{
    let mut t: Vec<u128> = Vec::new();
    t.push(0);
    let mut acc: u128 = 0;
    let mut i: usize = 0;
    while i < s.len()
        invariant
            0 <= i <= s.len(),
            t.len() == i + 1,
            acc == byte_offset(s@, i as int),
            acc <= 4 * i,
            forall|k: int| 0 <= k <= i ==> t@[k] == byte_offset(s@, k),
            forall|k: int| 0 <= k <= i ==> t@[k] <= 4 * k,
        decreases s.len() - i,
    {
        acc = acc + utf8_width(s[i]);
        t.push(acc);
        i = i + 1;
    }
    t
}

/// The character index at byte offset `b`, looking from `hint` onwards first.
fn char_index_at(s: &Vec<char>, t: &Vec<u128>, b: u64, hint: usize) -> (r: Option<usize>)
    requires
        t.len() == s.len() + 1,
        forall|k: int| 0 <= k <= s.len() ==> t@[k] == byte_offset(s@, k),
    ensures
        r is Some ==> r.unwrap() <= s.len() && r.unwrap() as int == char_index_of_byte(s@, b as int),
        r is None ==> char_index_of_byte(s@, b as int) == -1,
{
    let n = s.len();
    let mut i: usize = if hint <= n && t[hint] <= b as u128 {
        hint
    } else {
        0
    };
    proof {
        if i > 0 {
            assert forall|k: int| 0 <= k < i implies t@[k] < b by {
                lemma_byte_offset_strict(s@, k, i as int);
            }
        }
    }
    while i <= n
        invariant
            0 <= i <= n + 1,
            n == s.len(),
            t.len() == n + 1,
            forall|k: int| 0 <= k <= n ==> t@[k] == byte_offset(s@, k),
            forall|k: int| 0 <= k < i && k <= n ==> t@[k] < b,
        decreases n + 1 - i,
    {
        if t[i] == b as u128 {
            proof {
                lemma_char_index_unique(s@, b as int, i as int);
            }
            return Some(i);
        }
        if t[i] > b as u128 {
            proof {
                assert forall|k: int| 0 <= k <= n implies !is_char_index_of(s@, b as int, k) by {
                    if k > i {
                        lemma_byte_offset_strict(s@, i as int, k);
                    }
                }
                reveal(char_index_of_byte);
            }
            return None;
        }
        i = i + 1;
    }
    proof {
        assert forall|k: int| 0 <= k <= n implies !is_char_index_of(s@, b as int, k) by {
            assert(t@[k] < b);
        }
        reveal(char_index_of_byte);
    }
    None
}

// ---------------------------------------------------------------------------
// Tokens at character positions
// ---------------------------------------------------------------------------

/// An event with character indices in place of byte offsets.
#[derive(Clone, Debug)]
pub struct CharToken {
    pub kind: XmlTokenKind,
    pub start: usize,
    pub end: usize,
    pub name: String,
}

pub open spec fn token_maps(s: Seq<char>, t: XmlToken) -> bool {
    char_index_of_byte(s, t.start as int) >= 0 && char_index_of_byte(s, t.end as int) >= 0
}

pub open spec fn char_token(s: Seq<char>, t: XmlToken) -> CharToken {
    CharToken {
        kind: t.kind,
        start: char_index_of_byte(s, t.start as int) as usize,
        end: char_index_of_byte(s, t.end as int) as usize,
        name: t.name,
    }
}

/// The events of a text at character positions, and whether an error stopped
/// the reading; `None` when an event boundary falls inside a character.
pub open spec fn char_tokens_spec(s: Seq<char>) -> Option<(Seq<CharToken>, bool)> {
    let (toks, failed) = quick_xml_scan(s);
    if forall|i: int| 0 <= i < toks.len() ==> token_maps(s, #[trigger] toks[i]) {
        Some((Seq::new(toks.len(), |i: int| char_token(s, toks[i])), failed))
    } else {
        None
    }
}

pub open spec fn tokens_well_formed(toks: Seq<CharToken>, n: int) -> bool {
    &&& forall|i: int| 0 <= i < toks.len() ==> (#[trigger] toks[i]).start <= toks[i].end <= n
    &&& forall|i: int, j: int|
        0 <= i && j == i + 1 && j < toks.len() ==> (#[trigger] toks[i]).end == (
        #[trigger] toks[j]).start
}

pub proof fn lemma_char_index_monotone(s: Seq<char>, b1: int, b2: int)
    requires
        b1 <= b2,
        char_index_of_byte(s, b1) >= 0,
        char_index_of_byte(s, b2) >= 0,
    ensures
        char_index_of_byte(s, b1) <= char_index_of_byte(s, b2),
        char_index_of_byte(s, b2) <= s.len(),
{
    reveal(char_index_of_byte);
    let k1 = choose|k: int| is_char_index_of(s, b1, k);
    let k2 = choose|k: int| is_char_index_of(s, b2, k);
    assert(is_char_index_of(s, b1, k1));
    assert(is_char_index_of(s, b2, k2));
    if k2 < k1 {
        lemma_byte_offset_strict(s, k2, k1);
    }
}

proof fn lemma_char_tokens_well_formed(s: Seq<char>, toks: Seq<XmlToken>, out: Seq<CharToken>)
    requires
        forall|k: int| 0 <= k < toks.len() ==> (#[trigger] toks[k]).start <= toks[k].end,
        forall|i: int, j: int|
            0 <= i && j == i + 1 && j < toks.len() ==> (#[trigger] toks[i]).end == (
            #[trigger] toks[j]).start,
        out.len() == toks.len(),
        forall|k: int| 0 <= k < toks.len() ==> token_maps(s, #[trigger] toks[k]),
        forall|k: int| 0 <= k < toks.len() ==> #[trigger] out[k] == char_token(s, toks[k]),
        s.len() <= usize::MAX,
    ensures
        tokens_well_formed(out, s.len() as int),
        out == Seq::new(toks.len(), |i: int| char_token(s, toks[i])),
{
    assert(out =~= Seq::new(toks.len(), |i: int| char_token(s, toks[i])));
    assert forall|k: int| 0 <= k < out.len() implies (#[trigger] out[k]).start <= out[k].end
        <= s.len() by {
        assert(token_maps(s, toks[k]));
        lemma_char_index_monotone(s, toks[k].start as int, toks[k].end as int);
    }
    assert forall|i: int, j: int| 0 <= i && j == i + 1 && j < out.len() implies (
    #[trigger] out[i]).end == (#[trigger] out[j]).start by {
        assert(toks[i].end == toks[j].start);
        assert(out[i] == char_token(s, toks[i]));
        assert(out[j] == char_token(s, toks[j]));
    }
}

/// Tokens with character positions for tokens with byte positions of `xml`,
/// or `None` when a boundary falls inside a character.
fn convert_tokens(xml: &str, toks: &Vec<XmlToken>) -> (r: Option<Vec<CharToken>>)
    requires
        forall|i: int| 0 <= i < toks@.len() ==> (#[trigger] toks@[i]).start <= toks@[i].end,
        forall|i: int, j: int|
            0 <= i && j == i + 1 && j < toks@.len() ==> (#[trigger] toks@[i]).end == (
            #[trigger] toks@[j]).start,
    ensures
        r is Some <==> forall|k: int| 0 <= k < toks@.len() ==> token_maps(xml@, #[trigger] toks@[k]),
        r is Some ==> r->0@ == Seq::new(toks@.len(), |i: int| char_token(xml@, toks@[i])),
        r is Some ==> tokens_well_formed(r->0@, xml@.len() as int),
{
    let s = str_chars(xml);
    let table = byte_offset_table(&s);
    let mut out: Vec<CharToken> = Vec::new();
    let mut hint: usize = 0;
    let mut i: usize = 0;
    while i < toks.len()
        invariant
            0 <= i <= toks.len(),
            s@ == xml@,
            table.len() == s.len() + 1,
            forall|k: int| 0 <= k <= s.len() ==> table@[k] == byte_offset(s@, k),
            out.len() == i,
            forall|k: int| 0 <= k < i ==> token_maps(xml@, #[trigger] toks@[k]),
            forall|k: int| 0 <= k < i ==> #[trigger] out@[k] == char_token(xml@, toks@[k]),
        decreases toks.len() - i,
    {
        let tok = &toks[i];
        let a = char_index_at(&s, &table, tok.start, hint);
        let b = match a {
            Some(a) => char_index_at(&s, &table, tok.end, a),
            None => None,
        };
        match (a, b) {
            (Some(a), Some(b)) => {
                out.push(CharToken { kind: tok.kind, start: a, end: b, name: tok.name.clone() });
                hint = b;
            },
            _ => {
                proof {
                    assert(!token_maps(xml@, toks@[i as int]));
                }
                return None;
            },
        }
        i = i + 1;
    }
    proof {
        lemma_char_tokens_well_formed(xml@, toks@, out@);
    }
    Some(out)
}

/// The events of `xml` with character positions, up to the first error, and
/// whether `quick_xml` rejected the text.
pub fn char_tokens(xml: &str) -> (r: CliResult<(Vec<CharToken>, bool)>)
    ensures
        r is Ok <==> char_tokens_spec(xml@) is Some,
        r is Ok ==> r->Ok_0.0@ == char_tokens_spec(xml@).unwrap().0,
        r is Ok ==> r->Ok_0.1 == char_tokens_spec(xml@).unwrap().1,
        r is Ok ==> tokens_well_formed(r->Ok_0.0@, xml@.len() as int),
        r is Err ==> r->Err_0.kind == ErrorKind::Unexpected,
{
    let (toks, err) = scan_xml(xml);
    match convert_tokens(xml, &toks) {
        Some(out) => Ok((out, err)),
        None => Err(CliError::unexpected(to_string("XML event boundary inside a character"))),
    }
}

} // verus!

verus! {

// ---------------------------------------------------------------------------
// Names
// ---------------------------------------------------------------------------

/// The local part of a qualified name: what follows the first `:`.
pub open spec fn local_name_of(name: Seq<char>) -> Seq<char> {
    let c = find_from(name, ':', 0);
    if c == -1 {
        name
    } else {
        name.subrange(c + 1, name.len() as int)
    }
}

/// `local_name`: the local part of a qualified element name.
pub fn local_name(name: &str) -> (r: String)
    ensures
        r@ == local_name_of(name@),
{
    let v = str_chars(name);
    match crate::text::vec_find_char(&v, ':', 0) {
        None => string_from_chars(v.as_slice()),
        Some(c) => {
            proof {
                crate::text::lemma_find_from(v@, ':', 0);
            }
            let w = crate::text::slice_vec(&v, c + 1, v.len());
            string_from_chars(w.as_slice())
        },
    }
}

// ---------------------------------------------------------------------------
// Direct children of an element
// ---------------------------------------------------------------------------

/// A span of text holding one element, with the element's local name.
#[derive(Clone, Debug)]
pub struct XmlNamedRange {
    pub start: usize,
    pub end: usize,
    pub kind: String,
}

pub open spec fn span_of(r: XmlNamedRange) -> (int, int, Seq<char>) {
    (r.start as int, r.end as int, r.kind@)
}

pub open spec fn spans_of(v: Seq<XmlNamedRange>) -> Seq<(int, int, Seq<char>)> {
    Seq::new(v.len(), |i: int| span_of(v[i]))
}

/// The elements at depth zero of a token stream, from token `i` on, with the
/// nesting depth so far and, inside an element, where it started and its name.
pub open spec fn children_from(
    toks: Seq<CharToken>,
    i: int,
    depth: nat,
    open_start: int,
    open_name: Seq<char>,
) -> Seq<(int, int, Seq<char>)>
    decreases toks.len() - i,
{
    if i < 0 || i >= toks.len() {
        Seq::empty()
    } else {
        let t = toks[i];
        match t.kind {
            XmlTokenKind::Start => if depth == 0 {
                children_from(toks, i + 1, 1, t.start as int, local_name_of(t.name@))
            } else {
                children_from(toks, i + 1, depth + 1, open_start, open_name)
            },
            XmlTokenKind::End => if depth == 1 {
                seq![(open_start, t.end as int, open_name)] + children_from(
                    toks,
                    i + 1,
                    0,
                    open_start,
                    open_name,
                )
            } else if depth > 1 {
                children_from(toks, i + 1, (depth - 1) as nat, open_start, open_name)
            } else {
                children_from(toks, i + 1, 0, open_start, open_name)
            },
            XmlTokenKind::Empty => if depth == 0 {
                seq![(t.start as int, t.end as int, local_name_of(t.name@))] + children_from(
                    toks,
                    i + 1,
                    0,
                    open_start,
                    open_name,
                )
            } else {
                children_from(toks, i + 1, depth, open_start, open_name)
            },
            _ => children_from(toks, i + 1, depth, open_start, open_name),
        }
    }
}

/// The direct children of a fragment of XML (positions relative to it), or
/// `None` when `quick_xml` rejects the fragment.
pub open spec fn direct_children_spec(frag: Seq<char>) -> Option<Seq<(int, int, Seq<char>)>> {
    match char_tokens_spec(frag) {
        Some(p) => if p.1 {
            None
        } else {
            Some(children_from(p.0, 0, 0, 0, Seq::empty()))
        },
        None => None,
    }
}

pub open spec fn shift_spans(sp: Seq<(int, int, Seq<char>)>, d: int) -> Seq<(int, int, Seq<char>)> {
    Seq::new(sp.len(), |i: int| (sp[i].0 + d, sp[i].1 + d, sp[i].2))
}

/// Spans that lie in `lo..hi`, each starting where or after the previous ends.
pub open spec fn spans_ordered(sp: Seq<(int, int, Seq<char>)>, lo: int, hi: int) -> bool {
    &&& forall|j: int| 0 <= j < sp.len() ==> lo <= (#[trigger] sp[j]).0 <= sp[j].1 <= hi
    &&& forall|i: int, j: int|
        0 <= i && j == i + 1 && j < sp.len() ==> (#[trigger] sp[i]).1 <= (#[trigger] sp[j]).0
}

pub open spec fn next_start(toks: Seq<CharToken>, i: int, n: int) -> int {
    if 0 <= i < toks.len() {
        toks[i].start as int
    } else {
        n
    }
}

pub proof fn lemma_children_ordered(
    toks: Seq<CharToken>,
    n: int,
    i: int,
    depth: nat,
    os: int,
    on: Seq<char>,
)
    requires
        tokens_well_formed(toks, n),
        0 <= i <= toks.len(),
        toks.len() > 0 ==> 0 <= toks[0].start,
        depth > 0 ==> 0 <= os <= next_start(toks, i, n),
        i == toks.len() ==> (toks.len() == 0 || toks[toks.len() - 1].end <= n),
    ensures
        spans_ordered(
            children_from(toks, i, depth, os, on),
            if depth > 0 {
                os
            } else {
                next_start(toks, i, n)
            },
            n,
        ),
    decreases toks.len() - i,
{
    if i < toks.len() {
        let t = toks[i];
        assert(t.start <= t.end <= n);
        if i + 1 < toks.len() {
            assert(toks[i].end == toks[i + 1].start);
        }
        assert(i + 1 < toks.len() ==> next_start(toks, i + 1, n) == t.end as int);
        assert(i + 1 == toks.len() ==> children_from(toks, i + 1, 0, os, on).len() == 0);
        assert(t.start >= 0);
        let rest0 = children_from(toks, i + 1, 0, os, on);
        match t.kind {
            XmlTokenKind::Start => {
                if depth == 0 {
                    lemma_children_ordered(toks, n, i + 1, 1, t.start as int, local_name_of(t.name@));
                } else {
                    lemma_children_ordered(toks, n, i + 1, depth + 1, os, on);
                }
            },
            XmlTokenKind::End => {
                if depth == 1 {
                    lemma_children_ordered(toks, n, i + 1, 0, os, on);
                    let e = (os, t.end as int, on);
                    let all = seq![e] + rest0;
                    assert(all == children_from(toks, i, depth, os, on));
                    assert forall|j: int| 0 <= j < all.len() implies os <= (#[trigger] all[j]).0
                        <= all[j].1 <= n by {
                        if j > 0 {
                            assert(all[j] == rest0[j - 1]);
                        }
                    }
                    assert forall|a: int, b: int| 0 <= a && b == a + 1 && b < all.len() implies (
                    #[trigger] all[a]).1 <= (#[trigger] all[b]).0 by {
                        if a > 0 {
                            assert(all[a] == rest0[a - 1]);
                            assert(all[b] == rest0[b - 1]);
                        } else {
                            assert(all[b] == rest0[0]);
                        }
                    }
                } else if depth > 1 {
                    lemma_children_ordered(toks, n, i + 1, (depth - 1) as nat, os, on);
                } else {
                    lemma_children_ordered(toks, n, i + 1, 0, os, on);
                }
            },
            XmlTokenKind::Empty => {
                if depth == 0 {
                    lemma_children_ordered(toks, n, i + 1, 0, os, on);
                    let e = (t.start as int, t.end as int, local_name_of(t.name@));
                    let all = seq![e] + rest0;
                    assert(all == children_from(toks, i, depth, os, on));
                    assert forall|j: int| 0 <= j < all.len() implies t.start <= (
                    #[trigger] all[j]).0 <= all[j].1 <= n by {
                        if j > 0 {
                            assert(all[j] == rest0[j - 1]);
                        }
                    }
                    assert forall|a: int, b: int| 0 <= a && b == a + 1 && b < all.len() implies (
                    #[trigger] all[a]).1 <= (#[trigger] all[b]).0 by {
                        if a > 0 {
                            assert(all[a] == rest0[a - 1]);
                            assert(all[b] == rest0[b - 1]);
                        } else {
                            assert(all[b] == rest0[0]);
                        }
                    }
                } else {
                    lemma_children_ordered(toks, n, i + 1, depth, os, on);
                }
            },
            _ => {
                lemma_children_ordered(toks, n, i + 1, depth, os, on);
            },
        }
    }
}

/// `xml_direct_child_ranges`: the elements directly inside `xml[content_start..content_end]`,
/// with positions in `xml`, in document order.
pub fn xml_direct_child_ranges(xml: &str, content_start: usize, content_end: usize) -> (r: CliResult<
    Vec<XmlNamedRange>,
>)
    requires
        content_start <= content_end <= xml@.len(),
    ensures
        r is Ok <==> direct_children_spec(xml@.subrange(content_start as int, content_end as int)) is Some,
        r is Ok ==> spans_of(r->Ok_0@) == shift_spans(
            direct_children_spec(xml@.subrange(content_start as int, content_end as int)).unwrap(),
            content_start as int,
        ),
        r is Ok ==> spans_ordered(spans_of(r->Ok_0@), content_start as int, content_end as int),
        r is Err ==> r->Err_0.kind == ErrorKind::Unexpected,
{
    let v = str_chars(xml);
    let fv = crate::text::slice_vec(&v, content_start, content_end);
    let frag = string_from_chars(fv.as_slice());
    let (toks, err) = match char_tokens(frag.as_str()) {
        Ok(p) => p,
        Err(e) => {
            return Err(e);
        },
    };
    if err {
        return Err(CliError::unexpected(to_string("invalid XML")));
    }
    let ghost fl = frag@.len() as int;
    let ghost empty: Seq<char> = Seq::empty();
    let mut out: Vec<XmlNamedRange> = Vec::new();
    let mut depth: usize = 0;
    let mut open_start: usize = 0;
    let mut open_name = String::new();
    let mut i: usize = 0;
    proof {
        if toks.len() > 0 {
            assert(toks@[0].start <= toks@[0].end);
        }
    }
    while i < toks.len()
        invariant
            0 <= i <= toks.len(),
            content_start + fl <= usize::MAX,
            fl == content_end - content_start,
            tokens_well_formed(toks@, fl),
            depth <= i,
            shift_spans(children_from(toks@, 0, 0, 0, empty), content_start as int) =~= spans_of(out@)
                + shift_spans(children_from(toks@, i as int, depth as nat, open_start as int, open_name@), content_start as int),
            open_start <= fl,
        decreases toks.len() - i,
    {
        let t = &toks[i];
        let ghost before = children_from(toks@, i as int, depth as nat, open_start as int, open_name@);
        proof {
            assert(t.start <= t.end <= fl);
        }
        match t.kind {
            XmlTokenKind::Start => {
                if depth == 0 {
                    open_start = t.start;
                    open_name = local_name(t.name.as_str());
                }
                depth = depth + 1;
            },
            XmlTokenKind::End => {
                if depth == 1 {
                    out.push(
                        XmlNamedRange {
                            start: content_start + open_start,
                            end: content_start + t.end,
                            kind: open_name.clone(),
                        },
                    );
                    depth = 0;
                } else if depth > 1 {
                    depth = depth - 1;
                }
            },
            XmlTokenKind::Empty => {
                if depth == 0 {
                    out.push(
                        XmlNamedRange {
                            start: content_start + t.start,
                            end: content_start + t.end,
                            kind: local_name(t.name.as_str()),
                        },
                    );
                }
            },
            _ => {},
        }
        i = i + 1;
    }
    proof {
        let sp = children_from(toks@, 0, 0, 0, empty);
        assert(spans_of(out@) =~= shift_spans(sp, content_start as int));
        lemma_children_ordered(toks@, fl, 0, 0, 0, empty);
    }
    Ok(out)
}

} // verus!

verus! {

// ---------------------------------------------------------------------------
// Searching for a text from the end
// ---------------------------------------------------------------------------

pub open spec fn matches_at(s: Seq<char>, p: Seq<char>, k: int) -> bool {
    0 <= k && k + p.len() <= s.len() && s.subrange(k, k + p.len()) == p
}

pub open spec fn rfind_from(s: Seq<char>, p: Seq<char>, k: int) -> int
    decreases k + 1,
{
    if k < 0 {
        -1
    } else if matches_at(s, p, k) {
        k
    } else {
        rfind_from(s, p, k - 1)
    }
}

/// `str::rfind` of a pattern: the last index where `p` occurs, or -1.
pub open spec fn rfind_seq(s: Seq<char>, p: Seq<char>) -> int {
    rfind_from(s, p, s.len() - p.len())
}

pub proof fn lemma_rfind_from(s: Seq<char>, p: Seq<char>, k: int)
    ensures
        rfind_from(s, p, k) == -1 || (rfind_from(s, p, k) <= k && matches_at(
            s,
            p,
            rfind_from(s, p, k),
        )),
    decreases k + 1,
{
    if k >= 0 && !matches_at(s, p, k) {
        lemma_rfind_from(s, p, k - 1);
    }
}

pub fn vec_matches_at(s: &Vec<char>, p: &Vec<char>, k: usize) -> (r: bool)
    ensures
        r == matches_at(s@, p@, k as int),
{
    if k > s.len() || p.len() > s.len() - k {
        return false;
    }
    let mut i: usize = 0;
    while i < p.len()
        invariant
            k + p.len() <= s.len(),
            0 <= i <= p.len(),
            forall|j: int| 0 <= j < i ==> s@[k + j] == p@[j],
        decreases p.len() - i,
    {
        if s[k + i] != p[i] {
            assert(s@.subrange(k as int, k + p.len())[i as int] != p@[i as int]);
            return false;
        }
        i = i + 1;
    }
    assert(s@.subrange(k as int, k + p.len()) =~= p@);
    true
}

/// The last index where `p` occurs in `s`.
pub fn vec_rfind(s: &Vec<char>, p: &Vec<char>) -> (r: Option<usize>)
    ensures
        r is Some ==> r.unwrap() as int == rfind_seq(s@, p@),
        r is None ==> rfind_seq(s@, p@) == -1,
{
    if p.len() > s.len() {
        return None;
    }
    let mut k: usize = s.len() - p.len();
    loop
        invariant
            k <= s.len() - p.len(),
            p.len() <= s.len(),
            rfind_from(s@, p@, k as int) == rfind_seq(s@, p@),
        decreases k,
    {
        if vec_matches_at(s, p, k) {
            return Some(k);
        }
        if k == 0 {
            assert(rfind_from(s@, p@, -1) == -1);
            return None;
        }
        k = k - 1;
    }
}

// ---------------------------------------------------------------------------
// The root element of a worksheet
// ---------------------------------------------------------------------------

/// Where a worksheet's root element lies: its start tag `start..open_end`,
/// its end tag `close_start..end` and its qualified name.
#[derive(Clone, Debug)]
pub struct XlsxWorksheetRootBounds {
    pub start: usize,
    pub open_end: usize,
    pub close_start: usize,
    pub end: usize,
    pub tag_name: String,
    pub self_closing: bool,
}

pub open spec fn is_tag(t: CharToken) -> bool {
    t.kind == XmlTokenKind::Start || t.kind == XmlTokenKind::Empty
}

/// The index of the first `worksheet` start or empty tag from `i` on; -1 when
/// another element comes first and `reject_other` is set; -2 when there is none.
pub open spec fn root_search(toks: Seq<CharToken>, i: int, reject_other: bool) -> int
    decreases toks.len() - i,
{
    if i < 0 || i >= toks.len() {
        -2
    } else if is_tag(toks[i]) && local_name_of(toks[i].name@) == "worksheet"@ {
        i
    } else if is_tag(toks[i]) && reject_other {
        -1
    } else {
        root_search(toks, i + 1, reject_other)
    }
}

pub proof fn lemma_root_search(toks: Seq<CharToken>, i: int, reject_other: bool)
    requires
        0 <= i <= toks.len(),
    ensures
        root_search(toks, i, reject_other) < 0 || (i <= root_search(toks, i, reject_other)
            < toks.len() && is_tag(toks[root_search(toks, i, reject_other)]) && local_name_of(
            toks[root_search(toks, i, reject_other)].name@,
        ) == "worksheet"@),
    decreases toks.len() - i,
{
    if i < toks.len() && !(is_tag(toks[i]) && local_name_of(toks[i].name@) == "worksheet"@) && !(
    is_tag(toks[i]) && reject_other) {
        lemma_root_search(toks, i + 1, reject_other);
    }
}

pub open spec fn close_tag_of(name: Seq<char>) -> Seq<char> {
    seq!['<', '/'] + name + seq!['>']
}

/// The bounds of the root as `(start, open_end, close_start, end, name, self_closing)`.
pub open spec fn root_bounds_spec(xml: Seq<char>, reject_other: bool) -> Option<
    (int, int, int, int, Seq<char>, bool),
> {
    match char_tokens_spec(xml) {
        None => None,
        Some(p) => {
            let toks = p.0;
            let k = root_search(toks, 0, reject_other);
            if k < 0 {
                None
            } else {
                let t = toks[k];
                if t.kind == XmlTokenKind::Empty {
                    Some((t.start as int, t.end as int, t.end as int, t.end as int, t.name@, true))
                } else {
                    let ct = close_tag_of(t.name@);
                    let c = rfind_seq(xml, ct);
                    if c < 0 {
                        None
                    } else {
                        Some((t.start as int, t.end as int, c, c + ct.len(), t.name@, false))
                    }
                }
            }
        },
    }
}

pub open spec fn root_view(b: XlsxWorksheetRootBounds) -> (int, int, int, int, Seq<char>, bool) {
    (
        b.start as int,
        b.open_end as int,
        b.close_start as int,
        b.end as int,
        b.tag_name@,
        b.self_closing,
    )
}

/// Bounds that lie in the text and nest properly.
pub open spec fn root_bounds_valid(b: (int, int, int, int, Seq<char>, bool), n: int) -> bool {
    0 <= b.0 <= b.1 <= n && 0 <= b.2 <= b.3 <= n && (b.5 ==> b.1 == b.2 && b.2 == b.3)
}

fn worksheet_literal() -> (r: Vec<char>)
    ensures
        r@ == "worksheet"@,
{
    crate::text::str_chars("worksheet")
}

/// `xlsx_worksheet_root_bounds_impl`: the worksheet root element; with
/// `reject_other_root`, an error when the document's first element is another.
pub fn xlsx_worksheet_root_bounds_impl(xml: &str, reject_other_root: bool) -> (r: CliResult<
    XlsxWorksheetRootBounds,
>)
    ensures
        r is Ok <==> root_bounds_spec(xml@, reject_other_root) is Some,
        r is Ok ==> root_view(r->Ok_0) == root_bounds_spec(xml@, reject_other_root).unwrap(),
        r is Ok ==> root_bounds_valid(root_view(r->Ok_0), xml@.len() as int),
        r is Err ==> r->Err_0.kind == ErrorKind::Unexpected,
{
    let (toks, err) = match char_tokens(xml) {
        Ok(p) => p,
        Err(e) => {
            return Err(e);
        },
    };
    let ws = worksheet_literal();
    let mut i: usize = 0;
    while i < toks.len()
        invariant
            0 <= i <= toks.len(),
            ws@ == "worksheet"@,
            char_tokens_spec(xml@) is Some,
            toks@ == char_tokens_spec(xml@).unwrap().0,
            err == char_tokens_spec(xml@).unwrap().1,
            tokens_well_formed(toks@, xml@.len() as int),
            root_search(toks@, i as int, reject_other_root) == root_search(toks@, 0, reject_other_root),
        decreases toks.len() - i,
    {
        let t = &toks[i];
        let tag = t.kind == XmlTokenKind::Start || t.kind == XmlTokenKind::Empty;
        if tag {
            let local = local_name(t.name.as_str());
            let lv = str_chars(local.as_str());
            if crate::text::vec_eq(&lv, &ws) {
                let v = str_chars(xml);
                if t.kind == XmlTokenKind::Empty {
                    return Ok(
                        XlsxWorksheetRootBounds {
                            start: t.start,
                            open_end: t.end,
                            close_start: t.end,
                            end: t.end,
                            tag_name: t.name.clone(),
                            self_closing: true,
                        },
                    );
                }
                let name_chars = str_chars(t.name.as_str());
                let mut ct: Vec<char> = Vec::new();
                ct.push('<');
                ct.push('/');
                let mut q: usize = 0;
                while q < name_chars.len()
                    invariant
                        0 <= q <= name_chars.len(),
                        ct@ == seq!['<', '/'] + name_chars@.subrange(0, q as int),
                    decreases name_chars.len() - q,
                {
                    ct.push(name_chars[q]);
                    q = q + 1;
                }
                ct.push('>');
                proof {
                    assert(name_chars@.subrange(0, name_chars@.len() as int) =~= name_chars@);
                    assert(ct@ =~= close_tag_of(t.name@));
                }
                match vec_rfind(&v, &ct) {
                    None => {
                        return Err(CliError::unexpected(to_string("worksheet root has no closing tag")));
                    },
                    Some(c) => {
                        proof {
                            lemma_rfind_from(v@, ct@, v@.len() - ct@.len());
                            assert(rfind_seq(v@, ct@) == c);
                            assert(matches_at(v@, ct@, c as int));
                            assert(c + ct.len() <= v.len());
                        }
                        return Ok(
                            XlsxWorksheetRootBounds {
                                start: t.start,
                                open_end: t.end,
                                close_start: c,
                                end: c + ct.len(),
                                tag_name: t.name.clone(),
                                self_closing: false,
                            },
                        );
                    },
                }
            }
            if reject_other_root {
                return Err(CliError::unexpected(crate::text::concat2("worksheet root is ", local.as_str())));
            }
        }
        i = i + 1;
    }
    if err {
        Err(CliError::unexpected(to_string("invalid XML")))
    } else {
        Err(CliError::unexpected(to_string("worksheet root not found")))
    }
}

/// `xlsx_worksheet_root_bounds`: the worksheet root, which must be the
/// document's first element.
pub fn xlsx_worksheet_root_bounds(xml: &str) -> (r: CliResult<XlsxWorksheetRootBounds>)
    ensures
        r is Ok <==> root_bounds_spec(xml@, true) is Some,
        r is Ok ==> root_view(r->Ok_0) == root_bounds_spec(xml@, true).unwrap(),
        r is Ok ==> root_bounds_valid(root_view(r->Ok_0), xml@.len() as int),
        r is Err ==> r->Err_0.kind == ErrorKind::Unexpected,
{
    xlsx_worksheet_root_bounds_impl(xml, true)
}

/// `xlsx_worksheet_root_bounds_permissive`: the first `worksheet` element,
/// wherever it is.
pub fn xlsx_worksheet_root_bounds_permissive(xml: &str) -> (r: CliResult<XlsxWorksheetRootBounds>)
    ensures
        r is Ok <==> root_bounds_spec(xml@, false) is Some,
        r is Ok ==> root_view(r->Ok_0) == root_bounds_spec(xml@, false).unwrap(),
        r is Ok ==> root_bounds_valid(root_view(r->Ok_0), xml@.len() as int),
        r is Err ==> r->Err_0.kind == ErrorKind::Unexpected,
{
    xlsx_worksheet_root_bounds_impl(xml, false)
}

} // verus!

verus! {

// ---------------------------------------------------------------------------
// Splicing
// ---------------------------------------------------------------------------

/// `xml` with `xml[start..end]` replaced by `replacement`.
pub open spec fn splice(xml: Seq<char>, start: int, end: int, replacement: Seq<char>) -> Seq<char> {
    xml.subrange(0, start) + replacement + xml.subrange(end, xml.len() as int)
}

/// `replace_xml_span`: the text with one span replaced.
pub fn replace_xml_span(xml: &str, start: usize, end: usize, replacement: &str) -> (r: String)
    requires
        start <= end <= xml@.len(),
    ensures
        r@ == splice(xml@, start as int, end as int, replacement@),
{
    let v = str_chars(xml);
    let a = crate::text::slice_vec(&v, 0, start);
    let b = crate::text::slice_vec(&v, end, v.len());
    let sa = string_from_chars(a.as_slice());
    let sb = string_from_chars(b.as_slice());
    crate::text::concat3(sa.as_str(), replacement, sb.as_str())
}

/// `remove_xml_span`: the text with one span removed.
pub fn remove_xml_span(xml: &str, start: usize, end: usize) -> (r: String)
    requires
        start <= end <= xml@.len(),
    ensures
        r@ == splice(xml@, start as int, end as int, Seq::empty()),
{
    let r = replace_xml_span(xml, start, end, "");
    proof {
        reveal_strlit("");
    }
    r
}

/// `insert_text`: `piece` inserted at index `at`.
pub fn insert_text(xml: &str, at: usize, piece: &str) -> (r: String)
    requires
        at <= xml@.len(),
    ensures
        r@ == splice(xml@, at as int, at as int, piece@),
{
    replace_xml_span(xml, at, at, piece)
}

/// The spans whose name is `kind`, in order.
pub open spec fn spans_with_kind(sp: Seq<(int, int, Seq<char>)>, kind: Seq<char>) -> Seq<
    (int, int, Seq<char>),
>
    decreases sp.len(),
{
    if sp.len() == 0 {
        Seq::empty()
    } else {
        let rest = spans_with_kind(sp.drop_first(), kind);
        if sp[0].2 == kind {
            seq![sp[0]] + rest
        } else {
            rest
        }
    }
}

pub proof fn lemma_spans_with_kind_ordered(sp: Seq<(int, int, Seq<char>)>, kind: Seq<char>, lo: int, hi: int)
    requires
        spans_ordered(sp, lo, hi),
    ensures
        spans_ordered(spans_with_kind(sp, kind), lo, hi),
    decreases sp.len(),
{
    if sp.len() > 0 {
        let tail = sp.drop_first();
        assert(spans_ordered(tail, sp[0].1, hi)) by {
            assert forall|j: int| 0 <= j < tail.len() implies sp[0].1 <= (#[trigger] tail[j]).0
                <= tail[j].1 <= hi by {
                assert(tail[j] == sp[j + 1]);
                lemma_spans_chain(sp, lo, hi, 0, j + 1);
            }
            assert forall|a: int, b: int| 0 <= a && b == a + 1 && b < tail.len() implies (
            #[trigger] tail[a]).1 <= (#[trigger] tail[b]).0 by {
                assert(tail[a] == sp[a + 1]);
                assert(tail[b] == sp[b + 1]);
            }
        }
        lemma_spans_with_kind_ordered(tail, kind, sp[0].1, hi);
        let rest = spans_with_kind(tail, kind);
        if sp[0].2 == kind {
            let all = seq![sp[0]] + rest;
            assert forall|j: int| 0 <= j < all.len() implies lo <= (#[trigger] all[j]).0 <= all[j].1
                <= hi by {
                if j > 0 {
                    assert(all[j] == rest[j - 1]);
                }
            }
            assert forall|a: int, b: int| 0 <= a && b == a + 1 && b < all.len() implies (
            #[trigger] all[a]).1 <= (#[trigger] all[b]).0 by {
                if a > 0 {
                    assert(all[a] == rest[a - 1]);
                    assert(all[b] == rest[b - 1]);
                } else {
                    assert(all[b] == rest[0]);
                }
            }
        } else {
            assert forall|j: int| 0 <= j < rest.len() implies lo <= (#[trigger] rest[j]).0 by {
            }
        }
    }
}

/// In ordered spans, every later span starts after an earlier one ends.
pub proof fn lemma_spans_chain(sp: Seq<(int, int, Seq<char>)>, lo: int, hi: int, a: int, b: int)
    requires
        spans_ordered(sp, lo, hi),
        0 <= a < b < sp.len(),
    ensures
        sp[a].1 <= sp[b].0,
    decreases b - a,
{
    if b > a + 1 {
        lemma_spans_chain(sp, lo, hi, a, b - 1);
        assert(sp[b - 1].1 <= sp[b].0);
    }
}

/// The text outside the spans `sp[j..]`, from index `from` on.
pub open spec fn keep_between(s: Seq<char>, sp: Seq<(int, int, Seq<char>)>, j: int, from: int) -> Seq<
    char,
>
    decreases sp.len() - j,
{
    if j < 0 || j >= sp.len() {
        s.subrange(from, s.len() as int)
    } else {
        s.subrange(from, sp[j].0) + keep_between(s, sp, j + 1, sp[j].1)
    }
}

/// The text with every span of `sp` removed.
pub open spec fn remove_spans(s: Seq<char>, sp: Seq<(int, int, Seq<char>)>) -> Seq<char> {
    keep_between(s, sp, 0, 0)
}

/// The worksheet as `strip_legacy_xlsx_pivot_table_parts` leaves it, with the
/// number of `pivotTableParts` children of the root it removed.
pub open spec fn strip_pivot_parts_spec(xml: Seq<char>) -> Option<(Seq<char>, nat)> {
    match root_bounds_spec(xml, true) {
        None => None,
        Some(rb) => if rb.5 || rb.1 >= rb.2 {
            Some((xml, 0))
        } else {
            match direct_children_spec(xml.subrange(rb.1, rb.2)) {
                None => None,
                Some(ch) => {
                    let sel = spans_with_kind(shift_spans(ch, rb.1), "pivotTableParts"@);
                    if sel.len() == 0 {
                        Some((xml, 0))
                    } else {
                        Some((remove_spans(xml, sel), sel.len()))
                    }
                },
            }
        },
    }
}

/// The children of `ranges` whose name is `kind`, in order.
pub fn filter_ranges_by_kind(ranges: &Vec<XmlNamedRange>, kind: &str) -> (r: Vec<XmlNamedRange>)
    ensures
        spans_of(r@) == spans_with_kind(spans_of(ranges@), kind@),
{
    let kv = str_chars(kind);
    let mut out: Vec<XmlNamedRange> = Vec::new();
    let ghost all = spans_of(ranges@);
    let mut j: usize = 0;
    proof {
        assert(all.subrange(0, all.len() as int) =~= all);
    }
    while j < ranges.len()
        invariant
            j <= ranges.len(),
            all == spans_of(ranges@),
            kv@ == kind@,
            spans_of(out@) + spans_with_kind(all.subrange(j as int, all.len() as int), kind@)
                == spans_with_kind(all, kind@),
        decreases ranges.len() - j,
    {
        let ghost tail = all.subrange(j + 1, all.len() as int);
        let ghost ext = all.subrange(j as int, all.len() as int);
        proof {
            assert(ext.drop_first() =~= tail);
            assert(ext[0] == all[j as int]);
        }
        let r = &ranges[j];
        let rk = str_chars(r.kind.as_str());
        if crate::text::vec_eq(&rk, &kv) {
            let ghost before = spans_of(out@);
            out.push(r.clone_range());
            proof {
                assert(spans_of(out@) =~= before + seq![all[j as int]]);
            }
        }
        j = j + 1;
    }
    proof {
        assert(all.subrange(all.len() as int, all.len() as int) =~= Seq::<(int, int, Seq<char>)>::empty());
        assert(spans_of(out@) + Seq::<(int, int, Seq<char>)>::empty() =~= spans_of(out@));
    }
    out
}

impl XmlNamedRange {
    pub fn clone_range(&self) -> (r: XmlNamedRange)
        ensures
            span_of(r) == span_of(*self),
    {
        XmlNamedRange { start: self.start, end: self.end, kind: self.kind.clone() }
    }
}

/// `strip_legacy_xlsx_pivot_table_parts`: removes every `pivotTableParts`
/// child of the worksheet root, returning the text and how many were removed.
pub fn strip_legacy_xlsx_pivot_table_parts(xml: &str) -> (r: CliResult<(String, usize)>)
    ensures
        r is Ok <==> strip_pivot_parts_spec(xml@) is Some,
        r is Ok ==> r->Ok_0.0@ == strip_pivot_parts_spec(xml@).unwrap().0,
        r is Ok ==> r->Ok_0.1 == strip_pivot_parts_spec(xml@).unwrap().1,
        r is Err ==> r->Err_0.kind == ErrorKind::Unexpected,
{
    let root = xlsx_worksheet_root_bounds(xml)?;
    if root.self_closing || root.open_end >= root.close_start {
        return Ok((to_string(xml), 0));
    }
    let children = xml_direct_child_ranges(xml, root.open_end, root.close_start)?;
    let ranges = filter_ranges_by_kind(&children, "pivotTableParts");
    if ranges.len() == 0 {
        return Ok((to_string(xml), 0));
    }
    let ghost sel = spans_of(ranges@);
    proof {
        lemma_spans_with_kind_ordered(spans_of(children@), "pivotTableParts"@, root.open_end as int, root.close_start as int);
    }
    let v = str_chars(xml);
    let mut out: Vec<char> = Vec::new();
    let mut last: usize = 0;
    let mut j: usize = 0;
    while j < ranges.len()
        invariant
            0 <= j <= ranges.len(),
            v@ == xml@,
            sel == spans_of(ranges@),
            spans_ordered(sel, root.open_end as int, root.close_start as int),
            root.close_start <= v.len(),
            last <= v.len(),
            j > 0 ==> last == sel[j - 1].1,
            j == 0 ==> last == 0,
            out@ + keep_between(v@, sel, j as int, last as int) == remove_spans(v@, sel),
        decreases ranges.len() - j,
    {
        let r = &ranges[j];
        proof {
            assert(sel[j as int] == span_of(ranges@[j as int]));
            if j > 0 {
                lemma_spans_chain(sel, root.open_end as int, root.close_start as int, j - 1, j as int);
            }
        }
        let piece = crate::text::slice_vec(&v, last, r.start);
        let ghost before = out@;
        let mut q: usize = 0;
        while q < piece.len()
            invariant
                0 <= q <= piece.len(),
                out@ == before + piece@.subrange(0, q as int),
            decreases piece.len() - q,
        {
            out.push(piece[q]);
            q = q + 1;
        }
        proof {
            assert(piece@.subrange(0, piece@.len() as int) =~= piece@);
        }
        last = r.end;
        j = j + 1;
    }
    let piece = crate::text::slice_vec(&v, last, v.len());
    let ghost before = out@;
    let mut q: usize = 0;
    while q < piece.len()
        invariant
            0 <= q <= piece.len(),
            out@ == before + piece@.subrange(0, q as int),
        decreases piece.len() - q,
    {
        out.push(piece[q]);
        q = q + 1;
    }
    proof {
        assert(piece@.subrange(0, piece@.len() as int) =~= piece@);
        assert(out@ =~= remove_spans(v@, sel));
    }
    Ok((string_from_chars(out.as_slice()), ranges.len()))
}

} // verus!
