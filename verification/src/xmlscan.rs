//! Reading spreadsheet parts event by event with the namespaces of their
//! elements: the shared strings a workbook's cells point at, and the raw
//! cells of a worksheet inside a range.
use vstd::prelude::*;
use quick_xml::events::Event;
use quick_xml::name::ResolveResult;
use quick_xml::reader::NsReader;
use quick_xml::Reader;
use crate::error::{CliError, CliResult, ErrorKind};
use crate::text::{str_chars, str_eq, string_from_chars, to_string};
use crate::xml::{char_tokens, char_tokens_spec, local_name, local_name_of, CharToken, XmlTokenKind};

verus! {

// ---------------------------------------------------------------------------
// What quick_xml reports of each event
// ---------------------------------------------------------------------------

/// What `quick_xml::NsReader::read_resolved_event` resolves each event's name
/// to, read to the end: `(0, "")` for a name bound to no namespace (and
/// events without a name), `(1, uri)` for a bound one, `(2, "")` for an
/// undeclared prefix; one entry per event before the end of input or the
/// first error, and whether an error stopped the reading.
pub uninterp spec fn quick_xml_resolutions(xml: Seq<char>) -> (Seq<(u8, Seq<char>)>, bool);

/// Reads every event of `xml` with `NsReader::from_str` and
/// `NsReader::read_resolved_event`, keeping how each name resolves.
/// Claimed: the result is what `quick_xml_resolutions` names for the text.
#[verifier::external_body]
pub(crate) fn scan_resolutions(xml: &str) -> (r: (Vec<(u8, String)>, bool))
    ensures
        (r.0.deep_view(), r.1) == quick_xml_resolutions(xml@),
{
    let mut reader = NsReader::from_str(xml);
    let mut out = Vec::new();
    loop {
        match reader.read_resolved_event() {
            Ok((_, Event::Eof)) => return (out, false),
            Ok((ResolveResult::Bound(n), _)) => out.push((1, n.0.to_string())),
            Ok((ResolveResult::Unbound, _)) => out.push((0, String::new())),
            Ok((ResolveResult::Unknown(_), _)) => out.push((2, String::new())),
            Err(_) => return (out, true),
        }
    }
}

/// The character data of each event `quick_xml::Reader::read_event` reads
/// from a text, to the end: `(1, text)` for a text event and `(2, text)` for
/// a CDATA section (each `xml10_content`, line ends normalized), `(3, name,
/// char)` for an entity or character reference (its name, and the character
/// `BytesRef::resolve_char_ref` gives for a character reference), and
/// `(0, "", None)` for any other event; one entry per event before the end
/// of input or the first error, and whether an error stopped the reading.
pub uninterp spec fn quick_xml_text_pieces(xml: Seq<char>) -> (Seq<(u8, Seq<char>, Option<char>)>, bool);

/// Reads every event of `xml` with `Reader::from_str` and `read_event`,
/// keeping each one's character data. Claimed: the result is what
/// `quick_xml_text_pieces` names for the text.
#[verifier::external_body]
pub(crate) fn scan_text_pieces(xml: &str) -> (r: (Vec<(u8, String, Option<char>)>, bool))
    ensures
        (r.0.deep_view(), r.1) == quick_xml_text_pieces(xml@),
{
    let mut reader = Reader::from_str(xml);
    let mut out = Vec::new();
    loop {
        let piece = match reader.read_event() {
            Ok(Event::Eof) => return (out, false),
            Ok(Event::Text(t)) => (1, t.xml10_content().into_owned(), None),
            Ok(Event::CData(t)) => (2, t.xml10_content().into_owned(), None),
            Ok(Event::GeneralRef(t)) => (3, t.xml10_content().into_owned(), t.resolve_char_ref().ok().flatten()),
            Ok(_) => (0, String::new(), None),
            Err(_) => return (out, true),
        };
        out.push(piece);
    }
}

/// The five entities XML predefines.
pub open spec fn predefined_entity(name: Seq<char>) -> Option<char> {
    if name == "lt"@ {
        Some('<')
    } else if name == "gt"@ {
        Some('>')
    } else if name == "amp"@ {
        Some('&')
    } else if name == "apos"@ {
        Some('\'')
    } else if name == "quot"@ {
        Some('"')
    } else {
        None
    }
}

/// Whether an event carries character data.
pub open spec fn is_text_piece(p: (u8, Seq<char>, Option<char>)) -> bool {
    1 <= p.0 <= 3
}

/// The text an event adds: the data of a text or CDATA event; for a
/// reference, its character, the predefined entity's character, or the
/// reference as written.
pub open spec fn piece_text(p: (u8, Seq<char>, Option<char>)) -> Seq<char> {
    if p.0 == 1 || p.0 == 2 {
        p.1
    } else if p.0 == 3 {
        match p.2 {
            Some(c) => seq![c],
            None => match predefined_entity(p.1) {
                Some(c) => seq![c],
                None => "&"@ + p.1 + ";"@,
            },
        }
    } else {
        Seq::empty()
    }
}

fn piece_text_exec(p: &(u8, String, Option<char>)) -> (r: String)
    ensures
        r@ == piece_text((p.0, p.1@, p.2)),
{
    if p.0 == 1 || p.0 == 2 {
        p.1.clone()
    } else if p.0 == 3 {
        let mut v: Vec<char> = Vec::new();
        match p.2 {
            Some(c) => {
                v.push(c);
            },
            None => {
                let n = p.1.as_str();
                if str_eq(n, "lt") {
                    v.push('<');
                } else if str_eq(n, "gt") {
                    v.push('>');
                } else if str_eq(n, "amp") {
                    v.push('&');
                } else if str_eq(n, "apos") {
                    v.push('\'');
                } else if str_eq(n, "quot") {
                    v.push('"');
                } else {
                    v.push('&');
                    crate::text::push_all(&mut v, &str_chars(n));
                    v.push(';');
                    proof {
                        reveal_strlit("&");
                        reveal_strlit(";");
                        assert(v@ =~= "&"@ + p.1@ + ";"@);
                    }
                }
            },
        }
        string_from_chars(v.as_slice())
    } else {
        let e = String::new();
        proof {
            assert(e@ =~= Seq::<char>::empty());
        }
        e
    }
}

/// The spreadsheet namespaces, transitional and strict.
pub open spec fn spreadsheet_ns(uri: Seq<char>) -> bool {
    uri == "http://schemas.openxmlformats.org/spreadsheetml/2006/main"@ || uri == "http://purl.oclc.org/ooxml/spreadsheetml/main"@
}

/// How an element's namespace counts: 0 spreadsheet, 1 none, 2 another.
pub open spec fn ns_kind(res: (u8, Seq<char>)) -> u8 {
    if res.0 == 1 && spreadsheet_ns(res.1) {
        0
    } else if res.0 == 0 {
        1
    } else {
        2
    }
}

fn ns_kind_exec(res: &(u8, String)) -> (r: u8)
    ensures
        r == ns_kind((res.0, res.1@)),
{
    if res.0 == 1 && (str_eq(res.1.as_str(), "http://schemas.openxmlformats.org/spreadsheetml/2006/main") || str_eq(
        res.1.as_str(),
        "http://purl.oclc.org/ooxml/spreadsheetml/main",
    )) {
        0
    } else if res.0 == 0 {
        1
    } else {
        2
    }
}

/// The open elements, outermost first: each local name and whether its
/// namespace counts as the spreadsheet's.
pub type Frames = Seq<(Seq<char>, bool)>;

/// Whether the open elements are exactly `path`, each in the spreadsheet
/// namespace.
pub open spec fn parent_path(stack: Frames, path: Seq<Seq<char>>) -> bool {
    stack.len() == path.len() && forall|i: int| 0 <= i < stack.len() ==> (#[trigger] stack[i]).1 && stack[i].0 == path[i]
}

fn path_is(stack: &Vec<(String, bool)>, len: usize, path: &Vec<&str>) -> (r: bool)
    requires
        len <= stack@.len(),
    ensures
        r == parent_path(stack.deep_view().take(len as int), path.deep_view()),
{
    if len != path.len() {
        return false;
    }
    let mut i: usize = 0;
    while i < len
        invariant
            0 <= i <= len,
            len == path@.len(),
            len <= stack@.len(),
            forall|k: int| 0 <= k < i ==> (#[trigger] stack.deep_view()[k]).1 && stack.deep_view()[k].0 == path.deep_view()[k],
        decreases len - i,
    {
        if !stack[i].1 || !str_eq(stack[i].0.as_str(), path[i]) {
            proof {
                assert(stack.deep_view().take(len as int)[i as int] == stack.deep_view()[i as int]);
            }
            return false;
        }
        proof {
            assert(stack.deep_view()[i as int] == (stack@[i as int].0@, stack@[i as int].1));
            assert(path.deep_view()[i as int] == path@[i as int]@);
        }
        i = i + 1;
    }
    proof {
        assert forall|k: int| 0 <= k < len implies (#[trigger] stack.deep_view().take(len as int)[k]).1
            && stack.deep_view().take(len as int)[k].0 == path.deep_view()[k] by {
            assert(stack.deep_view().take(len as int)[k] == stack.deep_view()[k]);
        }
    }
    true
}

fn all_valid_from(stack: &Vec<(String, bool)>, from: usize) -> (r: bool)
    ensures
        r == (forall|k: int| from <= k < stack@.len() ==> (#[trigger] stack.deep_view()[k]).1),
{
    let mut i: usize = from;
    while i < stack.len()
        invariant
            from <= i,
            forall|k: int| from <= k < i ==> (#[trigger] stack.deep_view()[k]).1,
        decreases stack.len() - i,
    {
        proof {
            assert(stack.deep_view()[i as int] == (stack@[i as int].0@, stack@[i as int].1));
        }
        if !stack[i].1 {
            return false;
        }
        i = i + 1;
    }
    true
}

fn push_text(s: &mut String, t: &str)
    ensures
        final(s)@ == old(s)@ + t@,
{
    let mut v = str_chars(s.as_str());
    crate::text::push_all(&mut v, &str_chars(t));
    *s = string_from_chars(v.as_slice());
}

pub open spec fn sat_add(i: usize) -> usize {
    if i < usize::MAX {
        (i + 1) as usize
    } else {
        i
    }
}

/// A map kept in key order, with `(k, v)` put in at the end (its keys
/// never go down): the last entry is replaced when it has the same key.
pub open spec fn put_last(m: Seq<(usize, Seq<char>)>, k: usize, v: Seq<char>) -> Seq<(usize, Seq<char>)> {
    if m.len() > 0 && m.last().0 == k {
        m.update(m.len() - 1, (k, v))
    } else {
        m.push((k, v))
    }
}

fn put_last_exec(m: &mut Vec<(usize, String)>, k: usize, v: String)
    ensures
        final(m).deep_view() == put_last(old(m).deep_view(), k, v@),
{
    let n = m.len();
    if n > 0 && m[n - 1].0 == k {
        let ghost old_m = m.deep_view();
        m.set(n - 1, (k, v));
        proof {
            assert(m.deep_view() =~= put_last(old_m, k, v@));
        }
    } else {
        let ghost old_m = m.deep_view();
        let ghost vv = v@;
        m.push((k, v));
        proof {
            assert(m.deep_view() =~= put_last(old_m, k, vv));
        }
    }
}

pub open spec fn usize_seq_has(v: Seq<usize>, x: int) -> bool {
    exists|k: int| 0 <= k < v.len() && v[k] as int == x
}

fn vec_has(v: &Vec<usize>, x: usize) -> (r: bool)
    ensures
        r == usize_seq_has(v@, x as int),
{
    let mut k: usize = 0;
    while k < v.len()
        invariant
            0 <= k <= v.len(),
            forall|j: int| 0 <= j < k ==> v@[j] != x,
        decreases v.len() - k,
    {
        if v[k] == x {
            return true;
        }
        k = k + 1;
    }
    false
}

// ---------------------------------------------------------------------------
// Shared strings
// ---------------------------------------------------------------------------

/// What a shared strings part has said so far.
pub ghost struct SstState {
    pub failed: bool,
    pub stack: Frames,
    pub saw_root: bool,
    pub allow_unbound: bool,
    pub index: usize,
    pub active: Option<(int, Seq<char>)>,
    pub text_depth: Option<int>,
    pub strings: Seq<(usize, Seq<char>)>,
}

pub open spec fn sst_start() -> SstState {
    SstState {
        failed: false,
        stack: Seq::empty(),
        saw_root: false,
        allow_unbound: false,
        index: 0,
        active: None,
        text_depth: None,
        strings: Seq::empty(),
    }
}

/// The root checks a start or empty tag with no open element meets: it is
/// the first root, named `root`, not in a foreign namespace.
pub open spec fn root_ok(saw_root: bool, local: Seq<char>, kind: u8, root: Seq<char>) -> bool {
    !saw_root && local == root && kind != 2
}

pub open spec fn sst_text_parent(stack: Frames) -> bool {
    stack.len() >= 2 && parent_path(stack.take(2), seq!["sst"@, "si"@]) && forall|i: int| 2 <= i < stack.len() ==> (
    #[trigger] stack[i]).1
}

/// How one event of a shared strings part changes what has been read.
#[verifier::opaque]
pub open spec fn sst_step(
    st: SstState,
    t: CharToken,
    res: (u8, Seq<char>),
    piece: (u8, Seq<char>, Option<char>),
    wanted: Seq<usize>,
) -> SstState {
    let local = local_name_of(t.name@);
    let kind = ns_kind(res);
    let root_now = st.stack.len() == 0;
    if st.failed {
        st
    } else if t.kind == XmlTokenKind::Start || t.kind == XmlTokenKind::Empty {
        if root_now && !root_ok(st.saw_root, local, kind, "sst"@) {
            SstState { failed: true, ..st }
        } else {
            let allow = if root_now { kind == 1 } else { st.allow_unbound };
            let saw = st.saw_root || root_now;
            let valid = kind == 0 || (allow && kind == 1);
            let depth = st.stack.len() as int;
            if t.kind == XmlTokenKind::Start {
                let st2 = if local == "si"@ && valid && parent_path(st.stack, seq!["sst"@]) {
                    if usize_seq_has(wanted, st.index as int) {
                        SstState { active: Some((depth, Seq::empty())), ..st }
                    } else {
                        st
                    }
                } else if st.active is Some && local == "t"@ && valid && sst_text_parent(st.stack) {
                    SstState { text_depth: Some(depth), ..st }
                } else {
                    st
                };
                SstState { saw_root: saw, allow_unbound: allow, stack: st.stack.push((local, valid)), ..st2 }
            } else if !root_now && local == "si"@ && valid && parent_path(st.stack, seq!["sst"@]) {
                SstState {
                    strings: if usize_seq_has(wanted, st.index as int) {
                        put_last(st.strings, st.index, Seq::empty())
                    } else {
                        st.strings
                    },
                    index: sat_add(st.index),
                    ..st
                }
            } else {
                SstState { saw_root: saw, allow_unbound: allow, ..st }
            }
        }
    } else if t.kind == XmlTokenKind::End {
        if root_now || st.stack.last().0 != local {
            SstState { failed: true, ..st }
        } else {
            let depth = st.stack.len() - 1;
            let frame = st.stack.last();
            let td = if st.text_depth == Some(depth) { None } else { st.text_depth };
            let closes = local == "si"@ && frame.1 && st.stack.len() == 2 && parent_path(st.stack.take(1), seq!["sst"@]);
            if closes {
                let (active, strings) = match st.active {
                    Some(a) => if a.0 == depth {
                        (None, put_last(st.strings, st.index, a.1))
                    } else {
                        (st.active, st.strings)
                    },
                    None => (st.active, st.strings),
                };
                SstState {
                    text_depth: td,
                    active: active,
                    strings: strings,
                    index: sat_add(st.index),
                    stack: st.stack.drop_last(),
                    ..st
                }
            } else {
                SstState { text_depth: td, stack: st.stack.drop_last(), ..st }
            }
        }
    } else if is_text_piece(piece) {
        match st.active {
            Some(a) => if st.text_depth is Some {
                SstState { active: Some((a.0, a.1 + piece_text(piece))), ..st }
            } else {
                st
            },
            None => st,
        }
    } else {
        st
    }
}

pub open spec fn sst_fold(
    toks: Seq<CharToken>,
    res: Seq<(u8, Seq<char>)>,
    pieces: Seq<(u8, Seq<char>, Option<char>)>,
    wanted: Seq<usize>,
    n: int,
) -> SstState
    decreases n,
{
    if n <= 0 {
        sst_start()
    } else {
        sst_step(sst_fold(toks, res, pieces, wanted, n - 1), toks[n - 1], res[n - 1], pieces[n - 1], wanted)
    }
}

/// The three readings of a text agree: as many events, and each stops on an
/// error alike.
pub open spec fn readings_agree(xml: Seq<char>) -> bool {
    match char_tokens_spec(xml) {
        None => false,
        Some(p) => p.0.len() == quick_xml_resolutions(xml).0.len() && p.0.len() == quick_xml_text_pieces(xml).0.len()
            && p.1 == quick_xml_resolutions(xml).1 && p.1 == quick_xml_text_pieces(xml).1,
    }
}

/// The wanted shared strings that the readings of a part give, by index in
/// key order, or `None` where they do not read as a well-formed shared
/// strings part (`failed`: the reading stopped on an error).
pub open spec fn sst_result(
    toks: Seq<CharToken>,
    failed: bool,
    res: Seq<(u8, Seq<char>)>,
    pieces: Seq<(u8, Seq<char>, Option<char>)>,
    wanted: Seq<usize>,
) -> Option<Seq<(usize, Seq<char>)>> {
    let st = sst_fold(toks, res, pieces, wanted, toks.len() as int);
    if failed || st.failed || !st.saw_root || st.stack.len() > 0 {
        None
    } else {
        Some(st.strings)
    }
}

/// The wanted shared strings of a part, by index in key order, or `None`
/// where the part is not a well-formed shared strings part.
pub open spec fn shared_strings_spec(xml: Seq<char>, wanted: Seq<usize>) -> Option<Seq<(usize, Seq<char>)>> {
    if !readings_agree(xml) {
        None
    } else {
        sst_result(
            char_tokens_spec(xml).unwrap().0,
            char_tokens_spec(xml).unwrap().1,
            quick_xml_resolutions(xml).0,
            quick_xml_text_pieces(xml).0,
            wanted,
        )
    }
}

struct SstScan {
    failed: bool,
    stack: Vec<(String, bool)>,
    saw_root: bool,
    allow_unbound: bool,
    index: usize,
    active: Option<(usize, String)>,
    text_depth: Option<usize>,
    strings: Vec<(usize, String)>,
}

spec fn sst_view(s: SstScan) -> SstState {
    SstState {
        failed: s.failed,
        stack: s.stack.deep_view(),
        saw_root: s.saw_root,
        allow_unbound: s.allow_unbound,
        index: s.index,
        active: match s.active {
            Some(a) => Some((a.0 as int, a.1@)),
            None => None,
        },
        text_depth: match s.text_depth {
            Some(d) => Some(d as int),
            None => None,
        },
        strings: s.strings.deep_view(),
    }
}

fn sst_apply(
    s: &mut SstScan,
    t: &CharToken,
    res: &(u8, String),
    piece: &(u8, String, Option<char>),
    wanted: &Vec<usize>,
)
    ensures
        sst_view(*final(s)) == sst_step(sst_view(*old(s)), *t, (res.0, res.1@), (piece.0, piece.1@, piece.2), wanted@),
{
    proof {
        reveal(sst_step);
    }
    if s.failed {
        return;
    }
    let ghost st0 = sst_view(*s);
    let ln = local_name(t.name.as_str());
    let local = ln.as_str();
    let kind = ns_kind_exec(res);
    let root_now = s.stack.len() == 0;
    let sst = vec!["sst"];
    proof {
        assert(sst.deep_view() =~= seq!["sst"@]);
    }
    if t.kind == XmlTokenKind::Start || t.kind == XmlTokenKind::Empty {
        if root_now && !(!s.saw_root && str_eq(local, "sst") && kind != 2) {
            s.failed = true;
            proof {
                assert(sst_view(*s) =~= sst_step(st0, *t, (res.0, res.1@), (piece.0, piece.1@, piece.2), wanted@));
            }
            return;
        }
        let allow = if root_now { kind == 1 } else { s.allow_unbound };
        let saw = s.saw_root || root_now;
        let valid = kind == 0 || (allow && kind == 1);
        let depth = s.stack.len();
        let n = s.stack.len();
        proof {
            assert(s.stack.deep_view().take(n as int) =~= s.stack.deep_view());
        }
        if t.kind == XmlTokenKind::Start {
            if str_eq(local, "si") && valid && path_is(&s.stack, n, &sst) {
                if vec_has(wanted, s.index) {
                    let e = String::new();
                    proof {
                        assert(e@ =~= Seq::<char>::empty());
                    }
                    s.active = Some((depth, e));
                }
            } else if s.active.is_some() && str_eq(local, "t") && valid && n >= 2 && path_is(&s.stack, 2, &vec!["sst", "si"])
                && all_valid_from(&s.stack, 2) {
                s.text_depth = Some(depth);
            }
            s.saw_root = saw;
            s.allow_unbound = allow;
            let ghost before = s.stack.deep_view();
            s.stack.push((ln.clone(), valid));
            proof {
                assert(s.stack.deep_view() =~= before.push((local_name_of(t.name@), valid)));
            }
        } else if !root_now && str_eq(local, "si") && valid && path_is(&s.stack, n, &sst) {
            if vec_has(wanted, s.index) {
                let e = String::new();
                proof {
                    assert(e@ =~= Seq::<char>::empty());
                }
                put_last_exec(&mut s.strings, s.index, e);
            }
            if s.index < usize::MAX {
                s.index = s.index + 1;
            }
        } else {
            s.saw_root = saw;
            s.allow_unbound = allow;
        }
    } else if t.kind == XmlTokenKind::End {
        if root_now || !str_eq(s.stack[s.stack.len() - 1].0.as_str(), local) {
            s.failed = true;
            return;
        }
        let depth = s.stack.len() - 1;
        let frame_valid = s.stack[depth].1;
        if s.text_depth == Some(depth) {
            s.text_depth = None;
        }
        let closes = str_eq(local, "si") && frame_valid && s.stack.len() == 2 && path_is(&s.stack, 1, &sst);
        if closes {
            let is_here = match &s.active {
                Some(a) => a.0 == depth,
                None => false,
            };
            if is_here {
                let a = s.active.take();
                match a {
                    Some(pair) => {
                        put_last_exec(&mut s.strings, s.index, pair.1);
                    },
                    None => {},
                }
            }
            if s.index < usize::MAX {
                s.index = s.index + 1;
            }
        }
        let ghost before = s.stack.deep_view();
        s.stack.pop();
        proof {
            assert(s.stack.deep_view() =~= before.drop_last());
        }
    } else if piece.0 >= 1 && piece.0 <= 3 {
        if s.text_depth.is_some() {
            match &mut s.active {
                Some(a) => {
                    let add = piece_text_exec(piece);
                    push_text(&mut a.1, add.as_str());
                },
                None => {},
            }
        }
    }
    proof {
        assert(sst_view(*s) =~= sst_step(st0, *t, (res.0, res.1@), (piece.0, piece.1@, piece.2), wanted@));
    }
}

/// `shared_strings_for_indices`: the text of each wanted shared string of a
/// shared strings part, by index in increasing order.
pub fn shared_strings_for_indices(xml: &str, wanted: &Vec<usize>) -> (r: CliResult<Vec<(usize, String)>>)
    ensures
        r is Ok <==> shared_strings_spec(xml@, wanted@) is Some,
        r is Ok ==> r->Ok_0.deep_view() == shared_strings_spec(xml@, wanted@)->Some_0,
        r is Err ==> r->Err_0.kind == ErrorKind::Unexpected,
{
    let (toks, failed) = match char_tokens(xml) {
        Ok(p) => p,
        Err(e) => {
            return Err(e);
        },
    };
    let (res, res_failed) = scan_resolutions(xml);
    let (pieces, pieces_failed) = scan_text_pieces(xml);
    if toks.len() != res.len() || toks.len() != pieces.len() || failed != res_failed || failed != pieces_failed {
        return Err(CliError::unexpected(to_string("invalid shared strings XML: the readings disagree")));
    }
    shared_strings_from_readings(&toks, failed, &res, &pieces, wanted)
}

/// The wanted shared strings from the three readings of a shared strings
/// part: its tokens (and whether the reading stopped on an error), the
/// namespace of each token, and the text of each token.
pub fn shared_strings_from_readings(
    toks: &Vec<CharToken>,
    failed: bool,
    res: &Vec<(u8, String)>,
    pieces: &Vec<(u8, String, Option<char>)>,
    wanted: &Vec<usize>,
) -> (r: CliResult<Vec<(usize, String)>>)
    requires
        toks@.len() == res@.len(),
        toks@.len() == pieces@.len(),
    ensures
        r is Ok <==> sst_result(toks@, failed, res.deep_view(), pieces.deep_view(), wanted@) is Some,
        r is Ok ==> r->Ok_0.deep_view() == sst_result(toks@, failed, res.deep_view(), pieces.deep_view(), wanted@)->Some_0,
        r is Err ==> r->Err_0.kind == ErrorKind::Unexpected,
{
    proof {
        assert(res.deep_view().len() == res@.len());
        assert(pieces.deep_view().len() == pieces@.len());
    }
    let mut s = SstScan {
        failed: false,
        stack: Vec::new(),
        saw_root: false,
        allow_unbound: false,
        index: 0,
        active: None,
        text_depth: None,
        strings: Vec::new(),
    };
    proof {
        assert(s.stack.deep_view() =~= Seq::<(Seq<char>, bool)>::empty());
        assert(s.strings.deep_view() =~= Seq::<(usize, Seq<char>)>::empty());
        assert(sst_view(s) == sst_start());
    }
    let mut i: usize = 0;
    while i < toks.len()
        invariant
            0 <= i <= toks.len(),
            toks.len() == res.len(),
            toks.len() == pieces.len(),
            sst_view(s) == sst_fold(toks@, res.deep_view(), pieces.deep_view(), wanted@, i as int),
        decreases toks.len() - i,
    {
        proof {
            assert(res.deep_view()[i as int] == (res@[i as int].0, res@[i as int].1@));
            assert(pieces.deep_view()[i as int] == (pieces@[i as int].0, pieces@[i as int].1@, pieces@[i as int].2));
        }
        sst_apply(&mut s, &toks[i], &res[i], &pieces[i], wanted);
        i = i + 1;
    }
    if failed || s.failed || !s.saw_root || s.stack.len() > 0 {
        return Err(CliError::unexpected(to_string("invalid shared strings XML")));
    }
    Ok(s.strings)
}

// ---------------------------------------------------------------------------
// The raw cells of a worksheet inside a range
// ---------------------------------------------------------------------------

/// A cell as a worksheet writes it: its type, value text, inline string,
/// formula and style index.
#[derive(Debug)]
pub struct RawCellValue {
    pub cell_type: String,
    pub raw_value: String,
    pub inline_text: String,
    pub formula: String,
    pub style_index: Option<u32>,
}

pub type RawView = (Seq<char>, Seq<char>, Seq<char>, Seq<char>, Option<u32>);

pub open spec fn raw_view(c: RawCellValue) -> RawView {
    (c.cell_type@, c.raw_value@, c.inline_text@, c.formula@, c.style_index)
}

/// The cells of a range scan, keyed by `(column, row)` in key order, and
/// whether a nonzero or a zero style index was seen on a cell in the range.
#[derive(Debug)]
pub struct RawRangeScan {
    pub cells: Vec<((u32, u32), RawCellValue)>,
    pub saw_nonzero_style_index: bool,
    pub saw_style_zero: bool,
}

pub type CellEntry = ((u32, u32), RawView);

pub open spec fn cells_view(v: Seq<((u32, u32), RawCellValue)>) -> Seq<CellEntry> {
    v.map_values(|e: ((u32, u32), RawCellValue)| (e.0, raw_view(e.1)))
}

pub open spec fn key_less(a: (u32, u32), b: (u32, u32)) -> bool {
    a.0 < b.0 || (a.0 == b.0 && a.1 < b.1)
}

/// The first position from `j` on whose key is not below `k`.
pub open spec fn first_not_below(m: Seq<CellEntry>, k: (u32, u32), j: int) -> int
    decreases m.len() - j,
{
    if j < 0 || j >= m.len() {
        m.len() as int
    } else if !key_less(m[j].0, k) {
        j
    } else {
        first_not_below(m, k, j + 1)
    }
}

proof fn lemma_first_not_below(m: Seq<CellEntry>, k: (u32, u32), j: int)
    requires
        0 <= j <= m.len(),
    ensures
        j <= first_not_below(m, k, j) <= m.len(),
    decreases m.len() - j,
{
    if j < m.len() && key_less(m[j].0, k) {
        lemma_first_not_below(m, k, j + 1);
    }
}

/// A map kept in key order with `(k, v)` put in, replacing an earlier value.
pub open spec fn cell_put(m: Seq<CellEntry>, k: (u32, u32), v: RawView) -> Seq<CellEntry> {
    let i = first_not_below(m, k, 0);
    if i < m.len() && m[i].0 == k {
        m.update(i, (k, v))
    } else {
        m.insert(i, (k, v))
    }
}

fn cell_put_exec(m: &mut Vec<((u32, u32), RawCellValue)>, k: (u32, u32), v: RawCellValue)
    ensures
        cells_view(final(m)@) == cell_put(cells_view(old(m)@), k, raw_view(v)),
{
    let ghost mv = cells_view(m@);
    proof {
        lemma_first_not_below(mv, k, 0);
    }
    let mut i: usize = 0;
    while i < m.len() && (m[i].0.0 < k.0 || (m[i].0.0 == k.0 && m[i].0.1 < k.1))
        invariant
            0 <= i <= m@.len(),
            mv == cells_view(m@),
            first_not_below(mv, k, i as int) == first_not_below(mv, k, 0),
        decreases m.len() - i,
    {
        proof {
            assert(mv[i as int].0 == m@[i as int].0);
        }
        i = i + 1;
    }
    proof {
        if i < m@.len() {
            assert(mv[i as int].0 == m@[i as int].0);
        }
        assert(first_not_below(mv, k, i as int) == i);
    }
    let ghost vv = raw_view(v);
    if i < m.len() && m[i].0.0 == k.0 && m[i].0.1 == k.1 {
        m.set(i, (k, v));
        proof {
            assert(cells_view(m@) =~= mv.update(i as int, (k, vv)));
        }
    } else {
        m.insert(i, (k, v));
        proof {
            assert(cells_view(m@) =~= mv.insert(i as int, (k, vv)));
        }
    }
}

pub open spec fn attr_or_empty(attrs: Seq<(Seq<char>, Seq<char>)>, key: Seq<char>) -> Seq<char> {
    match crate::elements::attr_lookup(attrs, key) {
        Some(v) => v,
        None => Seq::empty(),
    }
}

/// The cell a `c` tag describes, when its reference is a plain A1 reference
/// (as `col_name` and the row write it) inside the bounds.
pub open spec fn raw_cell_spec(attrs: Seq<(Seq<char>, Seq<char>)>, bounds: crate::cellref::RangeBounds) -> Option<(u32, u32, RawView)> {
    match crate::elements::attr_lookup(attrs, "r"@) {
        None => None,
        Some(raw_ref) => match crate::cellref::cell_ref_spec(raw_ref) {
            None => None,
            Some(cr) => if raw_ref != crate::cellref::cell_text(cr.0, cr.1) || !bounds.holds(cr.0, cr.1) {
                None
            } else {
                let style = match crate::elements::attr_lookup(attrs, "s"@) {
                    Some(v) => crate::text::parse_u32_spec(v),
                    None => None,
                };
                Some((cr.0, cr.1, (attr_or_empty(attrs, "t"@), Seq::empty(), Seq::empty(), Seq::empty(), style)))
            },
        },
    }
}

/// Where a cell falls in the range read row by row (0 for its first cell),
/// saturating at `u64::MAX`.
pub open spec fn cell_ordinal(bounds: crate::cellref::RangeBounds, col: u32, row: u32) -> int {
    let count = bounds.hi_col() - bounds.lo_col() + 1;
    let a = (row - bounds.lo_row()) * count;
    let a2 = if a > u64::MAX { u64::MAX as int } else { a };
    let b = a2 + (col - bounds.lo_col());
    if b > u64::MAX { u64::MAX as int } else { b }
}

/// Whether a cell lies among the first `limit` cells of the range.
pub open spec fn in_output_prefix(bounds: crate::cellref::RangeBounds, col: u32, row: u32, limit: Option<u64>) -> bool {
    match limit {
        None => true,
        Some(l) => cell_ordinal(bounds, col, row) < l,
    }
}

/// What a worksheet part has said so far.
pub ghost struct SheetScanState {
    pub failed: bool,
    pub stack: Frames,
    pub saw_root: bool,
    pub allow_unbound: bool,
    pub active: Option<(int, u32, u32, RawView)>,
    pub value_depth: Option<int>,
    pub inline_text_depth: Option<int>,
    pub formula_depth: Option<int>,
    pub cells: Seq<CellEntry>,
    pub saw_nonzero: bool,
    pub saw_zero: bool,
}

pub open spec fn sheet_scan_start() -> SheetScanState {
    SheetScanState {
        failed: false,
        stack: Seq::empty(),
        saw_root: false,
        allow_unbound: false,
        active: None,
        value_depth: None,
        inline_text_depth: None,
        formula_depth: None,
        cells: Seq::empty(),
        saw_nonzero: false,
        saw_zero: false,
    }
}

pub open spec fn row_path() -> Seq<Seq<char>> {
    seq!["worksheet"@, "sheetData"@, "row"@]
}

pub open spec fn cell_path() -> Seq<Seq<char>> {
    seq!["worksheet"@, "sheetData"@, "row"@, "c"@]
}

pub open spec fn inline_text_parent(stack: Frames) -> bool {
    stack.len() >= 5 && parent_path(stack.take(4), cell_path()) && stack[4].1 && stack[4].0 == "is"@ && forall|i: int|
        5 <= i < stack.len() ==> (#[trigger] stack[i]).1
}

pub open spec fn note_style(nonzero: bool, zero: bool, style: Option<u32>) -> (bool, bool) {
    match style {
        Some(s) => (nonzero || s != 0, zero || s == 0),
        None => (nonzero, zero),
    }
}

pub open spec fn add_text(raw: RawView, which: int, text: Seq<char>) -> RawView {
    if which == 0 {
        (raw.0, raw.1 + text, raw.2, raw.3, raw.4)
    } else if which == 1 {
        (raw.0, raw.1, raw.2 + text, raw.3, raw.4)
    } else {
        (raw.0, raw.1, raw.2, raw.3 + text, raw.4)
    }
}

/// How one event of a worksheet part changes what has been read.
#[verifier::opaque]
pub open spec fn sheet_scan_step(
    st: SheetScanState,
    xml: Seq<char>,
    t: CharToken,
    res: (u8, Seq<char>),
    piece: (u8, Seq<char>, Option<char>),
    bounds: crate::cellref::RangeBounds,
    limit: Option<u64>,
) -> SheetScanState {
    let local = local_name_of(t.name@);
    let kind = ns_kind(res);
    let root_now = st.stack.len() == 0;
    let attrs = crate::pivots::tag_attrs_of(xml, t);
    if st.failed {
        st
    } else if t.kind == XmlTokenKind::Start || t.kind == XmlTokenKind::Empty {
        if root_now && !root_ok(st.saw_root, local, kind, "worksheet"@) {
            SheetScanState { failed: true, ..st }
        } else {
            let allow = if root_now { kind == 1 } else { st.allow_unbound };
            let saw = st.saw_root || root_now;
            let valid = kind == 0 || (allow && kind == 1);
            let depth = st.stack.len() as int;
            let st1 = SheetScanState { saw_root: saw, allow_unbound: allow, ..st };
            let is_cell = local == "c"@ && valid && parent_path(st.stack, row_path());
            let cell = raw_cell_spec(attrs, bounds);
            let flags = match cell {
                Some(c) => note_style(st.saw_nonzero, st.saw_zero, c.2.4),
                None => (st.saw_nonzero, st.saw_zero),
            };
            if t.kind == XmlTokenKind::Start {
                let st2 = if is_cell {
                    SheetScanState {
                        active: match cell {
                            Some(c) => if in_output_prefix(bounds, c.0, c.1, limit) {
                                Some((depth, c.0, c.1, c.2))
                            } else {
                                None
                            },
                            None => None,
                        },
                        saw_nonzero: flags.0,
                        saw_zero: flags.1,
                        ..st1
                    }
                } else if st.active is Some && local == "v"@ && valid && parent_path(st.stack, cell_path()) {
                    SheetScanState { value_depth: Some(depth), ..st1 }
                } else if st.active is Some && local == "f"@ && valid && parent_path(st.stack, cell_path()) {
                    SheetScanState { formula_depth: Some(depth), ..st1 }
                } else if st.active is Some && local == "t"@ && valid && inline_text_parent(st.stack) {
                    SheetScanState { inline_text_depth: Some(depth), ..st1 }
                } else {
                    st1
                };
                SheetScanState { stack: st.stack.push((local, valid)), ..st2 }
            } else if is_cell && cell is Some {
                let c = cell.unwrap();
                SheetScanState {
                    cells: if in_output_prefix(bounds, c.0, c.1, limit) {
                        cell_put(st.cells, (c.0, c.1), c.2)
                    } else {
                        st.cells
                    },
                    saw_nonzero: flags.0,
                    saw_zero: flags.1,
                    ..st1
                }
            } else {
                st1
            }
        }
    } else if t.kind == XmlTokenKind::End {
        if root_now || st.stack.last().0 != local {
            SheetScanState { failed: true, ..st }
        } else {
            let depth = st.stack.len() - 1;
            let vd = if st.value_depth == Some(depth) { None } else { st.value_depth };
            let id = if st.inline_text_depth == Some(depth) { None } else { st.inline_text_depth };
            let fd = if st.formula_depth == Some(depth) { None } else { st.formula_depth };
            let st2 = SheetScanState {
                value_depth: vd,
                inline_text_depth: id,
                formula_depth: fd,
                stack: st.stack.drop_last(),
                ..st
            };
            match st.active {
                Some(a) => if a.0 == depth && local == "c"@ {
                    SheetScanState { active: None, cells: cell_put(st.cells, (a.1, a.2), a.3), ..st2 }
                } else {
                    st2
                },
                None => st2,
            }
        }
    } else if is_text_piece(piece) {
        if st.active is None {
            st
        } else if st.value_depth is Some {
            with_text(st, 0, piece_text(piece))
        } else if st.inline_text_depth is Some {
            with_text(st, 1, piece_text(piece))
        } else if st.formula_depth is Some {
            with_text(st, 2, piece_text(piece))
        } else {
            st
        }
    } else {
        st
    }
}

pub open spec fn sheet_scan_fold(
    xml: Seq<char>,
    toks: Seq<CharToken>,
    res: Seq<(u8, Seq<char>)>,
    pieces: Seq<(u8, Seq<char>, Option<char>)>,
    bounds: crate::cellref::RangeBounds,
    limit: Option<u64>,
    n: int,
) -> SheetScanState
    decreases n,
{
    if n <= 0 {
        sheet_scan_start()
    } else {
        sheet_scan_step(sheet_scan_fold(xml, toks, res, pieces, bounds, limit, n - 1), xml, toks[n - 1], res[n - 1], pieces[n - 1], bounds, limit)
    }
}

/// The raw cells that the readings of a worksheet part give inside a range
/// (and among its first `limit` cells), or `None` where they do not read as
/// a well-formed worksheet.
pub open spec fn sheet_scan_result(
    xml: Seq<char>,
    toks: Seq<CharToken>,
    failed: bool,
    res: Seq<(u8, Seq<char>)>,
    pieces: Seq<(u8, Seq<char>, Option<char>)>,
    bounds: crate::cellref::RangeBounds,
    limit: Option<u64>,
) -> Option<SheetScanState> {
    let st = sheet_scan_fold(xml, toks, res, pieces, bounds, limit, toks.len() as int);
    if failed || st.failed || !st.saw_root || st.stack.len() > 0 {
        None
    } else {
        Some(st)
    }
}

/// The raw cells of a worksheet part inside a range (and among its first
/// `limit` cells), or `None` where the part is not a well-formed worksheet.
pub open spec fn raw_cells_spec(xml: Seq<char>, bounds: crate::cellref::RangeBounds, limit: Option<u64>) -> Option<SheetScanState> {
    if !readings_agree(xml) {
        None
    } else {
        sheet_scan_result(
            xml,
            char_tokens_spec(xml).unwrap().0,
            char_tokens_spec(xml).unwrap().1,
            quick_xml_resolutions(xml).0,
            quick_xml_text_pieces(xml).0,
            bounds,
            limit,
        )
    }
}

struct SheetScan {
    failed: bool,
    stack: Vec<(String, bool)>,
    saw_root: bool,
    allow_unbound: bool,
    active: Option<(usize, u32, u32, RawCellValue)>,
    value_depth: Option<usize>,
    inline_text_depth: Option<usize>,
    formula_depth: Option<usize>,
    cells: Vec<((u32, u32), RawCellValue)>,
    saw_nonzero: bool,
    saw_zero: bool,
}

spec fn opt_depth(d: Option<usize>) -> Option<int> {
    match d {
        Some(x) => Some(x as int),
        None => None,
    }
}

spec fn sheet_scan_view(s: SheetScan) -> SheetScanState {
    SheetScanState {
        failed: s.failed,
        stack: s.stack.deep_view(),
        saw_root: s.saw_root,
        allow_unbound: s.allow_unbound,
        active: match s.active {
            Some(a) => Some((a.0 as int, a.1, a.2, raw_view(a.3))),
            None => None,
        },
        value_depth: opt_depth(s.value_depth),
        inline_text_depth: opt_depth(s.inline_text_depth),
        formula_depth: opt_depth(s.formula_depth),
        cells: cells_view(s.cells@),
        saw_nonzero: s.saw_nonzero,
        saw_zero: s.saw_zero,
    }
}

fn attr_or_empty_exec(attrs: &Vec<(String, String)>, key: &str) -> (r: String)
    ensures
        r@ == attr_or_empty(attrs.deep_view(), key@),
{
    match crate::elements::attr_get(attrs, key) {
        Some(v) => v,
        None => {
            let e = String::new();
            proof {
                assert(e@ =~= Seq::<char>::empty());
            }
            e
        },
    }
}

fn raw_cell_from_element(attrs: &Vec<(String, String)>, bounds: crate::cellref::RangeBounds) -> (r: Option<(u32, u32, RawCellValue)>)
    ensures
        match r {
            Some(c) => raw_cell_spec(attrs.deep_view(), bounds) == Some((c.0, c.1, raw_view(c.2))),
            None => raw_cell_spec(attrs.deep_view(), bounds) is None,
        },
{
    let raw_ref = match crate::elements::attr_get(attrs, "r") {
        Some(v) => v,
        None => {
            return None;
        },
    };
    let (col, row) = match crate::cellref::parse_cell_ref(raw_ref.as_str()) {
        Ok(p) => p,
        Err(_) => {
            return None;
        },
    };
    let letters = crate::cellref::col_name(col);
    let digits = crate::text::u32_to_string(row);
    let canonical = crate::text::concat2(letters.as_str(), digits.as_str());
    if !str_eq(raw_ref.as_str(), canonical.as_str()) || !crate::cellref::range_contains_cell(bounds, col, row) {
        return None;
    }
    let style = match crate::elements::attr_get(attrs, "s") {
        Some(v) => crate::text::parse_u32(v.as_str()),
        None => None,
    };
    let e1 = String::new();
    let e2 = String::new();
    let e3 = String::new();
    proof {
        assert(e1@ =~= Seq::<char>::empty());
        assert(e2@ =~= Seq::<char>::empty());
        assert(e3@ =~= Seq::<char>::empty());
    }
    Some((col, row, RawCellValue { cell_type: attr_or_empty_exec(attrs, "t"), raw_value: e1, inline_text: e2, formula: e3, style_index: style }))
}

fn coordinate_in_output_prefix(bounds: crate::cellref::RangeBounds, col: u32, row: u32, limit: Option<u64>) -> (r: bool)
    requires
        bounds.holds(col, row),
        bounds.hi_col() - bounds.lo_col() < u32::MAX,
    ensures
        r == in_output_prefix(bounds, col, row, limit),
{
    let n = bounds.normalized();
    let count = n.col_count();
    let dr: u128 = (row - n.start_row) as u128;
    let c: u128 = count as u128;
    proof {
        assert(dr * c <= 0xffff_ffffu128 * 0x1_0000_0000u128) by (nonlinear_arith)
            requires dr <= 0xffff_ffffu128, c <= 0x1_0000_0000u128;
    }
    let a: u128 = dr * c;
    let a2: u128 = if a > 0xffff_ffff_ffff_ffffu128 { 0xffff_ffff_ffff_ffffu128 } else { a };
    let b0: u128 = a2 + (col - n.start_col) as u128;
    let b: u128 = if b0 > 0xffff_ffff_ffff_ffffu128 { 0xffff_ffff_ffff_ffffu128 } else { b0 };
    match limit {
        None => true,
        Some(l) => b < l as u128,
    }
}

/// The state with text added to the open cell's value, inline string or
/// formula.
pub open spec fn with_text(st: SheetScanState, which: int, text: Seq<char>) -> SheetScanState {
    let a = st.active.unwrap();
    SheetScanState { active: Some((a.0, a.1, a.2, add_text(a.3, which, text))), ..st }
}

fn append_active(s: &mut SheetScan, which: usize, text: &str)
    requires
        old(s).active is Some,
        which <= 2,
    ensures
        sheet_scan_view(*final(s)) == with_text(sheet_scan_view(*old(s)), which as int, text@),
{
    match &mut s.active {
        Some(a) => {
            if which == 0 {
                push_text(&mut a.3.raw_value, text);
            } else if which == 1 {
                push_text(&mut a.3.inline_text, text);
            } else {
                push_text(&mut a.3.formula, text);
            }
        },
        None => {},
    }
}

#[verifier::rlimit(60)]
fn sheet_scan_apply(
    s: &mut SheetScan,
    chars: &Vec<char>,
    t: &CharToken,
    res: &(u8, String),
    piece: &(u8, String, Option<char>),
    bounds: crate::cellref::RangeBounds,
    limit: Option<u64>,
)
    requires
        t.start <= t.end <= chars@.len(),
        bounds.hi_col() - bounds.lo_col() < u32::MAX,
    ensures
        sheet_scan_view(*final(s)) == sheet_scan_step(
            sheet_scan_view(*old(s)),
            chars@,
            *t,
            (res.0, res.1@),
            (piece.0, piece.1@, piece.2),
            bounds,
            limit,
        ),
{
    proof {
        reveal(sheet_scan_step);
    }
    if s.failed {
        return;
    }
    let ghost st0 = sheet_scan_view(*s);
    let ln = local_name(t.name.as_str());
    let local = ln.as_str();
    let kind = ns_kind_exec(res);
    let root_now = s.stack.len() == 0;
    let rows = vec!["worksheet", "sheetData", "row"];
    let cellp = vec!["worksheet", "sheetData", "row", "c"];
    proof {
        assert(rows.deep_view() =~= row_path());
        assert(cellp.deep_view() =~= cell_path());
    }
    if t.kind == XmlTokenKind::Start || t.kind == XmlTokenKind::Empty {
        if root_now && !(!s.saw_root && str_eq(local, "worksheet") && kind != 2) {
            s.failed = true;
            return;
        }
        let allow = if root_now { kind == 1 } else { s.allow_unbound };
        let saw = s.saw_root || root_now;
        let valid = kind == 0 || (allow && kind == 1);
        let depth = s.stack.len();
        let n = s.stack.len();
        proof {
            assert(s.stack.deep_view().take(n as int) =~= s.stack.deep_view());
        }
        let is_cell = str_eq(local, "c") && valid && path_is(&s.stack, n, &rows);
        let attrs = crate::pivots::tag_attrs_at_pub(chars, t);
        let cell = raw_cell_from_element(&attrs, bounds);
        s.saw_root = saw;
        s.allow_unbound = allow;
        if t.kind == XmlTokenKind::Start {
            if is_cell {
                match cell {
                    Some(c) => {
                        match c.2.style_index {
                            Some(si) => {
                                s.saw_nonzero = s.saw_nonzero || si != 0;
                                s.saw_zero = s.saw_zero || si == 0;
                            },
                            None => {},
                        }
                        if coordinate_in_output_prefix(bounds, c.0, c.1, limit) {
                            s.active = Some((depth, c.0, c.1, c.2));
                        } else {
                            s.active = None;
                        }
                    },
                    None => {
                        s.active = None;
                    },
                }
            } else if s.active.is_some() && str_eq(local, "v") && valid && path_is(&s.stack, n, &cellp) {
                s.value_depth = Some(depth);
            } else if s.active.is_some() && str_eq(local, "f") && valid && path_is(&s.stack, n, &cellp) {
                s.formula_depth = Some(depth);
            } else if s.active.is_some() && str_eq(local, "t") && valid && n >= 5 && path_is(&s.stack, 4, &cellp)
                && s.stack[4].1 && str_eq(s.stack[4].0.as_str(), "is") && all_valid_from(&s.stack, 5) {
                s.inline_text_depth = Some(depth);
            }
            let ghost before = s.stack.deep_view();
            s.stack.push((ln.clone(), valid));
            proof {
                assert(s.stack.deep_view() =~= before.push((local_name_of(t.name@), valid)));
            }
        } else if is_cell {
            match cell {
                Some(c) => {
                    match c.2.style_index {
                        Some(si) => {
                            s.saw_nonzero = s.saw_nonzero || si != 0;
                            s.saw_zero = s.saw_zero || si == 0;
                        },
                        None => {},
                    }
                    if coordinate_in_output_prefix(bounds, c.0, c.1, limit) {
                        cell_put_exec(&mut s.cells, (c.0, c.1), c.2);
                    }
                },
                None => {},
            }
        }
    } else if t.kind == XmlTokenKind::End {
        if root_now || !str_eq(s.stack[s.stack.len() - 1].0.as_str(), local) {
            s.failed = true;
            return;
        }
        let depth = s.stack.len() - 1;
        if s.value_depth == Some(depth) {
            s.value_depth = None;
        }
        if s.inline_text_depth == Some(depth) {
            s.inline_text_depth = None;
        }
        if s.formula_depth == Some(depth) {
            s.formula_depth = None;
        }
        let here = match &s.active {
            Some(a) => a.0 == depth && str_eq(local, "c"),
            None => false,
        };
        if here {
            let a = s.active.take();
            match a {
                Some(a) => {
                    cell_put_exec(&mut s.cells, (a.1, a.2), a.3);
                },
                None => {},
            }
        }
        let ghost before = s.stack.deep_view();
        s.stack.pop();
        proof {
            assert(s.stack.deep_view() =~= before.drop_last());
        }
    } else if piece.0 >= 1 && piece.0 <= 3 {
        if s.active.is_some() {
            let add = piece_text_exec(piece);
            if s.value_depth.is_some() {
                append_active(s, 0, add.as_str());
            } else if s.inline_text_depth.is_some() {
                append_active(s, 1, add.as_str());
            } else if s.formula_depth.is_some() {
                append_active(s, 2, add.as_str());
            }
        }
    }
    proof {
        assert(sheet_scan_view(*s) =~= sheet_scan_step(st0, chars@, *t, (res.0, res.1@), (piece.0, piece.1@, piece.2), bounds, limit));
    }
}

/// `sheet_raw_cells_in_range`: the cells of a worksheet part inside a range,
/// keeping only the first `limit` cells of the range when a limit is given.
pub fn sheet_raw_cells_in_range(xml: &str, bounds: crate::cellref::RangeBounds, limit: Option<u64>) -> (r: CliResult<RawRangeScan>)
    requires
        bounds.hi_col() - bounds.lo_col() < u32::MAX,
    ensures
        r is Ok <==> raw_cells_spec(xml@, bounds, limit) is Some,
        r is Ok ==> {
            let st = raw_cells_spec(xml@, bounds, limit)->Some_0;
            &&& cells_view(r->Ok_0.cells@) == st.cells
            &&& r->Ok_0.saw_nonzero_style_index == st.saw_nonzero
            &&& r->Ok_0.saw_style_zero == st.saw_zero
        },
        r is Err ==> r->Err_0.kind == ErrorKind::Unexpected,
{
    let (toks, failed) = match char_tokens(xml) {
        Ok(p) => p,
        Err(e) => {
            return Err(e);
        },
    };
    let (res, res_failed) = scan_resolutions(xml);
    let (pieces, pieces_failed) = scan_text_pieces(xml);
    if toks.len() != res.len() || toks.len() != pieces.len() || failed != res_failed || failed != pieces_failed {
        return Err(CliError::unexpected(to_string("invalid worksheet XML: the readings disagree")));
    }
    proof {
        assert(forall|i: int| 0 <= i < toks@.len() ==> (#[trigger] toks@[i]).start <= toks@[i].end <= xml@.len());
    }
    sheet_cells_from_readings(xml, &toks, failed, &res, &pieces, bounds, limit)
}

/// The raw cells of a worksheet part inside a range from its three
/// readings: its tokens (and whether the reading stopped on an error), the
/// namespace of each token, and the text of each token.
pub fn sheet_cells_from_readings(
    xml: &str,
    toks: &Vec<CharToken>,
    failed: bool,
    res: &Vec<(u8, String)>,
    pieces: &Vec<(u8, String, Option<char>)>,
    bounds: crate::cellref::RangeBounds,
    limit: Option<u64>,
) -> (r: CliResult<RawRangeScan>)
    requires
        bounds.hi_col() - bounds.lo_col() < u32::MAX,
        toks@.len() == res@.len(),
        toks@.len() == pieces@.len(),
        forall|i: int| 0 <= i < toks@.len() ==> (#[trigger] toks@[i]).start <= toks@[i].end <= xml@.len(),
    ensures
        r is Ok <==> sheet_scan_result(xml@, toks@, failed, res.deep_view(), pieces.deep_view(), bounds, limit) is Some,
        r is Ok ==> {
            let st = sheet_scan_result(xml@, toks@, failed, res.deep_view(), pieces.deep_view(), bounds, limit)->Some_0;
            &&& cells_view(r->Ok_0.cells@) == st.cells
            &&& r->Ok_0.saw_nonzero_style_index == st.saw_nonzero
            &&& r->Ok_0.saw_style_zero == st.saw_zero
        },
        r is Err ==> r->Err_0.kind == ErrorKind::Unexpected,
{
    proof {
        assert(res.deep_view().len() == res@.len());
        assert(pieces.deep_view().len() == pieces@.len());
    }
    let chars = str_chars(xml);
    let mut s = SheetScan {
        failed: false,
        stack: Vec::new(),
        saw_root: false,
        allow_unbound: false,
        active: None,
        value_depth: None,
        inline_text_depth: None,
        formula_depth: None,
        cells: Vec::new(),
        saw_nonzero: false,
        saw_zero: false,
    };
    proof {
        assert(s.stack.deep_view() =~= Seq::<(Seq<char>, bool)>::empty());
        assert(cells_view(s.cells@) =~= Seq::<CellEntry>::empty());
        assert(sheet_scan_view(s) == sheet_scan_start());
    }
    let mut i: usize = 0;
    while i < toks.len()
        invariant
            0 <= i <= toks.len(),
            toks.len() == res.len(),
            toks.len() == pieces.len(),
            forall|j: int| 0 <= j < toks@.len() ==> (#[trigger] toks@[j]).start <= toks@[j].end <= xml@.len(),
            chars@ == xml@,
            bounds.hi_col() - bounds.lo_col() < u32::MAX,
            sheet_scan_view(s) == sheet_scan_fold(xml@, toks@, res.deep_view(), pieces.deep_view(), bounds, limit, i as int),
        decreases toks.len() - i,
    {
        proof {
            assert(toks@[i as int].start <= toks@[i as int].end <= chars@.len());
            assert(res.deep_view()[i as int] == (res@[i as int].0, res@[i as int].1@));
            assert(pieces.deep_view()[i as int] == (pieces@[i as int].0, pieces@[i as int].1@, pieces@[i as int].2));
        }
        sheet_scan_apply(&mut s, &chars, &toks[i], &res[i], &pieces[i], bounds, limit);
        i = i + 1;
    }
    if failed || s.failed || !s.saw_root || s.stack.len() > 0 {
        return Err(CliError::unexpected(to_string("invalid worksheet XML")));
    }
    Ok(RawRangeScan { cells: s.cells, saw_nonzero_style_index: s.saw_nonzero, saw_style_zero: s.saw_zero })
}

} // verus!
