//! Workbook document properties: the core (`docProps/core.xml`) and
//! extended (`docProps/app.xml`) property parts as written from fields, and
//! the checks and bookkeeping of a metadata update.
use vstd::prelude::*;
use crate::elements::{text_escape, xml_escape};
use crate::error::{CliError, CliResult, ErrorKind};
use crate::text::{concat2, concat3, concat4, concat5, push_all, str_chars, str_eq, string_from_chars, to_string};
use crate::xml::{
    char_tokens, char_tokens_spec, local_name, local_name_of, quick_xml_namespaces, scan_namespaces, splice,
    tokens_well_formed, CharToken, XmlTokenKind,
};
use crate::attrmap::{map_from_pairs, map_get, sorted_insert, AttrMap, Entries};
use crate::elements::{first_tag_from, render_attrs_spec};
use crate::sheetxml::{tag_attrs, tag_text};

verus! {

/// The workbook's document properties.
#[derive(Debug)]
pub struct XlsxWorkbookMetadataFields {
    pub title: String,
    pub subject: String,
    pub creator: String,
    pub keywords: String,
    pub description: String,
    pub last_modified_by: String,
    pub category: String,
    pub company: String,
    pub manager: String,
}

/// The flags of a metadata update: new values, expected current values,
/// calculation settings and where to write.
pub struct XlsxWorkbookMetadataUpdateOptions<'a> {
    pub title: Option<&'a str>,
    pub subject: Option<&'a str>,
    pub creator: Option<&'a str>,
    pub keywords: Option<&'a str>,
    pub description: Option<&'a str>,
    pub last_modified_by: Option<&'a str>,
    pub category: Option<&'a str>,
    pub company: Option<&'a str>,
    pub manager: Option<&'a str>,
    pub calc_mode: Option<&'a str>,
    pub full_calc_on_load: Option<bool>,
    pub expect_title: Option<&'a str>,
    pub expect_subject: Option<&'a str>,
    pub expect_creator: Option<&'a str>,
    pub expect_keywords: Option<&'a str>,
    pub expect_description: Option<&'a str>,
    pub expect_last_modified_by: Option<&'a str>,
    pub expect_category: Option<&'a str>,
    pub expect_company: Option<&'a str>,
    pub expect_manager: Option<&'a str>,
    pub out: Option<&'a str>,
    pub backup: Option<&'a str>,
    pub dry_run: bool,
    pub no_validate: bool,
    pub in_place: bool,
}

/// A local name with its prefix, when there is one.
pub open spec fn qualified_spec(prefix: Seq<char>, local: Seq<char>) -> Seq<char> {
    if prefix.len() == 0 {
        local
    } else {
        prefix + ":"@ + local
    }
}

/// `qualified_xml_name`: `prefix:local`, or `local` without a prefix.
pub fn qualified_xml_name(prefix: &str, local: &str) -> (r: String)
    ensures
        r@ == qualified_spec(prefix@, local@),
{
    if str_chars(prefix).len() == 0 {
        to_string(local)
    } else {
        concat3(prefix, ":", local)
    }
}

/// A property element holding a value; nothing for an empty value.
pub open spec fn metadata_element_spec(prefix: Seq<char>, local: Seq<char>, value: Seq<char>) -> Seq<char> {
    let name = qualified_spec(prefix, local);
    if value.len() == 0 {
        Seq::empty()
    } else {
        "<"@ + name + ">"@ + text_escape(value) + "</"@ + name + ">"@
    }
}

/// `push_metadata_element`: appends a property element unless the value is
/// empty.
pub fn push_metadata_element(xml: &mut String, prefix: &str, local: &str, value: &str)
    ensures
        final(xml)@ == old(xml)@ + metadata_element_spec(prefix@, local@, value@),
{
    if str_chars(value).len() == 0 {
        proof {
            assert(old(xml)@ + Seq::<char>::empty() =~= old(xml)@);
        }
        return;
    }
    let name = qualified_xml_name(prefix, local);
    let esc = xml_escape(value);
    let piece = concat5("<", name.as_str(), ">", esc.as_str(), "</");
    let piece2 = concat3(piece.as_str(), name.as_str(), ">");
    let joined = concat2(xml.as_str(), piece2.as_str());
    *xml = joined;
    proof {
        assert(xml@ =~= old(xml)@ + metadata_element_spec(prefix@, local@, value@));
    }
}

/// The start of a fresh core properties part.
pub open spec fn core_props_head() -> Seq<char> {
    "<?xml version=\"1.0\" encoding=\"UTF-8\" standalone=\"yes\"?><cp:coreProperties xmlns:cp=\"http://schemas.openxmlformats.org/package/2006/metadata/core-properties\" xmlns:dc=\"http://purl.org/dc/elements/1.1/\" xmlns:dcterms=\"http://purl.org/dc/terms/\" xmlns:dcmitype=\"http://purl.org/dc/dcmitype/\" xmlns:xsi=\"http://www.w3.org/2001/XMLSchema-instance\">"@
}

/// A fresh core properties part: the non-empty fields among title, subject,
/// creator, description, keywords, last modified by and category.
pub open spec fn core_props_spec(f: XlsxWorkbookMetadataFields) -> Seq<char> {
    core_props_head() + metadata_element_spec("dc"@, "title"@, f.title@) + metadata_element_spec("dc"@, "subject"@, f.subject@)
        + metadata_element_spec("dc"@, "creator"@, f.creator@) + metadata_element_spec("dc"@, "description"@, f.description@)
        + metadata_element_spec("cp"@, "keywords"@, f.keywords@) + metadata_element_spec("cp"@, "lastModifiedBy"@, f.last_modified_by@)
        + metadata_element_spec("cp"@, "category"@, f.category@) + "</cp:coreProperties>"@
}

/// `render_xlsx_core_props_xml`: a fresh core properties part.
pub fn render_xlsx_core_props_xml(fields: &XlsxWorkbookMetadataFields) -> (r: String)
    ensures
        r@ == core_props_spec(*fields),
{
    let mut xml = to_string("<?xml version=\"1.0\" encoding=\"UTF-8\" standalone=\"yes\"?><cp:coreProperties xmlns:cp=\"http://schemas.openxmlformats.org/package/2006/metadata/core-properties\" xmlns:dc=\"http://purl.org/dc/elements/1.1/\" xmlns:dcterms=\"http://purl.org/dc/terms/\" xmlns:dcmitype=\"http://purl.org/dc/dcmitype/\" xmlns:xsi=\"http://www.w3.org/2001/XMLSchema-instance\">");
    push_metadata_element(&mut xml, "dc", "title", fields.title.as_str());
    push_metadata_element(&mut xml, "dc", "subject", fields.subject.as_str());
    push_metadata_element(&mut xml, "dc", "creator", fields.creator.as_str());
    push_metadata_element(&mut xml, "dc", "description", fields.description.as_str());
    push_metadata_element(&mut xml, "cp", "keywords", fields.keywords.as_str());
    push_metadata_element(&mut xml, "cp", "lastModifiedBy", fields.last_modified_by.as_str());
    push_metadata_element(&mut xml, "cp", "category", fields.category.as_str());
    let out = concat2(xml.as_str(), "</cp:coreProperties>");
    proof {
        assert(out@ =~= core_props_spec(*fields));
    }
    out
}

/// A fresh extended properties part: the manager and company when set.
pub open spec fn app_props_spec(f: XlsxWorkbookMetadataFields) -> Seq<char> {
    "<?xml version=\"1.0\" encoding=\"UTF-8\" standalone=\"yes\"?><Properties xmlns=\"http://schemas.openxmlformats.org/officeDocument/2006/extended-properties\">"@
        + metadata_element_spec(Seq::empty(), "Manager"@, f.manager@) + metadata_element_spec(Seq::empty(), "Company"@, f.company@)
        + "</Properties>"@
}

/// `render_xlsx_app_props_xml`: a fresh extended properties part.
pub fn render_xlsx_app_props_xml(fields: &XlsxWorkbookMetadataFields) -> (r: String)
    ensures
        r@ == app_props_spec(*fields),
{
    proof {
        reveal_strlit("");
    }
    let mut xml = to_string("<?xml version=\"1.0\" encoding=\"UTF-8\" standalone=\"yes\"?><Properties xmlns=\"http://schemas.openxmlformats.org/officeDocument/2006/extended-properties\">");
    push_metadata_element(&mut xml, "", "Manager", fields.manager.as_str());
    push_metadata_element(&mut xml, "", "Company", fields.company.as_str());
    let out = concat2(xml.as_str(), "</Properties>");
    proof {
        assert(out@ =~= app_props_spec(*fields));
    }
    out
}

/// `xlsx_workbook_metadata_has_updates`: whether any property or calculation
/// setting is to change.
pub fn xlsx_workbook_metadata_has_updates(options: &XlsxWorkbookMetadataUpdateOptions) -> (r: bool)
    ensures
        r == (options.title is Some || options.subject is Some || options.creator is Some || options.keywords is Some
            || options.description is Some || options.last_modified_by is Some || options.category is Some
            || options.company is Some || options.manager is Some || options.calc_mode is Some
            || options.full_calc_on_load is Some),
{
    options.title.is_some() || options.subject.is_some() || options.creator.is_some() || options.keywords.is_some()
        || options.description.is_some() || options.last_modified_by.is_some() || options.category.is_some()
        || options.company.is_some() || options.manager.is_some() || options.calc_mode.is_some()
        || options.full_calc_on_load.is_some()
}

/// Whether an expected value, when given, differs from the current one.
pub open spec fn guard_fails(want: Option<&str>, got: Seq<char>) -> bool {
    match want {
        Some(w) => w@ != got,
        None => false,
    }
}

/// Whether every expected property matches the current value.
pub open spec fn metadata_guards_hold(o: XlsxWorkbookMetadataUpdateOptions, f: XlsxWorkbookMetadataFields) -> bool {
    !guard_fails(o.expect_title, f.title@) && !guard_fails(o.expect_subject, f.subject@) && !guard_fails(
        o.expect_creator,
        f.creator@,
    ) && !guard_fails(o.expect_keywords, f.keywords@) && !guard_fails(o.expect_description, f.description@)
        && !guard_fails(o.expect_last_modified_by, f.last_modified_by@) && !guard_fails(o.expect_category, f.category@)
        && !guard_fails(o.expect_company, f.company@) && !guard_fails(o.expect_manager, f.manager@)
}

fn guard(name: &str, want: Option<&str>, got: &str) -> (r: CliResult<()>)
    ensures
        r is Ok <==> !guard_fails(want, got@),
        r is Err ==> r->Err_0.kind == ErrorKind::InvalidArgs,
{
    match want {
        Some(w) => {
            if str_eq(w, got) {
                Ok(())
            } else {
                let qw = crate::text::debug_quoted(w);
                let qg = crate::text::debug_quoted(got);
                let a = concat4("failed to update workbook metadata: expected ", name, " to be ", qw.as_str());
                Err(CliError::invalid_args(concat3(a.as_str(), " but found ", qg.as_str())))
            }
        },
        None => Ok(()),
    }
}

/// `check_xlsx_workbook_metadata_guards`: refuses the update when an
/// expected property value differs from the current one.
pub fn check_xlsx_workbook_metadata_guards(options: &XlsxWorkbookMetadataUpdateOptions, current: &XlsxWorkbookMetadataFields) -> (r:
    CliResult<()>)
    ensures
        r is Ok <==> metadata_guards_hold(*options, *current),
        r is Err ==> r->Err_0.kind == ErrorKind::InvalidArgs,
{
    guard("title", options.expect_title, current.title.as_str())?;
    guard("subject", options.expect_subject, current.subject.as_str())?;
    guard("creator", options.expect_creator, current.creator.as_str())?;
    guard("keywords", options.expect_keywords, current.keywords.as_str())?;
    guard("description", options.expect_description, current.description.as_str())?;
    guard("lastModifiedBy", options.expect_last_modified_by, current.last_modified_by.as_str())?;
    guard("category", options.expect_category, current.category.as_str())?;
    guard("company", options.expect_company, current.company.as_str())?;
    guard("manager", options.expect_manager, current.manager.as_str())?;
    Ok(())
}

/// `apply_xlsx_metadata_string_update`: sets a property to a new value,
/// recording its name among the updated fields and its previous value.
pub fn apply_xlsx_metadata_string_update(
    name: &str,
    value: Option<&str>,
    previous: &str,
    target: &mut String,
    updated_fields: &mut Vec<String>,
    previous_values: &mut Vec<(String, String)>,
)
    ensures
        match value {
            Some(v) => final(target)@ == v@ && final(updated_fields)@.len() == old(updated_fields)@.len() + 1
                && final(updated_fields)@.drop_last() == old(updated_fields)@ && final(updated_fields)@.last()@ == name@
                && final(previous_values)@.len() == old(previous_values)@.len() + 1
                && final(previous_values)@.drop_last() == old(previous_values)@
                && final(previous_values)@.last().0@ == name@ && final(previous_values)@.last().1@ == previous@,
            None => *final(target) == *old(target) && *final(updated_fields) == *old(updated_fields) && *final(previous_values)
                == *old(previous_values),
        },
{
    if let Some(v) = value {
        *target = to_string(v);
        let ghost u0 = updated_fields@;
        let ghost p0 = previous_values@;
        updated_fields.push(to_string(name));
        previous_values.push((to_string(name), to_string(previous)));
        proof {
            assert(updated_fields@.drop_last() =~= u0);
            assert(previous_values@.drop_last() =~= p0);
        }
    }
}

/// The order of a child of the extended properties part.
pub open spec fn app_order_spec(local: Seq<char>) -> i32 {
    if local == "Template"@ {
        10
    } else if local == "Manager"@ {
        20
    } else if local == "Company"@ {
        30
    } else if local == "Pages"@ {
        40
    } else if local == "Words"@ {
        50
    } else if local == "Characters"@ {
        60
    } else if local == "PresentationFormat"@ {
        70
    } else if local == "Lines"@ {
        80
    } else if local == "Paragraphs"@ {
        90
    } else if local == "Slides"@ {
        100
    } else if local == "Notes"@ {
        110
    } else if local == "TotalTime"@ {
        120
    } else if local == "HiddenSlides"@ {
        130
    } else if local == "MMClips"@ {
        140
    } else if local == "ScaleCrop"@ {
        150
    } else if local == "HeadingPairs"@ {
        160
    } else if local == "TitlesOfParts"@ {
        170
    } else if local == "LinksUpToDate"@ {
        180
    } else if local == "CharactersWithSpaces"@ {
        190
    } else if local == "SharedDoc"@ {
        200
    } else if local == "HyperlinkBase"@ {
        210
    } else if local == "HLinks"@ {
        220
    } else if local == "HyperlinksChanged"@ {
        230
    } else if local == "DigSig"@ {
        240
    } else if local == "Application"@ {
        250
    } else if local == "AppVersion"@ {
        260
    } else if local == "DocSecurity"@ {
        270
    } else {
        10000
    }
}

/// `app_property_order`: where a child of the extended properties part goes.
pub fn app_property_order(local_name: &str) -> (r: i32)
    ensures
        r == app_order_spec(local_name@),
{
    if str_eq(local_name, "Template") {
        10
    } else if str_eq(local_name, "Manager") {
        20
    } else if str_eq(local_name, "Company") {
        30
    } else if str_eq(local_name, "Pages") {
        40
    } else if str_eq(local_name, "Words") {
        50
    } else if str_eq(local_name, "Characters") {
        60
    } else if str_eq(local_name, "PresentationFormat") {
        70
    } else if str_eq(local_name, "Lines") {
        80
    } else if str_eq(local_name, "Paragraphs") {
        90
    } else if str_eq(local_name, "Slides") {
        100
    } else if str_eq(local_name, "Notes") {
        110
    } else if str_eq(local_name, "TotalTime") {
        120
    } else if str_eq(local_name, "HiddenSlides") {
        130
    } else if str_eq(local_name, "MMClips") {
        140
    } else if str_eq(local_name, "ScaleCrop") {
        150
    } else if str_eq(local_name, "HeadingPairs") {
        160
    } else if str_eq(local_name, "TitlesOfParts") {
        170
    } else if str_eq(local_name, "LinksUpToDate") {
        180
    } else if str_eq(local_name, "CharactersWithSpaces") {
        190
    } else if str_eq(local_name, "SharedDoc") {
        200
    } else if str_eq(local_name, "HyperlinkBase") {
        210
    } else if str_eq(local_name, "HLinks") {
        220
    } else if str_eq(local_name, "HyperlinksChanged") {
        230
    } else if str_eq(local_name, "DigSig") {
        240
    } else if str_eq(local_name, "Application") {
        250
    } else if str_eq(local_name, "AppVersion") {
        260
    } else if str_eq(local_name, "DocSecurity") {
        270
    } else {
        10000
    }
}

/// Where the document element of a text ends: at its end tag, or at the
/// start of a self-closing root; none when the text does not close it.
pub open spec fn root_end_walk(toks: Seq<CharToken>, i: int, depth: int) -> Option<int>
    decreases toks.len() - i,
{
    if i < 0 || i >= toks.len() {
        None
    } else {
        let t = toks[i];
        match t.kind {
            XmlTokenKind::Start => root_end_walk(toks, i + 1, depth + 1),
            XmlTokenKind::Empty => if depth == 0 {
                Some(t.start as int)
            } else {
                root_end_walk(toks, i + 1, depth)
            },
            XmlTokenKind::End => if depth == 1 {
                Some(t.start as int)
            } else {
                root_end_walk(
                    toks,
                    i + 1,
                    if depth > 0 {
                        depth - 1
                    } else {
                        0
                    },
                )
            },
            _ => root_end_walk(toks, i + 1, depth),
        }
    }
}

pub open spec fn root_end_spec(xml: Seq<char>) -> Option<int> {
    match char_tokens_spec(xml) {
        None => None,
        Some(p) => root_end_walk(p.0, 0, 0),
    }
}

/// `xml_root_end_position`: where new children of the document element go.
pub fn xml_root_end_position(xml: &str) -> (r: Option<usize>)
    ensures
        match root_end_spec(xml@) {
            None => r is None,
            Some(p) => r is Some && r->0 as int == p,
        },
        r is Some ==> r->0 <= xml@.len(),
{
    let (toks, _failed) = match char_tokens(xml) {
        Ok(p) => p,
        Err(_) => {
            return None;
        },
    };
    let mut depth: usize = 0;
    let mut i: usize = 0;
    while i < toks.len()
        invariant
            0 <= i <= toks.len(),
            depth <= i,
            char_tokens_spec(xml@) is Some,
            char_tokens_spec(xml@).unwrap().0 == toks@,
            tokens_well_formed(toks@, xml@.len() as int),
            root_end_walk(toks@, 0, 0) == root_end_walk(toks@, i as int, depth as int),
        decreases toks.len() - i,
    {
        let t = &toks[i];
        match t.kind {
            XmlTokenKind::Start => {
                depth = depth + 1;
            },
            XmlTokenKind::Empty => {
                if depth == 0 {
                    return Some(t.start);
                }
            },
            XmlTokenKind::End => {
                if depth == 1 {
                    return Some(t.start);
                }
                if depth > 0 {
                    depth = depth - 1;
                }
            },
            _ => {},
        }
        i = i + 1;
    }
    None
}

// ---------------------------------------------------------------------------
// Property elements by namespace
// ---------------------------------------------------------------------------

/// A child of the document element: where it lies, its qualified name and
/// its attributes.
#[derive(Debug)]
pub struct MetadataXmlElementSpan {
    pub start: usize,
    pub end: usize,
    pub name: String,
    pub attrs: AttrMap,
}

pub open spec fn meta_span_view(s: MetadataXmlElementSpan) -> (int, int, Seq<char>, Entries) {
    (s.start as int, s.end as int, s.name@, s.attrs.view())
}

/// Whether token `i`, read at `depth`, is a child of the document element
/// with the local name in the namespace.
pub open spec fn child_in_ns(toks: Seq<CharToken>, nss: Seq<Option<Seq<char>>>, i: int, depth: int, ns: Seq<char>, local: Seq<char>) -> bool {
    depth == 1 && local_name_of(toks[i].name@) == local && nss[i] == Some(ns)
}

pub open spec fn tag_span(xml: Seq<char>, t: CharToken, end: int) -> (int, int, Seq<char>, Entries) {
    (t.start as int, end, t.name@, map_from_pairs(tag_attrs(xml, t)))
}

/// The first child of the document element with the local name in the
/// namespace, reading from token `i` at `depth`; `active` is the start tag
/// of a matching element not yet closed and the depth inside it.
pub open spec fn child_walk(
    xml: Seq<char>,
    toks: Seq<CharToken>,
    nss: Seq<Option<Seq<char>>>,
    ns: Seq<char>,
    local: Seq<char>,
    i: int,
    depth: int,
    active: Option<(int, int)>,
) -> Option<(int, int, Seq<char>, Entries)>
    decreases toks.len() - i,
{
    if i < 0 || i >= toks.len() || i >= nss.len() {
        None
    } else {
        let t = toks[i];
        match t.kind {
            XmlTokenKind::Start => {
                let a2 = if child_in_ns(toks, nss, i, depth, ns, local) { Some((i, depth + 1)) } else { active };
                child_walk(xml, toks, nss, ns, local, i + 1, depth + 1, a2)
            },
            XmlTokenKind::Empty => if child_in_ns(toks, nss, i, depth, ns, local) {
                Some(tag_span(xml, t, t.end as int))
            } else {
                child_walk(xml, toks, nss, ns, local, i + 1, depth, active)
            },
            XmlTokenKind::End => if active is Some && active.unwrap().1 == depth {
                Some(tag_span(xml, toks[active.unwrap().0], t.end as int))
            } else {
                child_walk(xml, toks, nss, ns, local, i + 1, if depth > 0 { depth - 1 } else { 0 }, active)
            },
            XmlTokenKind::Other => child_walk(xml, toks, nss, ns, local, i + 1, depth, active),
        }
    }
}

/// The first child of the document element with the local name in the
/// namespace: the events as `quick_xml` reads them, each start or empty tag
/// with the namespace its name resolves to (the reading stops at the first
/// event the namespace-aware reader refuses).
pub open spec fn find_child_spec(xml: Seq<char>, ns: Seq<char>, local: Seq<char>) -> Option<(int, int, Seq<char>, Entries)> {
    match char_tokens_spec(xml) {
        None => None,
        Some(p) => child_walk(xml, p.0, quick_xml_namespaces(xml).0, ns, local, 0, 0, None),
    }
}

fn token_span(sv: &Vec<char>, t: &CharToken, end: usize) -> (r: MetadataXmlElementSpan)
    requires
        t.start <= t.end <= sv@.len(),
    ensures
        meta_span_view(r) == tag_span(sv@, *t, end as int),
{
    let pairs = crate::sheetxml::token_attrs(sv, t);
    MetadataXmlElementSpan { start: t.start, end, name: t.name.clone(), attrs: AttrMap::from_pairs(&pairs) }
}

/// `find_direct_child_span_by_ns`: the first child of the document element
/// with the local name in the namespace `ns`.
pub fn find_direct_child_span_by_ns(xml: &str, ns: &str, local: &str) -> (r: Option<MetadataXmlElementSpan>)
    ensures
        match find_child_spec(xml@, ns@, local@) {
            None => r is None,
            Some(v) => r is Some && meta_span_view(r->0) == v,
        },
        r is Some ==> r->0.start <= r->0.end <= xml@.len(),
{
    let (toks, _failed) = match char_tokens(xml) {
        Ok(p) => p,
        Err(_) => {
            return None;
        },
    };
    let (nss, _ns_failed) = scan_namespaces(xml);
    let sv = str_chars(xml);
    let ghost nv = nss.deep_view();
    let mut depth: usize = 0;
    let mut active: Option<(usize, usize)> = None;
    let mut i: usize = 0;
    while i < toks.len() && i < nss.len()
        invariant
            0 <= i <= toks.len(),
            depth <= i,
            sv@ == xml@,
            nv == nss.deep_view(),
            nv == quick_xml_namespaces(xml@).0,
            char_tokens_spec(xml@) is Some,
            char_tokens_spec(xml@).unwrap().0 == toks@,
            tokens_well_formed(toks@, xml@.len() as int),
            active is Some ==> active.unwrap().0 < i,
            child_walk(xml@, toks@, nv, ns@, local@, 0, 0, None) == child_walk(
                xml@,
                toks@,
                nv,
                ns@,
                local@,
                i as int,
                depth as int,
                match active {
                    Some(a) => Some((a.0 as int, a.1 as int)),
                    None => None,
                },
            ),
        decreases toks.len() - i,
    {
        let t = &toks[i];
        let is_tag = t.kind == XmlTokenKind::Start || t.kind == XmlTokenKind::Empty;
        let matched = is_tag && depth == 1 && str_eq(local_name(t.name.as_str()).as_str(), local) && match &nss[i] {
            Some(n) => str_eq(n.as_str(), ns),
            None => false,
        };
        proof {
            assert(nv[i as int] == match nss@[i as int] {
                Some(n) => Some(n@),
                None => None::<Seq<char>>,
            });
            if is_tag {
                assert(matched == child_in_ns(toks@, nv, i as int, depth as int, ns@, local@));
            }
        }
        match t.kind {
            XmlTokenKind::Start => {
                depth = depth + 1;
                if matched {
                    active = Some((i, depth));
                }
            },
            XmlTokenKind::Empty => {
                if matched {
                    return Some(token_span(&sv, t, t.end));
                }
            },
            XmlTokenKind::End => {
                match active {
                    Some((si, sd)) => {
                        if sd == depth {
                            proof {
                                crate::styles::lemma_tokens_monotone(toks@, xml@.len() as int, si as int, i as int);
                            }
                            return Some(token_span(&sv, &toks[si], t.end));
                        }
                    },
                    None => {},
                }
                if depth > 0 {
                    depth = depth - 1;
                }
            },
            XmlTokenKind::Other => {},
        }
        i = i + 1;
    }
    None
}

/// The name of the attribute that binds a prefix (the default namespace for
/// an empty prefix).
pub open spec fn xmlns_name_spec(prefix: Seq<char>) -> Seq<char> {
    if prefix.len() == 0 {
        "xmlns"@
    } else {
        "xmlns:"@ + prefix
    }
}

/// The text with the first start or empty tag binding `prefix` to `ns`,
/// unless it already declares that prefix (or `ns` is empty, or there is no
/// tag).
pub open spec fn ensure_xmlns_spec(xml: Seq<char>, prefix: Seq<char>, ns: Seq<char>) -> Seq<char> {
    if ns.len() == 0 {
        xml
    } else {
        match char_tokens_spec(xml) {
            None => xml,
            Some(p) => {
                let k = first_tag_from(p.0, 0);
                if k == -1 {
                    xml
                } else {
                    let t = p.0[k];
                    let attrs = map_from_pairs(tag_attrs(xml, t));
                    let an = xmlns_name_spec(prefix);
                    if map_get(attrs, an) is Some {
                        xml
                    } else {
                        let suffix = if crate::text::has_suffix(crate::text::trim_end(tag_text(xml, t)), "/>"@) {
                            "/>"@
                        } else {
                            ">"@
                        };
                        splice(xml, t.start as int, t.end as int, "<"@ + t.name@ + render_attrs_spec(sorted_insert(attrs, an, ns)) + suffix)
                    }
                }
            },
        }
    }
}

/// Whether a text, ignoring trailing white space, ends with `/>`.
fn ends_self_closing(v: &Vec<char>) -> (r: bool)
    ensures
        r == crate::text::has_suffix(crate::text::trim_end(v@), "/>"@),
{
    let n = crate::text::trim_end_len(v);
    let ghost t = v@.subrange(0, n as int);
    let ends = n >= 2 && v[n - 2] == '/' && v[n - 1] == '>';
    proof {
        reveal_strlit("/>");
        assert(t == crate::text::trim_end(v@));
        if ends {
            assert(t.subrange(t.len() - 2, t.len() as int) =~= "/>"@);
        } else if t.len() >= 2 {
            if t.subrange(t.len() - 2, t.len() as int) == "/>"@ {
                assert(t.subrange(t.len() - 2, t.len() as int)[0] == t[t.len() - 2]);
                assert(t.subrange(t.len() - 2, t.len() as int)[1] == t[t.len() - 1]);
                assert("/>"@[0] == '/');
            }
        }
    }
    ends
}

/// `ensure_xmlns_attr`: the document element declares the namespace.
pub fn ensure_xmlns_attr(xml: String, prefix: &str, ns: &str) -> (r: String)
    ensures
        r@ == ensure_xmlns_spec(xml@, prefix@, ns@),
{
    if str_chars(ns).len() == 0 {
        return xml;
    }
    let (toks, _failed) = match char_tokens(xml.as_str()) {
        Ok(p) => p,
        Err(_) => {
            return xml;
        },
    };
    let mut k: usize = 0;
    while k < toks.len() && !(toks[k].kind == XmlTokenKind::Start || toks[k].kind == XmlTokenKind::Empty)
        invariant
            0 <= k <= toks.len(),
            first_tag_from(toks@, k as int) == first_tag_from(toks@, 0),
        decreases toks.len() - k,
    {
        k = k + 1;
    }
    if k >= toks.len() {
        return xml;
    }
    let sv = str_chars(xml.as_str());
    let t = &toks[k];
    let pairs = crate::sheetxml::token_attrs(&sv, t);
    let mut attrs = AttrMap::from_pairs(&pairs);
    let an = if str_chars(prefix).len() == 0 {
        to_string("xmlns")
    } else {
        concat2("xmlns:", prefix)
    };
    if attrs.get(an.as_str()).is_some() {
        return xml;
    }
    attrs.insert(an, to_string(ns));
    let tag = crate::elements::vec_to_string_range(&sv, t.start, t.end);
    let tv = str_chars(tag.as_str());
    let suffix = if ends_self_closing(&tv) { "/>" } else { ">" };
    let rendered = crate::elements::render_xml_attrs(&attrs.entries);
    let piece = concat4("<", t.name.as_str(), rendered.as_str(), suffix);
    crate::xml::replace_xml_span(xml.as_str(), t.start, t.end, piece.as_str())
}

/// The schema order a document element's children follow.
#[derive(Clone, Copy, PartialEq, Eq, Structural, Debug)]
pub enum ChildSchema {
    /// The extended properties (`Properties`).
    ExtendedProperties,
    /// The workbook part (`workbook`).
    Workbook,
}

pub open spec fn schema_order_spec(schema: ChildSchema, local: Seq<char>) -> i32 {
    match schema {
        ChildSchema::ExtendedProperties => app_order_spec(local),
        ChildSchema::Workbook => crate::orders::workbook_child_order_spec(local),
    }
}

fn schema_order(schema: ChildSchema, local: &str) -> (r: i32)
    ensures
        r == schema_order_spec(schema, local@),
{
    match schema {
        ChildSchema::ExtendedProperties => app_property_order(local),
        ChildSchema::Workbook => crate::orders::workbook_child_order(local),
    }
}

/// Where a new child of the document element goes so that the children
/// stay in the schema's order: before the first child that orders after
/// `target`, else before the end tag of the document element.
pub open spec fn ordered_walk(toks: Seq<CharToken>, schema: ChildSchema, target: i32, i: int, depth: int) -> Option<int>
    decreases toks.len() - i,
{
    if i < 0 || i >= toks.len() {
        None
    } else {
        let t = toks[i];
        match t.kind {
            XmlTokenKind::Start => if depth == 1 && schema_order_spec(schema, local_name_of(t.name@)) > target {
                Some(t.start as int)
            } else {
                ordered_walk(toks, schema, target, i + 1, depth + 1)
            },
            XmlTokenKind::Empty => if depth == 1 && schema_order_spec(schema, local_name_of(t.name@)) > target {
                Some(t.start as int)
            } else {
                ordered_walk(toks, schema, target, i + 1, depth)
            },
            XmlTokenKind::End => if depth == 1 {
                Some(t.start as int)
            } else {
                ordered_walk(toks, schema, target, i + 1, if depth > 0 { depth - 1 } else { 0 })
            },
            XmlTokenKind::Other => ordered_walk(toks, schema, target, i + 1, depth),
        }
    }
}

pub open spec fn ordered_insert_spec(xml: Seq<char>, schema: ChildSchema, target: i32) -> Option<int> {
    match char_tokens_spec(xml) {
        None => None,
        Some(p) => ordered_walk(p.0, schema, target, 0, 0),
    }
}

/// `metadata_ordered_insert_position`: where a child of order `target_order`
/// goes among the children of the document element, in the schema's order.
pub fn metadata_ordered_insert_position(xml: &str, target_order: i32, schema: ChildSchema) -> (r: Option<usize>)
    ensures
        match ordered_insert_spec(xml@, schema, target_order) {
            None => r is None,
            Some(p) => r is Some && r->0 as int == p,
        },
        r is Some ==> r->0 <= xml@.len(),
{
    let (toks, _failed) = match char_tokens(xml) {
        Ok(p) => p,
        Err(_) => {
            return None;
        },
    };
    let mut depth: usize = 0;
    let mut i: usize = 0;
    while i < toks.len()
        invariant
            0 <= i <= toks.len(),
            depth <= i,
            char_tokens_spec(xml@) is Some,
            char_tokens_spec(xml@).unwrap().0 == toks@,
            tokens_well_formed(toks@, xml@.len() as int),
            ordered_walk(toks@, schema, target_order, 0, 0) == ordered_walk(toks@, schema, target_order, i as int, depth as int),
        decreases toks.len() - i,
    {
        let t = &toks[i];
        match t.kind {
            XmlTokenKind::Start => {
                if depth == 1 && schema_order(schema, local_name(t.name.as_str()).as_str()) > target_order {
                    return Some(t.start);
                }
                depth = depth + 1;
            },
            XmlTokenKind::Empty => {
                if depth == 1 && schema_order(schema, local_name(t.name.as_str()).as_str()) > target_order {
                    return Some(t.start);
                }
            },
            XmlTokenKind::End => {
                if depth == 1 {
                    return Some(t.start);
                }
                if depth > 0 {
                    depth = depth - 1;
                }
            },
            XmlTokenKind::Other => {},
        }
        i = i + 1;
    }
    None
}

/// A property element replaced in place (keeping its name and attributes),
/// removed for an empty value, or added where the order puts it (extended
/// properties) or before the end of the document element.
pub open spec fn set_child_spec(xml: Seq<char>, ns: Seq<char>, local: Seq<char>, prefix: Seq<char>, value: Seq<char>, ordered: bool) -> Seq<char> {
    match find_child_spec(xml, ns, local) {
        Some(sp) => if value.len() == 0 {
            splice(xml, sp.0, sp.1, Seq::empty())
        } else {
            splice(xml, sp.0, sp.1, "<"@ + sp.2 + render_attrs_spec(sp.3) + ">"@ + text_escape(value) + "</"@ + sp.2 + ">"@)
        },
        None => if value.len() == 0 {
            xml
        } else {
            let pos = if ordered {
                ordered_insert_spec(xml, ChildSchema::ExtendedProperties, app_order_spec(local))
            } else {
                root_end_spec(xml)
            };
            match pos {
                None => xml,
                Some(p) => splice(xml, p, p, metadata_element_spec(prefix, local, value)),
            }
        },
    }
}

/// `set_metadata_direct_child_xml`: sets a property of the document element
/// to a value; `ordered` places a new one in the extended properties' order.
pub fn set_metadata_direct_child_xml(xml: &str, ns: &str, local: &str, prefix: &str, value: &str, ordered: bool) -> (r: String)
    ensures
        r@ == set_child_spec(xml@, ns@, local@, prefix@, value@, ordered),
{
    let empty = str_chars(value).len() == 0;
    match find_direct_child_span_by_ns(xml, ns, local) {
        Some(span) => {
            if empty {
                return crate::xml::remove_xml_span(xml, span.start, span.end);
            }
            let attrs = crate::elements::render_xml_attrs(&span.attrs.entries);
            let esc = xml_escape(value);
            let head = concat4("<", span.name.as_str(), attrs.as_str(), ">");
            let tail = concat3("</", span.name.as_str(), ">");
            let piece = concat3(head.as_str(), esc.as_str(), tail.as_str());
            proof {
                reveal_strlit("<");
                reveal_strlit(">");
                reveal_strlit("</");
            }
            crate::xml::replace_xml_span(xml, span.start, span.end, piece.as_str())
        },
        None => {
            if empty {
                return to_string(xml);
            }
            let pos = if ordered {
                metadata_ordered_insert_position(xml, app_property_order(local), ChildSchema::ExtendedProperties)
            } else {
                xml_root_end_position(xml)
            };
            match pos {
                None => to_string(xml),
                Some(p) => {
                    let mut child = String::new();
                    push_metadata_element(&mut child, prefix, local, value);
                    proof {
                        assert(child@ =~= metadata_element_spec(prefix@, local@, value@));
                    }
                    crate::xml::insert_text(xml, p, child.as_str())
                },
            }
        },
    }
}

pub open spec fn core_ns() -> Seq<char> {
    "http://schemas.openxmlformats.org/package/2006/metadata/core-properties"@
}

pub open spec fn dc_ns() -> Seq<char> {
    "http://purl.org/dc/elements/1.1/"@
}

pub open spec fn extended_ns() -> Seq<char> {
    "http://schemas.openxmlformats.org/officeDocument/2006/extended-properties"@
}

/// A core property set when its flag was given.
pub open spec fn core_step(xml: Seq<char>, given: bool, ns: Seq<char>, local: Seq<char>, prefix: Seq<char>, value: Seq<char>) -> Seq<char> {
    if given {
        set_child_spec(xml, ns, local, prefix, value, false)
    } else {
        xml
    }
}

/// The core properties part after an update: every namespace the part uses
/// declared, then each property whose flag was given set to its new value.
pub open spec fn core_update_spec(xml: Seq<char>, o: XlsxWorkbookMetadataUpdateOptions, f: XlsxWorkbookMetadataFields) -> Seq<char> {
    let x1 = ensure_xmlns_spec(xml, "cp"@, core_ns());
    let x2 = ensure_xmlns_spec(x1, "dc"@, dc_ns());
    let x3 = ensure_xmlns_spec(x2, "dcterms"@, "http://purl.org/dc/terms/"@);
    let x4 = ensure_xmlns_spec(x3, "dcmitype"@, "http://purl.org/dc/dcmitype/"@);
    let x5 = ensure_xmlns_spec(x4, "xsi"@, "http://www.w3.org/2001/XMLSchema-instance"@);
    let y1 = core_step(x5, o.title is Some, dc_ns(), "title"@, "dc"@, f.title@);
    let y2 = core_step(y1, o.subject is Some, dc_ns(), "subject"@, "dc"@, f.subject@);
    let y3 = core_step(y2, o.creator is Some, dc_ns(), "creator"@, "dc"@, f.creator@);
    let y4 = core_step(y3, o.description is Some, dc_ns(), "description"@, "dc"@, f.description@);
    let y5 = core_step(y4, o.keywords is Some, core_ns(), "keywords"@, "cp"@, f.keywords@);
    let y6 = core_step(y5, o.last_modified_by is Some, core_ns(), "lastModifiedBy"@, "cp"@, f.last_modified_by@);
    core_step(y6, o.category is Some, core_ns(), "category"@, "cp"@, f.category@)
}

fn core_set(xml: String, given: bool, ns: &str, local: &str, prefix: &str, value: &str) -> (r: String)
    ensures
        r@ == core_step(xml@, given, ns@, local@, prefix@, value@),
{
    if given {
        set_metadata_direct_child_xml(xml.as_str(), ns, local, prefix, value, false)
    } else {
        xml
    }
}

/// `update_xlsx_core_props_xml`: the core properties part with the given
/// properties set to the fields' values.
pub fn update_xlsx_core_props_xml(xml: &str, options: &XlsxWorkbookMetadataUpdateOptions, fields: &XlsxWorkbookMetadataFields) -> (r: String)
    ensures
        r@ == core_update_spec(xml@, *options, *fields),
{
    let cp = "http://schemas.openxmlformats.org/package/2006/metadata/core-properties";
    let dc = "http://purl.org/dc/elements/1.1/";
    proof {
        assert(cp@ == core_ns());
        assert(dc@ == dc_ns());
    }
    let x = ensure_xmlns_attr(to_string(xml), "cp", cp);
    let x = ensure_xmlns_attr(x, "dc", dc);
    let x = ensure_xmlns_attr(x, "dcterms", "http://purl.org/dc/terms/");
    let x = ensure_xmlns_attr(x, "dcmitype", "http://purl.org/dc/dcmitype/");
    let x = ensure_xmlns_attr(x, "xsi", "http://www.w3.org/2001/XMLSchema-instance");
    let x = core_set(x, options.title.is_some(), dc, "title", "dc", fields.title.as_str());
    let x = core_set(x, options.subject.is_some(), dc, "subject", "dc", fields.subject.as_str());
    let x = core_set(x, options.creator.is_some(), dc, "creator", "dc", fields.creator.as_str());
    let x = core_set(x, options.description.is_some(), dc, "description", "dc", fields.description.as_str());
    let x = core_set(x, options.keywords.is_some(), cp, "keywords", "cp", fields.keywords.as_str());
    let x = core_set(x, options.last_modified_by.is_some(), cp, "lastModifiedBy", "cp", fields.last_modified_by.as_str());
    core_set(x, options.category.is_some(), cp, "category", "cp", fields.category.as_str())
}

/// The extended properties part after an update: the default namespace
/// declared, then manager and company set, in the part's order, when their
/// flags were given.
pub open spec fn app_update_spec(xml: Seq<char>, o: XlsxWorkbookMetadataUpdateOptions, f: XlsxWorkbookMetadataFields) -> Seq<char> {
    let x1 = ensure_xmlns_spec(xml, Seq::empty(), extended_ns());
    let x2 = if o.manager is Some { set_child_spec(x1, extended_ns(), "Manager"@, Seq::empty(), f.manager@, true) } else { x1 };
    if o.company is Some {
        set_child_spec(x2, extended_ns(), "Company"@, Seq::empty(), f.company@, true)
    } else {
        x2
    }
}

/// `update_xlsx_app_props_xml`: the extended properties part with the given
/// properties set to the fields' values.
pub fn update_xlsx_app_props_xml(xml: &str, options: &XlsxWorkbookMetadataUpdateOptions, fields: &XlsxWorkbookMetadataFields) -> (r: String)
    ensures
        r@ == app_update_spec(xml@, *options, *fields),
{
    let ep = "http://schemas.openxmlformats.org/officeDocument/2006/extended-properties";
    proof {
        assert(ep@ == extended_ns());
        reveal_strlit("");
    }
    let mut x = ensure_xmlns_attr(to_string(xml), "", ep);
    if options.manager.is_some() {
        x = set_metadata_direct_child_xml(x.as_str(), ep, "Manager", "", fields.manager.as_str(), true);
    }
    if options.company.is_some() {
        x = set_metadata_direct_child_xml(x.as_str(), ep, "Company", "", fields.company.as_str(), true);
    }
    x
}

// ---------------------------------------------------------------------------
// Calculation settings
// ---------------------------------------------------------------------------

/// The attributes of a `calcPr` element after an update: the calculation
/// mode set when given; full calculation on load (and forced full
/// calculation) set to `1` when asked for, removed when refused.
pub open spec fn calc_attrs_spec(a: Entries, mode: Option<Seq<char>>, full: Option<bool>) -> Entries {
    let a1 = match mode {
        Some(m) => sorted_insert(a, "calcMode"@, m),
        None => a,
    };
    match full {
        Some(true) => sorted_insert(sorted_insert(a1, "fullCalcOnLoad"@, "1"@), "forceFullCalc"@, "1"@),
        Some(false) => crate::attrmap::remove_key(crate::attrmap::remove_key(a1, "fullCalcOnLoad"@), "forceFullCalc"@),
        None => a1,
    }
}

pub open spec fn opt_str_view(o: Option<&str>) -> Option<Seq<char>> {
    match o {
        Some(s) => Some(s@),
        None => None,
    }
}

/// The workbook part after a calculation update: the first `calcPr` tag
/// rewritten with the updated attributes, or, when there is none, a new one
/// (with the mode, and full calculation when asked for) where the
/// workbook's order puts it.
pub open spec fn calc_update_spec(xml: Seq<char>, mode: Option<Seq<char>>, full: Option<bool>) -> Seq<char> {
    let found = match char_tokens_spec(xml) {
        None => -1,
        Some(p) => crate::styles::first_named_tag(p.0, "calcPr"@, 0),
    };
    if found != -1 {
        let t = char_tokens_spec(xml).unwrap().0[found];
        let attrs = calc_attrs_spec(map_from_pairs(tag_attrs(xml, t)), mode, full);
        let close = if t.kind == XmlTokenKind::Empty { "/>"@ } else { ">"@ };
        splice(xml, t.start as int, t.end as int, "<"@ + t.name@ + render_attrs_spec(attrs) + close)
    } else {
        let asked = if full == Some(true) { Some(true) } else { None };
        let piece = "<calcPr"@ + render_attrs_spec(calc_attrs_spec(Seq::empty(), mode, asked)) + "/>"@;
        match ordered_insert_spec(xml, ChildSchema::Workbook, crate::orders::workbook_child_order_spec("calcPr"@)) {
            Some(p) => splice(xml, p, p, piece),
            None => xml,
        }
    }
}

fn apply_calc_attrs(attrs: &mut AttrMap, calc_mode: Option<&str>, full_calc_on_load: Option<bool>)
    ensures
        final(attrs).view() == calc_attrs_spec(old(attrs).view(), opt_str_view(calc_mode), full_calc_on_load),
{
    if let Some(m) = calc_mode {
        attrs.insert(to_string("calcMode"), to_string(m));
    }
    if let Some(full) = full_calc_on_load {
        if full {
            attrs.insert(to_string("fullCalcOnLoad"), to_string("1"));
            attrs.insert(to_string("forceFullCalc"), to_string("1"));
        } else {
            attrs.remove("fullCalcOnLoad");
            attrs.remove("forceFullCalc");
        }
    }
    proof {
        reveal_strlit("1");
    }
}

/// `update_xlsx_workbook_calc_xml`: the workbook part with its calculation
/// mode and full-calculation-on-load setting updated.
pub fn update_xlsx_workbook_calc_xml(xml: String, calc_mode: Option<&str>, full_calc_on_load: Option<bool>) -> (r: String)
    ensures
        r@ == calc_update_spec(xml@, opt_str_view(calc_mode), full_calc_on_load),
{
    let toks: Vec<CharToken> = match char_tokens(xml.as_str()) {
        Ok(p) => p.0,
        Err(_) => Vec::new(),
    };
    let ghost found = match char_tokens_spec(xml@) {
        None => -1,
        Some(p) => crate::styles::first_named_tag(p.0, "calcPr"@, 0),
    };
    proof {
        if char_tokens_spec(xml@) is None {
            assert(toks@ =~= Seq::<CharToken>::empty());
        }
        reveal_strlit("calcPr");
    }
    let mut k: usize = 0;
    while k < toks.len() && !((toks[k].kind == XmlTokenKind::Start || toks[k].kind == XmlTokenKind::Empty)
        && str_eq(local_name(toks[k].name.as_str()).as_str(), "calcPr"))
        invariant
            0 <= k <= toks.len(),
            char_tokens_spec(xml@) is Some ==> toks@ == char_tokens_spec(xml@).unwrap().0,
            char_tokens_spec(xml@) is Some ==> tokens_well_formed(toks@, xml@.len() as int),
            char_tokens_spec(xml@) is None ==> toks@.len() == 0,
            found == match char_tokens_spec(xml@) {
                None => -1,
                Some(p) => crate::styles::first_named_tag(p.0, "calcPr"@, k as int),
            },
        decreases toks.len() - k,
    {
        k = k + 1;
    }
    if k < toks.len() {
        let t = &toks[k];
        let sv = str_chars(xml.as_str());
        let pairs = crate::sheetxml::token_attrs(&sv, t);
        let mut attrs = AttrMap::from_pairs(&pairs);
        apply_calc_attrs(&mut attrs, calc_mode, full_calc_on_load);
        let rendered = crate::elements::render_xml_attrs(&attrs.entries);
        let close = if t.kind == XmlTokenKind::Empty { "/>" } else { ">" };
        let piece = concat4("<", t.name.as_str(), rendered.as_str(), close);
        return crate::xml::replace_xml_span(xml.as_str(), t.start, t.end, piece.as_str());
    }
    let mut attrs = AttrMap::new();
    let asked: Option<bool> = match full_calc_on_load {
        Some(true) => Some(true),
        _ => None,
    };
    apply_calc_attrs(&mut attrs, calc_mode, asked);
    let rendered = crate::elements::render_xml_attrs(&attrs.entries);
    let piece = concat3("<calcPr", rendered.as_str(), "/>");
    match metadata_ordered_insert_position(xml.as_str(), crate::orders::workbook_child_order("calcPr"), ChildSchema::Workbook) {
        Some(p) => crate::xml::insert_text(xml.as_str(), p, piece.as_str()),
        None => xml,
    }
}

// ---------------------------------------------------------------------------
// Planning an update
// ---------------------------------------------------------------------------

/// What a metadata update changes: the new property values and calculation
/// settings, the names of the changed settings in flag order, and each one's
/// previous value.
#[derive(Debug)]
pub struct XlsxWorkbookMetadataUpdatePlan {
    pub updated: XlsxWorkbookMetadataFields,
    pub calc_mode: String,
    pub full_calc_on_load: bool,
    pub force_full_calc: bool,
    pub updated_fields: Vec<String>,
    pub previous_values: Vec<(String, String)>,
}

pub open spec fn updated_field(o: Option<&str>, cur: Seq<char>) -> Seq<char> {
    match o {
        Some(v) => v@,
        None => cur,
    }
}

pub open spec fn opt_name(given: bool, name: Seq<char>) -> Seq<Seq<char>> {
    if given {
        seq![name]
    } else {
        Seq::empty()
    }
}

pub open spec fn opt_prev(given: bool, name: Seq<char>, prev: Seq<char>) -> Seq<(Seq<char>, Seq<char>)> {
    if given {
        seq![(name, prev)]
    } else {
        Seq::empty()
    }
}

/// The names of the settings an update changes, in flag order.
pub open spec fn updated_names_spec(o: XlsxWorkbookMetadataUpdateOptions) -> Seq<Seq<char>> {
    opt_name(o.title is Some, "title"@) + opt_name(o.subject is Some, "subject"@) + opt_name(o.creator is Some, "creator"@)
        + opt_name(o.description is Some, "description"@) + opt_name(o.keywords is Some, "keywords"@) + opt_name(
        o.last_modified_by is Some,
        "lastModifiedBy"@,
    ) + opt_name(o.category is Some, "category"@) + opt_name(o.company is Some, "company"@) + opt_name(
        o.manager is Some,
        "manager"@,
    ) + opt_name(o.calc_mode is Some, "calcMode"@) + opt_name(o.full_calc_on_load is Some, "fullCalcOnLoad"@)
}

pub open spec fn bool_text(b: bool) -> Seq<char> {
    if b {
        "true"@
    } else {
        "false"@
    }
}

/// The previous value of each changed setting, in flag order.
pub open spec fn previous_values_spec(o: XlsxWorkbookMetadataUpdateOptions, f: XlsxWorkbookMetadataFields, calc_mode: Seq<char>, full: bool) -> Seq<(Seq<char>, Seq<char>)> {
    opt_prev(o.title is Some, "title"@, f.title@) + opt_prev(o.subject is Some, "subject"@, f.subject@) + opt_prev(
        o.creator is Some,
        "creator"@,
        f.creator@,
    ) + opt_prev(o.description is Some, "description"@, f.description@) + opt_prev(o.keywords is Some, "keywords"@, f.keywords@)
        + opt_prev(o.last_modified_by is Some, "lastModifiedBy"@, f.last_modified_by@) + opt_prev(
        o.category is Some,
        "category"@,
        f.category@,
    ) + opt_prev(o.company is Some, "company"@, f.company@) + opt_prev(o.manager is Some, "manager"@, f.manager@)
        + opt_prev(o.calc_mode is Some, "calcMode"@, calc_mode) + opt_prev(o.full_calc_on_load is Some, "fullCalcOnLoad"@, bool_text(full))
}

/// The calculation modes a workbook can be given.
pub open spec fn calc_mode_ok(m: Seq<char>) -> bool {
    m == "auto"@ || m == "manual"@ || m == "autoNoTable"@
}

/// Whether a metadata update is refused once the current values are known:
/// an expected value differs, or the calculation mode is not one a workbook
/// takes.
pub open spec fn metadata_update_refused(o: XlsxWorkbookMetadataUpdateOptions, f: XlsxWorkbookMetadataFields) -> bool {
    !metadata_guards_hold(o, f) || (o.calc_mode is Some && !calc_mode_ok(o.calc_mode.unwrap()@))
}

fn record_update(
    name: &str,
    value: Option<&str>,
    previous: &str,
    target: &mut String,
    names: &mut Vec<String>,
    prevs: &mut Vec<(String, String)>,
)
    ensures
        final(target)@ == updated_field(value, old(target)@),
        final(names).deep_view() == old(names).deep_view() + opt_name(value is Some, name@),
        final(prevs).deep_view() == old(prevs).deep_view() + opt_prev(value is Some, name@, previous@),
{
    let ghost n0 = names.deep_view();
    let ghost p0 = prevs.deep_view();
    apply_xlsx_metadata_string_update(name, value, previous, target, names, prevs);
    proof {
        if value is Some {
            assert(names.deep_view().drop_last() =~= n0);
            assert(prevs.deep_view().drop_last() =~= p0);
            assert(names.deep_view() =~= n0 + opt_name(value is Some, name@));
            assert(prevs.deep_view() =~= p0 + opt_prev(value is Some, name@, previous@));
        } else {
            assert(names.deep_view() =~= n0 + opt_name(value is Some, name@));
            assert(prevs.deep_view() =~= p0 + opt_prev(value is Some, name@, previous@));
        }
    }
}

fn clone_fields(f: &XlsxWorkbookMetadataFields) -> (r: XlsxWorkbookMetadataFields)
    ensures
        r == *f,
{
    XlsxWorkbookMetadataFields {
        title: f.title.clone(),
        subject: f.subject.clone(),
        creator: f.creator.clone(),
        keywords: f.keywords.clone(),
        description: f.description.clone(),
        last_modified_by: f.last_modified_by.clone(),
        category: f.category.clone(),
        company: f.company.clone(),
        manager: f.manager.clone(),
    }
}

/// What a metadata update does once the current properties and calculation
/// settings are read: the guards are checked, each given property takes its
/// new value, and the calculation mode and full calculation on load (which
/// also forces full calculation) are set when given.
#[verifier::rlimit(40)]
pub fn plan_xlsx_workbook_metadata_update(
    options: &XlsxWorkbookMetadataUpdateOptions,
    current: &XlsxWorkbookMetadataFields,
    current_calc_mode: &str,
    current_full_calc_on_load: bool,
    current_force_full_calc: bool,
) -> (r: CliResult<XlsxWorkbookMetadataUpdatePlan>)
    ensures
        r is Err <==> metadata_update_refused(*options, *current),
        r is Err ==> r->Err_0.kind == ErrorKind::InvalidArgs,
        r is Ok ==> {
            let p = r->Ok_0;
            &&& p.updated.title@ == updated_field(options.title, current.title@)
            &&& p.updated.subject@ == updated_field(options.subject, current.subject@)
            &&& p.updated.creator@ == updated_field(options.creator, current.creator@)
            &&& p.updated.description@ == updated_field(options.description, current.description@)
            &&& p.updated.keywords@ == updated_field(options.keywords, current.keywords@)
            &&& p.updated.last_modified_by@ == updated_field(options.last_modified_by, current.last_modified_by@)
            &&& p.updated.category@ == updated_field(options.category, current.category@)
            &&& p.updated.company@ == updated_field(options.company, current.company@)
            &&& p.updated.manager@ == updated_field(options.manager, current.manager@)
            &&& p.calc_mode@ == updated_field(options.calc_mode, current_calc_mode@)
            &&& p.full_calc_on_load == match options.full_calc_on_load {
                Some(b) => b,
                None => current_full_calc_on_load,
            }
            &&& p.force_full_calc == match options.full_calc_on_load {
                Some(b) => b,
                None => current_force_full_calc,
            }
            &&& p.updated_fields.deep_view() == updated_names_spec(*options)
            &&& p.previous_values.deep_view() == previous_values_spec(*options, *current, current_calc_mode@, current_full_calc_on_load)
        },
{
    check_xlsx_workbook_metadata_guards(options, current)?;
    let mut updated = clone_fields(current);
    let mut names: Vec<String> = Vec::new();
    let mut prevs: Vec<(String, String)> = Vec::new();
    proof {
        assert(names.deep_view() =~= Seq::<Seq<char>>::empty());
        assert(prevs.deep_view() =~= Seq::<(Seq<char>, Seq<char>)>::empty());
    }
    record_update("title", options.title, current.title.as_str(), &mut updated.title, &mut names, &mut prevs);
    record_update("subject", options.subject, current.subject.as_str(), &mut updated.subject, &mut names, &mut prevs);
    record_update("creator", options.creator, current.creator.as_str(), &mut updated.creator, &mut names, &mut prevs);
    record_update("description", options.description, current.description.as_str(), &mut updated.description, &mut names, &mut prevs);
    record_update("keywords", options.keywords, current.keywords.as_str(), &mut updated.keywords, &mut names, &mut prevs);
    record_update(
        "lastModifiedBy",
        options.last_modified_by,
        current.last_modified_by.as_str(),
        &mut updated.last_modified_by,
        &mut names,
        &mut prevs,
    );
    record_update("category", options.category, current.category.as_str(), &mut updated.category, &mut names, &mut prevs);
    record_update("company", options.company, current.company.as_str(), &mut updated.company, &mut names, &mut prevs);
    record_update("manager", options.manager, current.manager.as_str(), &mut updated.manager, &mut names, &mut prevs);
    let mut calc_mode = to_string(current_calc_mode);
    if let Some(m) = options.calc_mode {
        if !(str_eq(m, "auto") || str_eq(m, "manual") || str_eq(m, "autoNoTable")) {
            let q = crate::text::debug_quoted(m);
            let msg = concat3(
                "failed to update workbook metadata: invalid calcMode ",
                q.as_str(),
                " (must be auto, manual, or autoNoTable)",
            );
            return Err(CliError::invalid_args(msg));
        }
    }
    record_update("calcMode", options.calc_mode, current_calc_mode, &mut calc_mode, &mut names, &mut prevs);
    let mut full = current_full_calc_on_load;
    let mut force = current_force_full_calc;
    let ghost n0 = names.deep_view();
    let ghost p0 = prevs.deep_view();
    if let Some(b) = options.full_calc_on_load {
        full = b;
        force = b;
        names.push(to_string("fullCalcOnLoad"));
        let prev = if current_full_calc_on_load { to_string("true") } else { to_string("false") };
        prevs.push((to_string("fullCalcOnLoad"), prev));
    }
    proof {
        assert(names.deep_view() =~= n0 + opt_name(options.full_calc_on_load is Some, "fullCalcOnLoad"@));
        assert(prevs.deep_view() =~= p0 + opt_prev(options.full_calc_on_load is Some, "fullCalcOnLoad"@, bool_text(current_full_calc_on_load)));
        assert(updated_names_spec(*options) =~= n0 + opt_name(options.full_calc_on_load is Some, "fullCalcOnLoad"@));
    }
    Ok(XlsxWorkbookMetadataUpdatePlan {
        updated,
        calc_mode,
        full_calc_on_load: full,
        force_full_calc: force,
        updated_fields: names,
        previous_values: prevs,
    })
}

/// Which parts an update writes: the core properties when a core property
/// is given, the extended properties when company or manager is, and the
/// workbook when a calculation setting is.
pub fn xlsx_metadata_parts_to_write(options: &XlsxWorkbookMetadataUpdateOptions) -> (r: (bool, bool, bool))
    ensures
        r.0 == (options.title is Some || options.subject is Some || options.creator is Some || options.keywords is Some
            || options.description is Some || options.last_modified_by is Some || options.category is Some),
        r.1 == (options.company is Some || options.manager is Some),
        r.2 == (options.calc_mode is Some || options.full_calc_on_load is Some),
{
    let core = options.title.is_some() || options.subject.is_some() || options.creator.is_some() || options.keywords.is_some()
        || options.description.is_some() || options.last_modified_by.is_some() || options.category.is_some();
    let app = options.company.is_some() || options.manager.is_some();
    let calc = options.calc_mode.is_some() || options.full_calc_on_load.is_some();
    (core, app, calc)
}

/// The core properties part an update writes: the existing part updated, or
/// a fresh one from the fields; and whether it is new.
pub fn xlsx_core_props_part_xml(existing: Option<&str>, options: &XlsxWorkbookMetadataUpdateOptions, fields: &XlsxWorkbookMetadataFields) -> (r: (String, bool))
    ensures
        r.1 == (existing is None),
        r.0@ == match existing {
            Some(x) => core_update_spec(x@, *options, *fields),
            None => core_props_spec(*fields),
        },
{
    match existing {
        Some(x) => (update_xlsx_core_props_xml(x, options, fields), false),
        None => (render_xlsx_core_props_xml(fields), true),
    }
}

/// The extended properties part an update writes, and whether it is new.
pub fn xlsx_app_props_part_xml(existing: Option<&str>, options: &XlsxWorkbookMetadataUpdateOptions, fields: &XlsxWorkbookMetadataFields) -> (r: (String, bool))
    ensures
        r.1 == (existing is None),
        r.0@ == match existing {
            Some(x) => app_update_spec(x@, *options, *fields),
            None => app_props_spec(*fields),
        },
{
    match existing {
        Some(x) => (update_xlsx_app_props_xml(x, options, fields), false),
        None => (render_xlsx_app_props_xml(fields), true),
    }
}

} // verus!
