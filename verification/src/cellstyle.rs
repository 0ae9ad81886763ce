//! Cell styles of a range: the font, fill, border and alignment a style
//! command asks for, a font record built on another, and a cell format
//! record combining them.
use vstd::prelude::*;
use crate::attrmap::{sorted_insert, AttrMap, Entries};
use crate::error::{CliError, CliResult, ErrorKind};
use crate::style::{
    append_child_spec, append_collection_child, collection_entries, collection_spec, color_spec, direct_style_children,
    find_sig, first_sig, new_element, normalize_xlsx_style_color, opt_string_view, plan_fits, plan_view, records_spec,
    render_children_spec, render_style_children, render_style_element, render_style_spec, set_child_spec,
    set_empty_child_spec, set_empty_style_child, set_style_child, set_val_style_child, style_view, styles_view,
    val_child, ChildOrder, RecordPlan, StyleElement, StyleView,
};
use crate::text::{decimal, to_string, u32_to_string};
use crate::style::{
    aligned_inner, apply_xlsx_style_alignment, attr_u32_spec, border_fits, border_spec, default_xf_spec,
    default_xlsx_xf_entry, ensure_xlsx_style_border_checked, ensure_xlsx_style_fill_checked, fill_fits, fill_spec,
    style_attr_u32, AlignmentStyleSpec, BorderStyleSpec, FillStyleSpec,
};
use crate::cellformat::{default_attr, default_attr_exec};
use crate::styles::{content_span_ok, ensure_defaults_spec, set_count_spec};
use crate::style::{border_style_spec, horizontal_spec, valid_xlsx_border_style, valid_xlsx_horizontal_alignment, valid_xlsx_vertical_alignment, vertical_spec};
use crate::text::{concat2, concat3, str_chars};

verus! {

/// The font a style command asks for; the size is the point size as written.
#[derive(Debug)]
pub struct FontStyleSpec {
    pub name: Option<String>,
    pub size: Option<String>,
    pub bold: Option<bool>,
    pub italic: Option<bool>,
    pub underline: Option<bool>,
    pub color: Option<String>,
}

/// A font's children after the asked changes: bold, italic and underline
/// turned on or off, then size, color and name set, in schema order.
pub open spec fn font_children_spec(v: Seq<StyleView>, f: FontStyleSpec, rgb: Option<Seq<char>>) -> Seq<StyleView> {
    let c1 = match f.bold {
        Some(b) => set_empty_child_spec(v, "b"@, b, ChildOrder::Font),
        None => v,
    };
    let c2 = match f.italic {
        Some(b) => set_empty_child_spec(c1, "i"@, b, ChildOrder::Font),
        None => c1,
    };
    let c3 = match f.underline {
        Some(b) => set_empty_child_spec(c2, "u"@, b, ChildOrder::Font),
        None => c2,
    };
    let c4 = match f.size {
        Some(s) => set_child_spec(c3, val_child("sz"@, s@), ChildOrder::Font),
        None => c3,
    };
    let c5 = match rgb {
        Some(c) => set_child_spec(c4, ("color"@, sorted_insert(Seq::empty(), "rgb"@, c), Seq::empty()), ChildOrder::Font),
        None => c4,
    };
    match f.name {
        Some(n) => set_child_spec(c5, val_child("name"@, n@), ChildOrder::Font),
        None => c5,
    }
}

/// The plan for a font built on the font at `base_id` (a bare font when out
/// of range): the index of an equal font, or the styles part with the font
/// appended and the index it gets.
pub open spec fn font_plan_spec(xml: Seq<char>, base_id: u32, f: FontStyleSpec) -> Result<Result<u32, (Seq<char>, u32)>, ErrorKind> {
    match collection_spec(xml, "fonts"@, "font"@) {
        Err(_) => Err(ErrorKind::Unexpected),
        Ok(fonts) => {
            let base = if base_id < fonts.len() { fonts[base_id as int] } else { ("font"@, Seq::empty(), Seq::empty()) };
            match records_spec(base.2, None) {
                Err(_) => Err(ErrorKind::Unexpected),
                Ok(children) => {
                    let rgb = match f.color {
                        Some(c) => color_spec(c@),
                        None => None,
                    };
                    if f.color is Some && rgb is None {
                        Err(ErrorKind::InvalidArgs)
                    } else {
                        let sig = render_style_spec("font"@, ("font"@, base.1, render_children_spec(font_children_spec(children, f, rgb))));
                        let k = first_sig(fonts, "font"@, sig, 0);
                        if k != -1 {
                            Ok(Ok(k as u32))
                        } else {
                            match append_child_spec(xml, "fonts"@, sig) {
                                Err(_) => Err(ErrorKind::Unexpected),
                                Ok(x2) => Ok(Err((x2, fonts.len() as u32))),
                            }
                        }
                    }
                },
            }
        },
    }
}

fn plan_font(styles_xml: &str, base_font_id: u32, spec: &FontStyleSpec) -> (r: CliResult<RecordPlan>)
    ensures
        r is Ok <==> font_plan_spec(styles_xml@, base_font_id, *spec) is Ok,
        r is Ok ==> plan_view(r->Ok_0) == font_plan_spec(styles_xml@, base_font_id, *spec)->Ok_0,
        r is Err ==> font_plan_spec(styles_xml@, base_font_id, *spec) == Err::<Result<u32, (Seq<char>, u32)>, ErrorKind>(r->Err_0.kind),
{
    let fonts = collection_entries(styles_xml, "fonts", "font")?;
    let ghost fv = styles_view(fonts@);
    proof {
        reveal_strlit("");
    }
    let base = if (base_font_id as usize) < fonts.len() {
        proof {
            assert(fv[base_font_id as int] == style_view(fonts@[base_font_id as int]));
        }
        fonts[base_font_id as usize].clone_element()
    } else {
        new_element("font", AttrMap::new(), "")
    };
    proof {
        assert(style_view(base) == (if base_font_id < fv.len() {
            fv[base_font_id as int]
        } else {
            ("font"@, Seq::<(Seq<char>, Seq<char>)>::empty(), Seq::<char>::empty())
        }));
    }
    let mut children = direct_style_children(base.inner_xml.as_str())?;
    let ghost ch0 = styles_view(children@);
    let ghost c1 = match spec.bold {
        Some(b) => set_empty_child_spec(ch0, "b"@, b, ChildOrder::Font),
        None => ch0,
    };
    if let Some(b) = spec.bold {
        set_empty_style_child(&mut children, "b", b, ChildOrder::Font);
    }
    assert(styles_view(children@) == c1);
    let ghost c2 = match spec.italic {
        Some(b) => set_empty_child_spec(c1, "i"@, b, ChildOrder::Font),
        None => c1,
    };
    if let Some(b) = spec.italic {
        set_empty_style_child(&mut children, "i", b, ChildOrder::Font);
    }
    assert(styles_view(children@) == c2);
    let ghost c3 = match spec.underline {
        Some(b) => set_empty_child_spec(c2, "u"@, b, ChildOrder::Font),
        None => c2,
    };
    if let Some(b) = spec.underline {
        set_empty_style_child(&mut children, "u", b, ChildOrder::Font);
    }
    assert(styles_view(children@) == c3);
    let ghost c4 = match opt_string_view(spec.size) {
        Some(sz) => set_child_spec(c3, val_child("sz"@, sz), ChildOrder::Font),
        None => c3,
    };
    if let Some(sz) = &spec.size {
        set_val_style_child(&mut children, "sz", sz.as_str(), ChildOrder::Font);
    }
    assert(styles_view(children@) == c4);
    let rgb: Option<String> = match &spec.color {
        Some(c) => Some(normalize_xlsx_style_color(c.as_str())?),
        None => None,
    };
    let ghost c5 = match opt_string_view(rgb) {
        Some(c) => set_child_spec(c4, ("color"@, sorted_insert(Seq::empty(), "rgb"@, c), Seq::empty()), ChildOrder::Font),
        None => c4,
    };
    if let Some(c) = &rgb {
        let mut attrs = AttrMap::new();
        attrs.insert(to_string("rgb"), c.clone());
        let e = new_element("color", attrs, "");
        assert(style_view(e) == ("color"@, sorted_insert(Seq::empty(), "rgb"@, c@), Seq::<char>::empty()));
        set_style_child(&mut children, e, ChildOrder::Font);
    }
    assert(styles_view(children@) == c5);
    if let Some(n) = &spec.name {
        set_val_style_child(&mut children, "name", n.as_str(), ChildOrder::Font);
    }
    proof {
        assert(styles_view(children@) == font_children_spec(ch0, *spec, opt_string_view(rgb)));
    }
    let inner = render_style_children(&children);
    let candidate = StyleElement { name: to_string("font"), attrs: base.attrs, inner_xml: inner };
    let sig = render_style_element("font", &candidate);
    match find_sig(&fonts, "font", sig.as_str()) {
        Some(k) => Ok(RecordPlan::Found(k as u32)),
        None => {
            let x2 = append_collection_child(to_string(styles_xml), "fonts", sig.as_str())?;
            Ok(RecordPlan::Appended(x2, fonts.len() as u32))
        },
    }
}

/// What ensuring a font does: the styles text and the font's index.
pub open spec fn font_spec(xml: Seq<char>, base_id: u32, f: FontStyleSpec) -> Result<(Seq<char>, u32), ErrorKind> {
    match font_plan_spec(xml, base_id, f) {
        Err(e) => Err(e),
        Ok(Ok(k)) => Ok((xml, k)),
        Ok(Err(p)) => Ok((crate::styles::set_count_spec(p.0, "fonts"@, "font"@), p.1)),
    }
}

/// Whether ensuring the font reads no inverted content span (the running
/// program panics on one).
pub open spec fn font_fits(xml: Seq<char>, base_id: u32, f: FontStyleSpec) -> bool {
    match font_plan_spec(xml, base_id, f) {
        Ok(Err(p)) => crate::styles::content_span_ok(p.0, "fonts"@),
        _ => true,
    }
}

/// `ensure_xlsx_style_font`: the index of a font that is the base font with
/// the asked changes, added when the part has none equal.
pub fn ensure_xlsx_style_font(styles_xml: String, base_font_id: u32, spec: &FontStyleSpec) -> (r: CliResult<(String, u32)>)
    requires
        font_fits(styles_xml@, base_font_id, *spec),
    ensures
        r is Ok <==> font_spec(styles_xml@, base_font_id, *spec) is Ok,
        r is Ok ==> (r->Ok_0.0@, r->Ok_0.1) == font_spec(styles_xml@, base_font_id, *spec)->Ok_0,
        r is Err ==> font_spec(styles_xml@, base_font_id, *spec) == Err::<(Seq<char>, u32), ErrorKind>(r->Err_0.kind),
{
    match plan_font(styles_xml.as_str(), base_font_id, spec)? {
        RecordPlan::Found(k) => Ok((styles_xml, k)),
        RecordPlan::Appended(x2, n) => Ok((crate::styles::set_collection_count(x2, "fonts", "font"), n)),
    }
}

/// The font's styles text and index, or `None` where the running program
/// would panic on an inverted content span.
pub fn ensure_xlsx_style_font_checked(styles_xml: String, base_font_id: u32, spec: &FontStyleSpec) -> (r: Option<CliResult<(String, u32)>>)
    ensures
        r is Some <==> font_fits(styles_xml@, base_font_id, *spec),
        r is Some ==> (r.unwrap() is Ok <==> font_spec(styles_xml@, base_font_id, *spec) is Ok),
        r is Some && r.unwrap() is Ok ==> (r.unwrap()->Ok_0.0@, r.unwrap()->Ok_0.1) == font_spec(styles_xml@, base_font_id, *spec)->Ok_0,
        r is Some && r.unwrap() is Err ==> font_spec(styles_xml@, base_font_id, *spec) == Err::<(Seq<char>, u32), ErrorKind>(r.unwrap()->Err_0.kind),
{
    let fits = match plan_font(styles_xml.as_str(), base_font_id, spec) {
        Ok(p) => plan_fits(&p, "fonts"),
        Err(_) => true,
    };
    if !fits {
        return None;
    }
    Some(ensure_xlsx_style_font(styles_xml, base_font_id, spec))
}

// ---------------------------------------------------------------------------
// A cell format with a style
// ---------------------------------------------------------------------------

/// The style a command asks for: any of a font, a fill, a border and an
/// alignment.
#[derive(Debug)]
pub struct CellStyleSpec {
    pub font: Option<FontStyleSpec>,
    pub fill: Option<FillStyleSpec>,
    pub border: Option<BorderStyleSpec>,
    pub alignment: Option<AlignmentStyleSpec>,
}

/// A cell format's attributes with the number format, font, fill, border
/// and parent format defaulting to `0`.
pub open spec fn xf_defaults(a: Entries) -> Entries {
    default_attr(default_attr(default_attr(default_attr(default_attr(a, "numFmtId"@), "fontId"@), "fillId"@), "borderId"@), "xfId"@)
}

/// The font step: the font built on the format's font, and the format
/// pointing at it; `None` where the running program panics.
pub open spec fn font_stage(xml: Seq<char>, a: Entries, font: Option<FontStyleSpec>) -> Option<Result<(Seq<char>, Entries), ErrorKind>> {
    match font {
        None => Some(Ok((xml, a))),
        Some(f) => {
            let base = attr_u32_spec(a, "fontId"@);
            if !font_fits(xml, base, f) {
                None
            } else {
                match font_spec(xml, base, f) {
                    Err(e) => Some(Err(e)),
                    Ok(r) => Some(Ok((r.0, sorted_insert(sorted_insert(a, "fontId"@, decimal(r.1 as nat)), "applyFont"@, "1"@)))),
                }
            }
        },
    }
}

/// The fill step.
pub open spec fn fill_stage(xml: Seq<char>, a: Entries, fill: Option<FillStyleSpec>) -> Option<Result<(Seq<char>, Entries), ErrorKind>> {
    match fill {
        None => Some(Ok((xml, a))),
        Some(f) => if !fill_fits(xml, f.color@) {
            None
        } else {
            match fill_spec(xml, f.color@) {
                Err(e) => Some(Err(e)),
                Ok(r) => Some(Ok((r.0, sorted_insert(sorted_insert(a, "fillId"@, decimal(r.1 as nat)), "applyFill"@, "1"@)))),
            }
        },
    }
}

/// The border step: the border built on the format's border.
pub open spec fn border_stage(xml: Seq<char>, a: Entries, border: Option<BorderStyleSpec>) -> Option<Result<(Seq<char>, Entries), ErrorKind>> {
    match border {
        None => Some(Ok((xml, a))),
        Some(b) => {
            let base = attr_u32_spec(a, "borderId"@);
            if !border_fits(xml, base, b) {
                None
            } else {
                match border_spec(xml, base, b) {
                    Err(e) => Some(Err(e)),
                    Ok(r) => Some(Ok((r.0, sorted_insert(sorted_insert(a, "borderId"@, decimal(r.1 as nat)), "applyBorder"@, "1"@)))),
                }
            }
        },
    }
}

/// The last step: the alignment applied, then the index of an equal format
/// among the part's formats, or the format appended to `cellXfs`.
pub open spec fn finish_style_spec(
    xml: Seq<char>,
    xfs: Seq<StyleView>,
    a: Entries,
    inner: Seq<char>,
    al: Option<AlignmentStyleSpec>,
) -> Option<Result<(Seq<char>, u32, bool), ErrorKind>> {
    let a2 = match al {
        Some(_) => sorted_insert(a, "applyAlignment"@, "1"@),
        None => a,
    };
    let inner2 = match al {
        Some(x) => aligned_inner(inner, opt_string_view(x.horizontal), opt_string_view(x.vertical), x.wrap_text),
        None => inner,
    };
    let sig = render_style_spec("xf"@, ("xf"@, a2, inner2));
    let k = first_sig(xfs, "xf"@, sig, 0);
    if k != -1 {
        Some(Ok((xml, k as u32, false)))
    } else {
        match append_child_spec(xml, "cellXfs"@, sig) {
            Err(_) => Some(Err(ErrorKind::Unexpected)),
            Ok(x2) => if content_span_ok(x2, "cellXfs"@) {
                Some(Ok((set_count_spec(x2, "cellXfs"@, "xf"@), xfs.len() as u32, true)))
            } else {
                None
            },
        }
    }
}

/// What `apply_xlsx_style_to_styles_xml` gives: the styles part, the index
/// of the cell format that is the format at `base_style` (the first when
/// out of range, the default record when there is none) with the style
/// applied, and whether it was added; `None` where the running program
/// panics on an inverted content span.
pub open spec fn apply_style_spec(xml0: Seq<char>, base_style: u32, spec: CellStyleSpec) -> Option<Result<(Seq<char>, u32, bool), ErrorKind>> {
    let xml = ensure_defaults_spec(xml0);
    match collection_spec(xml, "cellXfs"@, "xf"@) {
        Err(_) => Some(Err(ErrorKind::Unexpected)),
        Ok(xfs) => {
            let bi: u32 = if base_style < xfs.len() { base_style } else { 0 };
            let base = if bi < xfs.len() { xfs[bi as int] } else { default_xf_spec() };
            match font_stage(xml, xf_defaults(base.1), spec.font) {
                None => None,
                Some(Err(e)) => Some(Err(e)),
                Some(Ok(s1)) => match fill_stage(s1.0, s1.1, spec.fill) {
                    None => None,
                    Some(Err(e)) => Some(Err(e)),
                    Some(Ok(s2)) => match border_stage(s2.0, s2.1, spec.border) {
                        None => None,
                        Some(Err(e)) => Some(Err(e)),
                        Some(Ok(s3)) => finish_style_spec(s3.0, xfs, s3.1, base.2, spec.alignment),
                    },
                },
            }
        },
    }
}

fn set_id_attrs(attrs: &mut AttrMap, id_key: &str, id: u32, apply_key: &str)
    ensures
        final(attrs).view() == sorted_insert(sorted_insert(old(attrs).view(), id_key@, decimal(id as nat)), apply_key@, "1"@),
{
    attrs.insert(to_string(id_key), u32_to_string(id));
    attrs.insert(to_string(apply_key), to_string("1"));
    proof {
        reveal_strlit("1");
    }
}

fn font_stage_exec(xml: String, attrs: &mut AttrMap, font: &Option<FontStyleSpec>) -> (r: Option<CliResult<String>>)
    ensures
        match font_stage(xml@, old(attrs).view(), *font) {
            None => r is None,
            Some(Err(k)) => r is Some && r->Some_0 is Err && r->Some_0->Err_0.kind == k,
            Some(Ok(v)) => r is Some && r->Some_0 is Ok && r->Some_0->Ok_0@ == v.0 && final(attrs).view() == v.1,
        },
{
    match font {
        None => Some(Ok(xml)),
        Some(f) => {
            let base = match attrs.get("fontId") {
                Some(v) => match crate::text::parse_u32(v.as_str()) {
                    Some(n) => n,
                    None => 0,
                },
                None => 0,
            };
            match ensure_xlsx_style_font_checked(xml, base, f) {
                None => None,
                Some(Err(e)) => Some(Err(e)),
                Some(Ok((x, id))) => {
                    set_id_attrs(attrs, "fontId", id, "applyFont");
                    Some(Ok(x))
                },
            }
        },
    }
}

fn fill_stage_exec(xml: String, attrs: &mut AttrMap, fill: &Option<FillStyleSpec>) -> (r: Option<CliResult<String>>)
    ensures
        match fill_stage(xml@, old(attrs).view(), *fill) {
            None => r is None,
            Some(Err(k)) => r is Some && r->Some_0 is Err && r->Some_0->Err_0.kind == k,
            Some(Ok(v)) => r is Some && r->Some_0 is Ok && r->Some_0->Ok_0@ == v.0 && final(attrs).view() == v.1,
        },
{
    match fill {
        None => Some(Ok(xml)),
        Some(f) => match ensure_xlsx_style_fill_checked(xml, f) {
            None => None,
            Some(Err(e)) => Some(Err(e)),
            Some(Ok((x, id))) => {
                set_id_attrs(attrs, "fillId", id, "applyFill");
                Some(Ok(x))
            },
        },
    }
}

fn border_stage_exec(xml: String, attrs: &mut AttrMap, border: &Option<BorderStyleSpec>) -> (r: Option<CliResult<String>>)
    ensures
        match border_stage(xml@, old(attrs).view(), *border) {
            None => r is None,
            Some(Err(k)) => r is Some && r->Some_0 is Err && r->Some_0->Err_0.kind == k,
            Some(Ok(v)) => r is Some && r->Some_0 is Ok && r->Some_0->Ok_0@ == v.0 && final(attrs).view() == v.1,
        },
{
    match border {
        None => Some(Ok(xml)),
        Some(b) => {
            let base = match attrs.get("borderId") {
                Some(v) => match crate::text::parse_u32(v.as_str()) {
                    Some(n) => n,
                    None => 0,
                },
                None => 0,
            };
            match ensure_xlsx_style_border_checked(xml, base, b) {
                None => None,
                Some(Err(e)) => Some(Err(e)),
                Some(Ok((x, id))) => {
                    set_id_attrs(attrs, "borderId", id, "applyBorder");
                    Some(Ok(x))
                },
            }
        },
    }
}

fn finish_style_exec(xml: String, xfs: &Vec<StyleElement>, candidate: StyleElement, al: &Option<AlignmentStyleSpec>) -> (r: Option<
    CliResult<(String, u32, bool)>,
>)
    ensures
        match finish_style_spec(xml@, styles_view(xfs@), candidate.attrs.view(), candidate.inner_xml@, *al) {
            None => r is None,
            Some(Err(k)) => r is Some && r->Some_0 is Err && r->Some_0->Err_0.kind == k,
            Some(Ok(v)) => r is Some && r->Some_0 is Ok && (r->Some_0->Ok_0.0@, r->Some_0->Ok_0.1, r->Some_0->Ok_0.2) == v,
        },
{
    let mut cand = candidate;
    if let Some(a) = al {
        apply_xlsx_style_alignment(&mut cand, a);
        cand.attrs.insert(to_string("applyAlignment"), to_string("1"));
        proof {
            reveal_strlit("1");
        }
    }
    let sig = render_style_element("xf", &cand);
    match find_sig(xfs, "xf", sig.as_str()) {
        Some(k) => Some(Ok((xml, k as u32, false))),
        None => match append_collection_child(xml, "cellXfs", sig.as_str()) {
            Err(e) => Some(Err(e)),
            Ok(x2) => {
                let fits = match crate::styles::element_span_by_local_name(x2.as_str(), "cellXfs") {
                    None => true,
                    Some(sp) => sp.open_end <= sp.close_start,
                };
                if !fits {
                    return None;
                }
                Some(Ok((crate::styles::set_collection_count(x2, "cellXfs", "xf"), xfs.len() as u32, true)))
            },
        },
    }
}

/// `apply_xlsx_style_to_styles_xml`, or `None` where the running program
/// would panic on an inverted content span.
pub fn apply_xlsx_style_to_styles_xml_checked(styles_xml: String, base_style_index: u32, spec: &CellStyleSpec) -> (r: Option<
    CliResult<(String, u32, bool)>,
>)
    ensures
        match apply_style_spec(styles_xml@, base_style_index, *spec) {
            None => r is None,
            Some(Err(k)) => r is Some && r->Some_0 is Err && r->Some_0->Err_0.kind == k,
            Some(Ok(v)) => r is Some && r->Some_0 is Ok && (r->Some_0->Ok_0.0@, r->Some_0->Ok_0.1, r->Some_0->Ok_0.2) == v,
        },
{
    let xml = crate::styles::ensure_xlsx_style_defaults(styles_xml);
    let xfs = match collection_entries(xml.as_str(), "cellXfs", "xf") {
        Ok(v) => v,
        Err(e) => {
            return Some(Err(e));
        },
    };
    let ghost xv = styles_view(xfs@);
    let bi: u32 = if (base_style_index as usize) < xfs.len() { base_style_index } else { 0 };
    let base = if (bi as usize) < xfs.len() {
        proof {
            assert(xv[bi as int] == style_view(xfs@[bi as int]));
        }
        xfs[bi as usize].clone_element()
    } else {
        default_xlsx_xf_entry()
    };
    let mut attrs = base.attrs;
    default_attr_exec(&mut attrs, "numFmtId");
    default_attr_exec(&mut attrs, "fontId");
    default_attr_exec(&mut attrs, "fillId");
    default_attr_exec(&mut attrs, "borderId");
    default_attr_exec(&mut attrs, "xfId");
    let x1 = match font_stage_exec(xml, &mut attrs, &spec.font) {
        None => {
            return None;
        },
        Some(Err(e)) => {
            return Some(Err(e));
        },
        Some(Ok(x)) => x,
    };
    let x2 = match fill_stage_exec(x1, &mut attrs, &spec.fill) {
        None => {
            return None;
        },
        Some(Err(e)) => {
            return Some(Err(e));
        },
        Some(Ok(x)) => x,
    };
    let x3 = match border_stage_exec(x2, &mut attrs, &spec.border) {
        None => {
            return None;
        },
        Some(Err(e)) => {
            return Some(Err(e));
        },
        Some(Ok(x)) => x,
    };
    let candidate = StyleElement { name: base.name, attrs, inner_xml: base.inner_xml };
    finish_style_exec(x3, &xfs, candidate, &spec.alignment)
}

/// `apply_xlsx_style_to_styles_xml`: the index of a cell format that is the
/// format at `base_style_index` with the style applied (its font, fill and
/// border records added as needed), added to `cellXfs` when no equal
/// record exists.
pub fn apply_xlsx_style_to_styles_xml(styles_xml: String, base_style_index: u32, spec: &CellStyleSpec) -> (r: CliResult<(String, u32, bool)>)
    requires
        apply_style_spec(styles_xml@, base_style_index, *spec) is Some,
    ensures
        match apply_style_spec(styles_xml@, base_style_index, *spec)->Some_0 {
            Err(k) => r is Err && r->Err_0.kind == k,
            Ok(v) => r is Ok && (r->Ok_0.0@, r->Ok_0.1, r->Ok_0.2) == v,
        },
{
    match apply_xlsx_style_to_styles_xml_checked(styles_xml, base_style_index, spec) {
        Some(r) => r,
        None => Err(CliError::unexpected(to_string("styles collection has no content"))),
    }
}

// ---------------------------------------------------------------------------
// The style a command asks for
// ---------------------------------------------------------------------------

/// The flags of a range style command. The font size is the point size as
/// written; whether it lies in 1 to 409 is checked where it is read.
pub struct XlsxRangesSetStyleOptions<'a> {
    pub sheet: &'a str,
    pub range: &'a str,
    pub font_name: Option<&'a str>,
    pub font_size: Option<&'a str>,
    pub font_bold: Option<bool>,
    pub font_italic: Option<bool>,
    pub font_underline: Option<bool>,
    pub font_color: Option<&'a str>,
    pub fill_color: Option<&'a str>,
    pub border_style: Option<&'a str>,
    pub border_color: Option<&'a str>,
    pub border_top: Option<bool>,
    pub border_bottom: Option<bool>,
    pub border_left: Option<bool>,
    pub border_right: Option<bool>,
    pub alignment_horizontal: Option<&'a str>,
    pub alignment_vertical: Option<&'a str>,
    pub alignment_wrap_text: Option<bool>,
    pub max_cells: i64,
    pub out: Option<&'a str>,
    pub backup: Option<&'a str>,
    pub dry_run: bool,
    pub no_validate: bool,
    pub in_place: bool,
}

pub open spec fn font_given(o: XlsxRangesSetStyleOptions) -> bool {
    o.font_name is Some || o.font_size is Some || o.font_bold is Some || o.font_italic is Some || o.font_underline is Some
        || o.font_color is Some
}

pub open spec fn border_given(o: XlsxRangesSetStyleOptions) -> bool {
    o.border_style is Some || o.border_color is Some || o.border_top is Some || o.border_bottom is Some || o.border_left is Some
        || o.border_right is Some
}

pub open spec fn alignment_given(o: XlsxRangesSetStyleOptions) -> bool {
    o.alignment_horizontal is Some || o.alignment_vertical is Some || o.alignment_wrap_text is Some
}

pub open spec fn any_edge(o: XlsxRangesSetStyleOptions) -> bool {
    o.border_top is Some || o.border_bottom is Some || o.border_left is Some || o.border_right is Some
}

/// An edge is drawn when asked for; with no edge named, all four are.
pub open spec fn edge_on(o: XlsxRangesSetStyleOptions, e: Option<bool>) -> bool {
    if any_edge(o) {
        e == Some(true)
    } else {
        true
    }
}

pub open spec fn opt_text(o: Option<&str>) -> Seq<char> {
    match o {
        Some(s) => s@,
        None => Seq::empty(),
    }
}

pub open spec fn bad_color(o: Option<&str>) -> bool {
    o is Some && color_spec(o.unwrap()@) is None
}

/// Whether a style command's flags are refused: a border without a style,
/// no style flag at all, a font size out of range, a color that is not hex,
/// an unknown border style or alignment.
pub open spec fn style_flags_refused(o: XlsxRangesSetStyleOptions, size_in_range: bool) -> bool {
    ||| border_given(o) && opt_text(o.border_style).len() == 0
    ||| !font_given(o) && o.fill_color is None && !border_given(o) && !alignment_given(o)
    ||| font_given(o) && o.font_size is Some && !size_in_range
    ||| font_given(o) && bad_color(o.font_color)
    ||| bad_color(o.fill_color)
    ||| border_given(o) && !border_style_spec(opt_text(o.border_style))
    ||| border_given(o) && bad_color(o.border_color)
    ||| alignment_given(o) && o.alignment_horizontal is Some && !horizontal_spec(o.alignment_horizontal.unwrap()@)
    ||| alignment_given(o) && o.alignment_vertical is Some && !vertical_spec(o.alignment_vertical.unwrap()@)
}

pub open spec fn owned_view(o: Option<String>) -> Option<Seq<char>> {
    match o {
        Some(s) => Some(s@),
        None => None,
    }
}

pub open spec fn borrowed_view(o: Option<&str>) -> Option<Seq<char>> {
    match o {
        Some(s) => Some(s@),
        None => None,
    }
}

/// The style built from the flags: a font, fill, border or alignment for
/// each group of flags given.
pub open spec fn style_spec_from(o: XlsxRangesSetStyleOptions, s: CellStyleSpec) -> bool {
    &&& s.font is Some == font_given(o)
    &&& s.font is Some ==> {
        let f = s.font.unwrap();
        &&& owned_view(f.name) == borrowed_view(o.font_name)
        &&& owned_view(f.size) == borrowed_view(o.font_size)
        &&& f.bold == o.font_bold && f.italic == o.font_italic && f.underline == o.font_underline
        &&& owned_view(f.color) == borrowed_view(o.font_color)
    }
    &&& s.fill is Some == (o.fill_color is Some)
    &&& s.fill is Some ==> s.fill.unwrap().color@ == o.fill_color.unwrap()@
    &&& s.border is Some == border_given(o)
    &&& s.border is Some ==> {
        let b = s.border.unwrap();
        &&& b.style@ == opt_text(o.border_style)
        &&& owned_view(b.color) == borrowed_view(o.border_color)
        &&& b.top == edge_on(o, o.border_top) && b.bottom == edge_on(o, o.border_bottom)
        &&& b.left == edge_on(o, o.border_left) && b.right == edge_on(o, o.border_right)
    }
    &&& s.alignment is Some == alignment_given(o)
    &&& s.alignment is Some ==> {
        let a = s.alignment.unwrap();
        &&& owned_view(a.horizontal) == borrowed_view(o.alignment_horizontal)
        &&& owned_view(a.vertical) == borrowed_view(o.alignment_vertical)
        &&& a.wrap_text == o.alignment_wrap_text
    }
}

fn owned(o: Option<&str>) -> (r: Option<String>)
    ensures
        owned_view(r) == borrowed_view(o),
{
    match o {
        Some(s) => Some(to_string(s)),
        None => None,
    }
}

fn check_color(o: &Option<String>) -> (r: CliResult<()>)
    ensures
        r is Ok <==> !(o is Some && color_spec(o.unwrap()@) is None),
        r is Err ==> r->Err_0.kind == ErrorKind::InvalidArgs,
{
    match o {
        Some(c) => {
            normalize_xlsx_style_color(c.as_str())?;
            Ok(())
        },
        None => Ok(()),
    }
}

/// `validate_xlsx_cell_style_spec`: refuses a font size out of range, a
/// color that is not hex, and an unknown border style or alignment.
pub fn validate_xlsx_cell_style_spec(spec: &CellStyleSpec, size_in_range: bool) -> (r: CliResult<()>)
    ensures
        r is Ok <==> !({
            ||| spec.font is Some && spec.font.unwrap().size is Some && !size_in_range
            ||| spec.font is Some && spec.font.unwrap().color is Some && color_spec(spec.font.unwrap().color.unwrap()@) is None
            ||| spec.fill is Some && color_spec(spec.fill.unwrap().color@) is None
            ||| spec.border is Some && !border_style_spec(spec.border.unwrap().style@)
            ||| spec.border is Some && spec.border.unwrap().color is Some && color_spec(spec.border.unwrap().color.unwrap()@) is None
            ||| spec.alignment is Some && spec.alignment.unwrap().horizontal is Some && !horizontal_spec(
                spec.alignment.unwrap().horizontal.unwrap()@,
            )
            ||| spec.alignment is Some && spec.alignment.unwrap().vertical is Some && !vertical_spec(
                spec.alignment.unwrap().vertical.unwrap()@,
            )
        }),
        r is Err ==> r->Err_0.kind == ErrorKind::InvalidArgs,
{
    if let Some(font) = &spec.font {
        if let Some(size) = &font.size {
            if !size_in_range {
                return Err(CliError::invalid_args(concat3("font size ", size.as_str(), " out of range (1-409)")));
            }
        }
        check_color(&font.color)?;
    }
    if let Some(fill) = &spec.fill {
        normalize_xlsx_style_color(fill.color.as_str())?;
    }
    if let Some(border) = &spec.border {
        if !valid_xlsx_border_style(border.style.as_str()) {
            return Err(CliError::invalid_args(concat2("invalid border style ", crate::text::debug_quoted(border.style.as_str()).as_str())));
        }
        check_color(&border.color)?;
    }
    if let Some(alignment) = &spec.alignment {
        if let Some(h) = &alignment.horizontal {
            if !valid_xlsx_horizontal_alignment(h.as_str()) {
                return Err(CliError::invalid_args(concat2("invalid horizontal alignment ", crate::text::debug_quoted(h.as_str()).as_str())));
            }
        }
        if let Some(v) = &alignment.vertical {
            if !valid_xlsx_vertical_alignment(v.as_str()) {
                return Err(CliError::invalid_args(concat2("invalid vertical alignment ", crate::text::debug_quoted(v.as_str()).as_str())));
            }
        }
    }
    Ok(())
}

fn edge_flag(any: bool, e: Option<bool>) -> (r: bool)
    ensures
        r == (if any { e == Some(true) } else { true }),
{
    if any {
        match e {
            Some(b) => b,
            None => false,
        }
    } else {
        true
    }
}

/// `build_xlsx_cell_style_spec`: the style a range style command's flags
/// ask for; `font_size_in_range` says whether the given font size lies in 1
/// to 409.
pub fn build_xlsx_cell_style_spec(options: &XlsxRangesSetStyleOptions, font_size_in_range: bool) -> (r: CliResult<CellStyleSpec>)
    ensures
        r is Err <==> style_flags_refused(*options, font_size_in_range),
        r is Err ==> r->Err_0.kind == ErrorKind::InvalidArgs,
        r is Ok ==> style_spec_from(*options, r->Ok_0),
{
    let o = options;
    let font = if o.font_name.is_some() || o.font_size.is_some() || o.font_bold.is_some() || o.font_italic.is_some()
        || o.font_underline.is_some() || o.font_color.is_some() {
        Some(FontStyleSpec {
            name: owned(o.font_name),
            size: owned(o.font_size),
            bold: o.font_bold,
            italic: o.font_italic,
            underline: o.font_underline,
            color: owned(o.font_color),
        })
    } else {
        None
    };
    let fill = match o.fill_color {
        Some(c) => Some(FillStyleSpec { color: to_string(c) }),
        None => None,
    };
    let border = if o.border_style.is_some() || o.border_color.is_some() || o.border_top.is_some() || o.border_bottom.is_some()
        || o.border_left.is_some() || o.border_right.is_some() {
        let style = match o.border_style {
            Some(s) => to_string(s),
            None => String::new(),
        };
        if str_chars(style.as_str()).len() == 0 {
            return Err(CliError::invalid_args(to_string("--border-style is required when setting borders")));
        }
        let any = o.border_top.is_some() || o.border_bottom.is_some() || o.border_left.is_some() || o.border_right.is_some();
        Some(BorderStyleSpec {
            style,
            color: owned(o.border_color),
            top: edge_flag(any, o.border_top),
            bottom: edge_flag(any, o.border_bottom),
            left: edge_flag(any, o.border_left),
            right: edge_flag(any, o.border_right),
        })
    } else {
        None
    };
    let alignment = if o.alignment_horizontal.is_some() || o.alignment_vertical.is_some() || o.alignment_wrap_text.is_some() {
        Some(AlignmentStyleSpec {
            horizontal: owned(o.alignment_horizontal),
            vertical: owned(o.alignment_vertical),
            wrap_text: o.alignment_wrap_text,
        })
    } else {
        None
    };
    if font.is_none() && fill.is_none() && border.is_none() && alignment.is_none() {
        return Err(CliError::invalid_args(to_string("specify at least one style flag (font/fill/border/alignment)")));
    }
    let spec = CellStyleSpec { font, fill, border, alignment };
    validate_xlsx_cell_style_spec(&spec, font_size_in_range)?;
    Ok(spec)
}

} // verus!
