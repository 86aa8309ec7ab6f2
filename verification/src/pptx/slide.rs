//! Reading a slide part: its background and its shapes (text boxes,
//! geometric shapes, lines and pictures), from the slide's XML tokens.
//!
//! Each reader scans tokens from a position, keeping a nesting depth; it
//! stops after the closing tag that brings the depth below where it started,
//! at the end of input, or at the first error. The `*_scan` spec functions
//! state what each reader yields: the value read, the position after it and
//! the depth there.
use vstd::prelude::*;
use crate::error::PptxError;
use crate::xml::{XmlToken, TokenModel, tokens_view, named, tag_attrs, tag_attributes, tag_is, xml_tokenize, xml_tokens};
use vstd::string::StringExecFns;
use super::attrs::{srgb_from, scheme_from, color_attrs, transform_from, transform_attrs, preset_from,
    preset_attrs, ln_width_from, ln_width_attrs, align_from, align_attrs, run_props_from, run_props_attrs,
    typeface_from, typeface_attrs, embed_from, embed_attrs};
use super::names::NameMap;
use super::xml_types::{ColorSpec, ColorModel, FillStyle, FillModel, OutlineStyle, OutlineModel, TextRun,
    RunModel, default_run, TextAlign, TextParagraph, ParagraphModel, ShapeKind, KindModel, Shape, ShapeModel,
    Transform};

verus! {

/// The color given by a color tag (`srgbClr` or `schemeClr`), if it is one.
pub open spec fn color_elem(c: Seq<char>) -> Option<Result<ColorModel, PptxError>> {
    if named(c, "srgbClr"@) {
        Some(srgb_from(tag_attrs(c)))
    } else if named(c, "schemeClr"@) {
        Some(scheme_from(tag_attrs(c)))
    } else {
        None
    }
}

/// Reads the color of a color tag, if it is one.
fn color_elem_exec(content: &str) -> (r: Option<Result<ColorSpec, PptxError>>)
    ensures
        match color_elem(content@) {
            Some(Ok(c)) => r matches Some(Ok(x)) && x@ == c,
            Some(Err(e)) => r matches Some(Err(x)) && x == e,
            None => r is None,
        },
{
    if tag_is(content, "srgbClr") {
        Some(color_attrs(&tag_attributes(content), false))
    } else if tag_is(content, "schemeClr") {
        Some(color_attrs(&tag_attributes(content), true))
    } else {
        None
    }
}

// ---------------------------------------------------------------------------
// `solidFill`: the last color tag inside it.

/// The fill color read from position `i` at depth `d` (the reader started at depth `start`).
pub open spec fn fill_color_scan(ts: Seq<TokenModel>, i: int, d: int, start: int, col: ColorModel) -> Result<(ColorModel, int, int), PptxError>
    decreases ts.len() - i,
{
    if i < 0 || i >= ts.len() {
        Ok((col, i, d))
    } else {
        match ts[i] {
            TokenModel::Start(c) => match color_elem(c) {
                Some(Err(e)) => Err(e),
                Some(Ok(x)) => fill_color_scan(ts, i + 1, d + 1, start, x),
                None => fill_color_scan(ts, i + 1, d + 1, start, col),
            },
            TokenModel::Empty(c) => match color_elem(c) {
                Some(Err(e)) => Err(e),
                Some(Ok(x)) => fill_color_scan(ts, i + 1, d, start, x),
                None => fill_color_scan(ts, i + 1, d, start, col),
            },
            TokenModel::End => if d - 1 < start {
                Ok((col, i + 1, d - 1))
            } else {
                fill_color_scan(ts, i + 1, d - 1, start, col)
            },
            TokenModel::Eof => Ok((col, i, d)),
            TokenModel::Error => Err(PptxError::Xml),
            _ => fill_color_scan(ts, i + 1, d, start, col),
        }
    }
}

/// Reads the color inside a `solidFill` whose opening tag came just before `i0`.
fn parse_fill_color(ts: &Vec<XmlToken>, i0: usize, d0: usize) -> (r: Result<(ColorSpec, usize, usize), PptxError>)
    requires
        i0 <= ts@.len(),
        1 <= d0 <= i0,
    ensures
        match fill_color_scan(tokens_view(ts@), i0 as int, d0 as int, d0 as int, ColorModel::NoColor) {
            Ok((c, j, d)) => r matches Ok((x, jj, dd)) && x@ == c && jj == j && dd == d,
            Err(e) => r matches Err(x) && x == e,
        },
        r matches Ok((_, j, d)) ==> i0 <= j <= ts@.len() && d0 - 1 <= d <= j,
{
    let ghost tv = tokens_view(ts@);
    let mut col = ColorSpec::NoColor;
    let mut i = i0;
    let mut d = d0;
    loop
        invariant
            tv == tokens_view(ts@),
            i0 <= i <= ts@.len(),
            1 <= d0 <= d <= i,
            fill_color_scan(tv, i0 as int, d0 as int, d0 as int, ColorModel::NoColor)
                == fill_color_scan(tv, i as int, d as int, d0 as int, col@),
        decreases ts@.len() - i,
    {
        if i >= ts.len() {
            return Ok((col, i, d));
        }
        assert(tv[i as int] == ts@[i as int]@);
        match &ts[i] {
            XmlToken::Start(c) => {
                match color_elem_exec(c.as_str()) {
                    Some(Ok(x)) => { col = x; },
                    Some(Err(e)) => { return Err(e); },
                    None => {},
                }
                d = d + 1;
                i = i + 1;
            },
            XmlToken::Empty(c) => {
                match color_elem_exec(c.as_str()) {
                    Some(Ok(x)) => { col = x; },
                    Some(Err(e)) => { return Err(e); },
                    None => {},
                }
                i = i + 1;
            },
            XmlToken::End => {
                if d - 1 < d0 {
                    return Ok((col, i + 1, d - 1));
                }
                d = d - 1;
                i = i + 1;
            },
            XmlToken::Eof => { return Ok((col, i, d)); },
            XmlToken::Error => { return Err(PptxError::Xml); },
            _ => { i = i + 1; },
        }
    }
}


// ---------------------------------------------------------------------------
// `ln`: the outline's color.

/// The outline read from position `i` at depth `d`: a `solidFill` opening tag
/// gives the color inside it; a self-closing color tag gives its color.
pub open spec fn outline_scan(ts: Seq<TokenModel>, i: int, d: int, start: int, o: OutlineModel) -> Result<(OutlineModel, int, int), PptxError>
    decreases ts.len() - i,
{
    if i < 0 || i >= ts.len() {
        Ok((o, i, d))
    } else {
        match ts[i] {
            TokenModel::Start(c) => if named(c, "solidFill"@) {
                match fill_color_scan(ts, i + 1, d + 1, d + 1, ColorModel::NoColor) {
                    Err(e) => Err(e),
                    Ok((col, j, d2)) => if i < j <= ts.len() {
                        outline_scan(ts, j, d2, start, OutlineModel { color: col, ..o })
                    } else {
                        Err(PptxError::Xml)
                    },
                }
            } else {
                outline_scan(ts, i + 1, d + 1, start, o)
            },
            TokenModel::Empty(c) => match color_elem(c) {
                Some(Err(e)) => Err(e),
                Some(Ok(x)) => outline_scan(ts, i + 1, d, start, OutlineModel { color: x, ..o }),
                None => outline_scan(ts, i + 1, d, start, o),
            },
            TokenModel::End => if d - 1 < start {
                Ok((o, i + 1, d - 1))
            } else {
                outline_scan(ts, i + 1, d - 1, start, o)
            },
            TokenModel::Eof => Ok((o, i, d)),
            TokenModel::Error => Err(PptxError::Xml),
            _ => outline_scan(ts, i + 1, d, start, o),
        }
    }
}

/// Reads the outline of an `ln` whose opening tag came just before `i0`, with the given width.
fn parse_outline(ts: &Vec<XmlToken>, i0: usize, d0: usize, width_emu: i64) -> (r: Result<(OutlineStyle, usize, usize), PptxError>)
    requires
        i0 <= ts@.len(),
        1 <= d0 <= i0,
    ensures
        match outline_scan(tokens_view(ts@), i0 as int, d0 as int, d0 as int,
            OutlineModel { width_emu: width_emu, color: ColorModel::NoColor }) {
            Ok((o, j, d)) => r matches Ok((x, jj, dd)) && x@ == o && jj == j && dd == d,
            Err(e) => r matches Err(x) && x == e,
        },
        r matches Ok((_, j, d)) ==> i0 <= j <= ts@.len() && d0 - 1 <= d <= j,
{
    let ghost tv = tokens_view(ts@);
    let mut o = OutlineStyle { width_emu: width_emu, color: ColorSpec::NoColor };
    let mut i = i0;
    let mut d = d0;
    loop
        invariant
            tv == tokens_view(ts@),
            i0 <= i <= ts@.len(),
            1 <= d0 <= d <= i,
            outline_scan(tv, i0 as int, d0 as int, d0 as int,
                OutlineModel { width_emu: width_emu, color: ColorModel::NoColor })
                == outline_scan(tv, i as int, d as int, d0 as int, o@),
        decreases ts@.len() - i,
    {
        if i >= ts.len() {
            return Ok((o, i, d));
        }
        assert(tv[i as int] == ts@[i as int]@);
        match &ts[i] {
            XmlToken::Start(c) => {
                if tag_is(c.as_str(), "solidFill") {
                    match parse_fill_color(ts, i + 1, d + 1) {
                        Ok((col, j, d2)) => {
                            o.color = col;
                            i = j;
                            d = d2;
                        },
                        Err(e) => { return Err(e); },
                    }
                } else {
                    d = d + 1;
                    i = i + 1;
                }
            },
            XmlToken::Empty(c) => {
                match color_elem_exec(c.as_str()) {
                    Some(Ok(x)) => { o.color = x; },
                    Some(Err(e)) => { return Err(e); },
                    None => {},
                }
                i = i + 1;
            },
            XmlToken::End => {
                if d - 1 < d0 {
                    return Ok((o, i + 1, d - 1));
                }
                d = d - 1;
                i = i + 1;
            },
            XmlToken::Eof => { return Ok((o, i, d)); },
            XmlToken::Error => { return Err(PptxError::Xml); },
            _ => { i = i + 1; },
        }
    }
}

// ---------------------------------------------------------------------------
// `bg`: the slide background.

/// The view of an optional color.
pub open spec fn opt_color(c: Option<ColorSpec>) -> Option<ColorModel> {
    match c {
        Some(x) => Some(x@),
        None => None,
    }
}

/// The background color read from position `i` at depth `d` (1 just inside
/// `bg`): the last color tag inside, if any.
#[verifier::opaque]
pub open spec fn background_scan(ts: Seq<TokenModel>, i: int, d: int, col: Option<ColorModel>) -> Result<(Option<ColorModel>, int), PptxError>
    decreases ts.len() - i,
{
    if i < 0 || i >= ts.len() {
        Ok((col, i))
    } else {
        match ts[i] {
            TokenModel::Start(c) => match color_elem(c) {
                Some(Err(e)) => Err(e),
                Some(Ok(x)) => background_scan(ts, i + 1, d + 1, Some(x)),
                None => background_scan(ts, i + 1, d + 1, col),
            },
            TokenModel::Empty(c) => match color_elem(c) {
                Some(Err(e)) => Err(e),
                Some(Ok(x)) => background_scan(ts, i + 1, d, Some(x)),
                None => background_scan(ts, i + 1, d, col),
            },
            TokenModel::End => if d - 1 == 0 {
                Ok((col, i + 1))
            } else {
                background_scan(ts, i + 1, d - 1, col)
            },
            TokenModel::Eof => Ok((col, i)),
            TokenModel::Error => Err(PptxError::Xml),
            _ => background_scan(ts, i + 1, d, col),
        }
    }
}

/// Reads the background color of a `bg` whose opening tag came just before `i0`.
fn parse_background(ts: &Vec<XmlToken>, i0: usize) -> (r: Result<(Option<ColorSpec>, usize), PptxError>)
    requires
        1 <= i0 <= ts@.len(),
    ensures
        match background_scan(tokens_view(ts@), i0 as int, 1, None) {
            Ok((c, j)) => r matches Ok((x, jj)) && opt_color(x) == c && jj == j,
            Err(e) => r matches Err(x) && x == e,
        },
        r matches Ok((_, j)) ==> i0 <= j <= ts@.len(),
{
    proof {
        reveal(background_scan);
    }
    let ghost tv = tokens_view(ts@);
    let mut col: Option<ColorSpec> = None;
    let mut i = i0;
    let mut d: usize = 1;
    loop
        invariant
            tv == tokens_view(ts@),
            i0 <= i <= ts@.len(),
            1 <= i0,
            1 <= d <= i - i0 + 1,
            background_scan(tv, i0 as int, 1, None) == background_scan(tv, i as int, d as int, opt_color(col)),
        decreases ts@.len() - i,
    {
        proof {
            reveal(background_scan);
        }
        if i >= ts.len() {
            return Ok((col, i));
        }
        assert(tv[i as int] == ts@[i as int]@);
        match &ts[i] {
            XmlToken::Start(c) => {
                match color_elem_exec(c.as_str()) {
                    Some(Ok(x)) => { col = Some(x); },
                    Some(Err(e)) => { return Err(e); },
                    None => {},
                }
                d = d + 1;
                i = i + 1;
            },
            XmlToken::Empty(c) => {
                match color_elem_exec(c.as_str()) {
                    Some(Ok(x)) => { col = Some(x); },
                    Some(Err(e)) => { return Err(e); },
                    None => {},
                }
                i = i + 1;
            },
            XmlToken::End => {
                if d - 1 == 0 {
                    return Ok((col, i + 1));
                }
                d = d - 1;
                i = i + 1;
            },
            XmlToken::Eof => { return Ok((col, i)); },
            XmlToken::Error => { return Err(PptxError::Xml); },
            _ => { i = i + 1; },
        }
    }
}

// ---------------------------------------------------------------------------
// Children of `rPr`: the run's color and typeface.

/// Whether a tag names a font (`latin`, `cs` or `ea`).
pub open spec fn is_font_tag(c: Seq<char>) -> bool {
    named(c, "latin"@) || named(c, "cs"@) || named(c, "ea"@)
}

/// One color or font tag applied to a run.
pub open spec fn run_child(c: Seq<char>, run: RunModel) -> Result<RunModel, PptxError> {
    match color_elem(c) {
        Some(Err(e)) => Err(e),
        Some(Ok(x)) => Ok(RunModel { color: x, ..run }),
        None => if is_font_tag(c) {
            match typeface_from(tag_attrs(c), run.font_family) {
                Ok(f) => Ok(RunModel { font_family: f, ..run }),
                Err(e) => Err(e),
            }
        } else {
            Ok(run)
        },
    }
}

/// The run after the children of its `rPr`, read from position `i` at depth `d`.
pub open spec fn run_children_scan(ts: Seq<TokenModel>, i: int, d: int, start: int, run: RunModel) -> Result<(RunModel, int, int), PptxError>
    decreases ts.len() - i,
{
    if i < 0 || i >= ts.len() {
        Ok((run, i, d))
    } else {
        match ts[i] {
            TokenModel::Start(c) => match run_child(c, run) {
                Err(e) => Err(e),
                Ok(r2) => run_children_scan(ts, i + 1, d + 1, start, r2),
            },
            TokenModel::Empty(c) => match run_child(c, run) {
                Err(e) => Err(e),
                Ok(r2) => run_children_scan(ts, i + 1, d, start, r2),
            },
            TokenModel::End => if d - 1 < start {
                Ok((run, i + 1, d - 1))
            } else {
                run_children_scan(ts, i + 1, d - 1, start, run)
            },
            TokenModel::Eof => Ok((run, i, d)),
            TokenModel::Error => Err(PptxError::Xml),
            _ => run_children_scan(ts, i + 1, d, start, run),
        }
    }
}

/// Applies one color or font tag to a run.
fn apply_run_child(content: &str, run: &mut TextRun) -> (r: Result<(), PptxError>)
    ensures
        match run_child(content@, old(run)@) {
            Ok(m) => r is Ok && final(run)@ == m,
            Err(e) => r == Err::<(), PptxError>(e),
        },
{
    match color_elem_exec(content) {
        Some(Ok(x)) => {
            run.color = x;
            Ok(())
        },
        Some(Err(e)) => Err(e),
        None => {
            if tag_is(content, "latin") || tag_is(content, "cs") || tag_is(content, "ea") {
                typeface_attrs(&tag_attributes(content), run)
            } else {
                Ok(())
            }
        },
    }
}

/// Reads the children of an `rPr` whose opening tag came just before `i0` into `run`.
fn parse_run_props_children(ts: &Vec<XmlToken>, i0: usize, d0: usize, run0: TextRun) -> (r: Result<(TextRun, usize, usize), PptxError>)
    requires
        i0 <= ts@.len(),
        1 <= d0 <= i0,
    ensures
        match run_children_scan(tokens_view(ts@), i0 as int, d0 as int, d0 as int, run0@) {
            Ok((m, j, d)) => r matches Ok((x, jj, dd)) && x@ == m && jj == j && dd == d,
            Err(e) => r matches Err(x) && x == e,
        },
        r matches Ok((_, j, d)) ==> i0 <= j <= ts@.len() && d0 - 1 <= d <= j,
{
    let ghost tv = tokens_view(ts@);
    let ghost r0 = run0@;
    let mut run = run0;
    let mut i = i0;
    let mut d = d0;
    loop
        invariant
            tv == tokens_view(ts@),
            i0 <= i <= ts@.len(),
            1 <= d0 <= d <= i,
            r0 == run0@,
            run_children_scan(tv, i0 as int, d0 as int, d0 as int, r0)
                == run_children_scan(tv, i as int, d as int, d0 as int, run@),
        decreases ts@.len() - i,
    {
        if i >= ts.len() {
            return Ok((run, i, d));
        }
        assert(tv[i as int] == ts@[i as int]@);
        match &ts[i] {
            XmlToken::Start(c) => {
                match apply_run_child(c.as_str(), &mut run) {
                    Ok(()) => {},
                    Err(e) => { return Err(e); },
                }
                d = d + 1;
                i = i + 1;
            },
            XmlToken::Empty(c) => {
                match apply_run_child(c.as_str(), &mut run) {
                    Ok(()) => {},
                    Err(e) => { return Err(e); },
                }
                i = i + 1;
            },
            XmlToken::End => {
                if d - 1 < d0 {
                    return Ok((run, i + 1, d - 1));
                }
                d = d - 1;
                i = i + 1;
            },
            XmlToken::Eof => { return Ok((run, i, d)); },
            XmlToken::Error => { return Err(PptxError::Xml); },
            _ => { i = i + 1; },
        }
    }
}

// ---------------------------------------------------------------------------
// `r`: a text run.

/// The run read from position `i` at depth `d`: `rPr` sets its properties
/// (and, opened, its color and typeface from its children); text nodes are
/// appended to its text.
pub open spec fn text_run_scan(ts: Seq<TokenModel>, i: int, d: int, start: int, run: RunModel) -> Result<(RunModel, int, int), PptxError>
    decreases ts.len() - i,
{
    if i < 0 || i >= ts.len() {
        Ok((run, i, d))
    } else {
        match ts[i] {
            TokenModel::Start(c) => if named(c, "rPr"@) {
                match run_props_from(tag_attrs(c), run) {
                    Err(e) => Err(e),
                    Ok(r2) => match run_children_scan(ts, i + 1, d + 1, d + 1, r2) {
                        Err(e) => Err(e),
                        Ok((r3, j, d2)) => if i < j <= ts.len() {
                            text_run_scan(ts, j, d2, start, r3)
                        } else {
                            Err(PptxError::Xml)
                        },
                    },
                }
            } else {
                text_run_scan(ts, i + 1, d + 1, start, run)
            },
            TokenModel::Empty(c) => if named(c, "rPr"@) {
                match run_props_from(tag_attrs(c), run) {
                    Err(e) => Err(e),
                    Ok(r2) => text_run_scan(ts, i + 1, d, start, r2),
                }
            } else {
                text_run_scan(ts, i + 1, d, start, run)
            },
            TokenModel::Text(t) => match t {
                Some(s) => text_run_scan(ts, i + 1, d, start, RunModel { text: run.text + s, ..run }),
                None => Err(PptxError::Value),
            },
            TokenModel::End => if d - 1 < start {
                Ok((run, i + 1, d - 1))
            } else {
                text_run_scan(ts, i + 1, d - 1, start, run)
            },
            TokenModel::Eof => Ok((run, i, d)),
            TokenModel::Error => Err(PptxError::Xml),
            _ => text_run_scan(ts, i + 1, d, start, run),
        }
    }
}

/// Reads a text run whose opening tag came just before `i0`.
fn parse_text_run(ts: &Vec<XmlToken>, i0: usize, d0: usize) -> (r: Result<(TextRun, usize, usize), PptxError>)
    requires
        i0 <= ts@.len(),
        1 <= d0 <= i0,
    ensures
        match text_run_scan(tokens_view(ts@), i0 as int, d0 as int, d0 as int, default_run()) {
            Ok((m, j, d)) => r matches Ok((x, jj, dd)) && x@ == m && jj == j && dd == d,
            Err(e) => r matches Err(x) && x == e,
        },
        r matches Ok((_, j, d)) ==> i0 <= j <= ts@.len() && d0 - 1 <= d <= j,
{
    let ghost tv = tokens_view(ts@);
    let mut run = TextRun::default();
    let mut i = i0;
    let mut d = d0;
    loop
        invariant
            tv == tokens_view(ts@),
            i0 <= i <= ts@.len(),
            1 <= d0 <= d <= i,
            text_run_scan(tv, i0 as int, d0 as int, d0 as int, default_run())
                == text_run_scan(tv, i as int, d as int, d0 as int, run@),
        decreases ts@.len() - i,
    {
        if i >= ts.len() {
            return Ok((run, i, d));
        }
        assert(tv[i as int] == ts@[i as int]@);
        match &ts[i] {
            XmlToken::Start(c) => {
                if tag_is(c.as_str(), "rPr") {
                    match run_props_attrs(&tag_attributes(c.as_str()), &mut run) {
                        Ok(()) => {},
                        Err(e) => { return Err(e); },
                    }
                    match parse_run_props_children(ts, i + 1, d + 1, run) {
                        Ok((r2, j, d2)) => {
                            run = r2;
                            i = j;
                            d = d2;
                        },
                        Err(e) => { return Err(e); },
                    }
                } else {
                    d = d + 1;
                    i = i + 1;
                }
            },
            XmlToken::Empty(c) => {
                if tag_is(c.as_str(), "rPr") {
                    match run_props_attrs(&tag_attributes(c.as_str()), &mut run) {
                        Ok(()) => {},
                        Err(e) => { return Err(e); },
                    }
                }
                i = i + 1;
            },
            XmlToken::Text(t) => {
                match t {
                    Some(s) => { run.text.append(s.as_str()); },
                    None => { return Err(PptxError::Value); },
                }
                i = i + 1;
            },
            XmlToken::End => {
                if d - 1 < d0 {
                    return Ok((run, i + 1, d - 1));
                }
                d = d - 1;
                i = i + 1;
            },
            XmlToken::Eof => { return Ok((run, i, d)); },
            XmlToken::Error => { return Err(PptxError::Xml); },
            _ => { i = i + 1; },
        }
    }
}


// ---------------------------------------------------------------------------
// `p`: a paragraph.

/// The paragraph read from position `i` at depth `d`: `pPr` sets its
/// alignment; each `r` adds a run.
pub open spec fn paragraph_scan(ts: Seq<TokenModel>, i: int, d: int, start: int, p: ParagraphModel) -> Result<(ParagraphModel, int, int), PptxError>
    decreases ts.len() - i,
{
    if i < 0 || i >= ts.len() {
        Ok((p, i, d))
    } else {
        match ts[i] {
            TokenModel::Start(c) => if named(c, "pPr"@) {
                match align_from(tag_attrs(c), p.align) {
                    Err(e) => Err(e),
                    Ok(a) => paragraph_scan(ts, i + 1, d + 1, start, ParagraphModel { align: a, ..p }),
                }
            } else if named(c, "r"@) {
                match text_run_scan(ts, i + 1, d + 1, d + 1, default_run()) {
                    Err(e) => Err(e),
                    Ok((run, j, d2)) => if i < j <= ts.len() {
                        paragraph_scan(ts, j, d2, start, ParagraphModel { runs: p.runs.push(run), ..p })
                    } else {
                        Err(PptxError::Xml)
                    },
                }
            } else {
                paragraph_scan(ts, i + 1, d + 1, start, p)
            },
            TokenModel::Empty(c) => if named(c, "pPr"@) {
                match align_from(tag_attrs(c), p.align) {
                    Err(e) => Err(e),
                    Ok(a) => paragraph_scan(ts, i + 1, d, start, ParagraphModel { align: a, ..p }),
                }
            } else {
                paragraph_scan(ts, i + 1, d, start, p)
            },
            TokenModel::End => if d - 1 < start {
                Ok((p, i + 1, d - 1))
            } else {
                paragraph_scan(ts, i + 1, d - 1, start, p)
            },
            TokenModel::Eof => Ok((p, i, d)),
            TokenModel::Error => Err(PptxError::Xml),
            _ => paragraph_scan(ts, i + 1, d, start, p),
        }
    }
}

/// `p` with its runs taken away.
pub open spec fn without_runs(p: ParagraphModel) -> ParagraphModel {
    ParagraphModel { runs: Seq::empty(), align: p.align }
}

/// Two distinct ASCII names are never both the local name of one tag.
proof fn lemma_names_differ(c: Seq<char>, a: Seq<char>, b: Seq<char>, k: int)
    requires
        vstd::utf8::is_ascii_chars(a),
        vstd::utf8::is_ascii_chars(b),
        0 <= k < a.len(),
        k < b.len(),
        a[k] != b[k],
    ensures
        !(named(c, a) && named(c, b)),
{
    vstd::utf8::is_ascii_chars_encode_utf8(a);
    vstd::utf8::is_ascii_chars_encode_utf8(b);
    vstd::utf8::is_ascii_chars_nat_bound(a);
    vstd::utf8::is_ascii_chars_nat_bound(b);
    assert(a[k] as u8 == vstd::utf8::encode_utf8(a)[k]);
    assert(b[k] as u8 == vstd::utf8::encode_utf8(b)[k]);
}

/// Reading a paragraph keeps the runs it already has, in front, and adds the
/// same runs and alignment whatever runs came before.
pub proof fn lemma_paragraph_keeps_runs(ts: Seq<TokenModel>, i: int, d: int, start: int, p: ParagraphModel)
    ensures
        paragraph_scan(ts, i, d, start, p) == match paragraph_scan(ts, i, d, start, without_runs(p)) {
            Ok((q, j, d2)) => Ok::<(ParagraphModel, int, int), PptxError>(
                (ParagraphModel { runs: p.runs + q.runs, align: q.align }, j, d2)),
            Err(e) => Err(e),
        },
    decreases ts.len() - i,
{
    let none = Seq::<RunModel>::empty();
    assert(p.runs + none =~= p.runs);
    if 0 <= i < ts.len() {
        match ts[i] {
            TokenModel::Start(c) => {
                if named(c, "pPr"@) {
                    match align_from(tag_attrs(c), p.align) {
                        Err(e) => {},
                        Ok(a) => {
                            lemma_paragraph_keeps_runs(ts, i + 1, d + 1, start, ParagraphModel { align: a, ..p });
                            assert(without_runs(ParagraphModel { align: a, ..p }) == ParagraphModel { align: a, ..without_runs(p) });
                        },
                    }
                } else if named(c, "r"@) {
                    match text_run_scan(ts, i + 1, d + 1, d + 1, default_run()) {
                        Err(e) => {},
                        Ok((run, j, d2)) => {
                            if i < j <= ts.len() {
                                let p1 = ParagraphModel { runs: p.runs.push(run), ..p };
                                let q1 = ParagraphModel { runs: none.push(run), ..without_runs(p) };
                                lemma_paragraph_keeps_runs(ts, j, d2, start, p1);
                                lemma_paragraph_keeps_runs(ts, j, d2, start, q1);
                                assert(without_runs(p1) == without_runs(q1));
                                match paragraph_scan(ts, j, d2, start, without_runs(p1)) {
                                    Ok((q, k, d3)) => {
                                        assert(p.runs.push(run) + q.runs =~= p.runs + (none.push(run) + q.runs));
                                    },
                                    Err(e) => {},
                                }
                            }
                        },
                    }
                } else {
                    lemma_paragraph_keeps_runs(ts, i + 1, d + 1, start, p);
                }
            },
            TokenModel::Empty(c) => {
                if named(c, "pPr"@) {
                    match align_from(tag_attrs(c), p.align) {
                        Err(e) => {},
                        Ok(a) => {
                            lemma_paragraph_keeps_runs(ts, i + 1, d, start, ParagraphModel { align: a, ..p });
                            assert(without_runs(ParagraphModel { align: a, ..p }) == ParagraphModel { align: a, ..without_runs(p) });
                        },
                    }
                } else {
                    lemma_paragraph_keeps_runs(ts, i + 1, d, start, p);
                }
            },
            TokenModel::End => {
                if d - 1 >= start {
                    lemma_paragraph_keeps_runs(ts, i + 1, d - 1, start, p);
                }
            },
            TokenModel::Eof => {},
            TokenModel::Error => {},
            _ => {
                lemma_paragraph_keeps_runs(ts, i + 1, d, start, p);
            },
        }
    }
}

/// Each opening `r` tag of a paragraph gives one run, the one read from that
/// tag, followed by the runs of the rest of the paragraph.
#[verifier::rlimit(40)]
pub proof fn lemma_paragraph_run(ts: Seq<TokenModel>, i: int, d: int, start: int, p: ParagraphModel)
    requires
        0 <= i < ts.len(),
        ts[i] is Start,
        named(ts[i]->Start_0, "r"@),
        p.runs.len() == 0,
        text_run_scan(ts, i + 1, d + 1, d + 1, default_run()) is Ok,
        i < text_run_scan(ts, i + 1, d + 1, d + 1, default_run())->Ok_0.1 <= ts.len(),
    ensures
        ({
            let (run, j, d2) = text_run_scan(ts, i + 1, d + 1, d + 1, default_run())->Ok_0;
            paragraph_scan(ts, i, d, start, p) == match paragraph_scan(ts, j, d2, start, p) {
                Ok((q, k, d3)) => Ok::<(ParagraphModel, int, int), PptxError>(
                    (ParagraphModel { runs: seq![run] + q.runs, align: q.align }, k, d3)),
                Err(e) => Err(e),
            }
        }),
{
    reveal_strlit("r");
    reveal_strlit("pPr");
    lemma_names_differ(ts[i]->Start_0, "pPr"@, "r"@, 0);
    let (run, j, d2) = text_run_scan(ts, i + 1, d + 1, d + 1, default_run())->Ok_0;
    let p1 = ParagraphModel { runs: p.runs.push(run), ..p };
    lemma_paragraph_keeps_runs(ts, j, d2, start, p1);
    assert(p.runs =~= Seq::<RunModel>::empty());
    assert(without_runs(p1) == p);
    assert(p.runs.push(run) =~= seq![run]);
}

/// Reads a paragraph whose opening tag came just before `i0`.
fn parse_paragraph(ts: &Vec<XmlToken>, i0: usize, d0: usize) -> (r: Result<(TextParagraph, usize, usize), PptxError>)
    requires
        i0 <= ts@.len(),
        1 <= d0 <= i0,
    ensures
        match paragraph_scan(tokens_view(ts@), i0 as int, d0 as int, d0 as int,
            ParagraphModel { runs: Seq::empty(), align: TextAlign::Left }) {
            Ok((m, j, d)) => r matches Ok((x, jj, dd)) && x@ == m && jj == j && dd == d,
            Err(e) => r matches Err(x) && x == e,
        },
        r matches Ok((_, j, d)) ==> i0 <= j <= ts@.len() && d0 - 1 <= d <= j,
{
    let ghost tv = tokens_view(ts@);
    let mut para = TextParagraph::default();
    let mut i = i0;
    let mut d = d0;
    loop
        invariant
            tv == tokens_view(ts@),
            i0 <= i <= ts@.len(),
            1 <= d0 <= d <= i,
            paragraph_scan(tv, i0 as int, d0 as int, d0 as int,
                ParagraphModel { runs: Seq::empty(), align: TextAlign::Left })
                == paragraph_scan(tv, i as int, d as int, d0 as int, para@),
        decreases ts@.len() - i,
    {
        if i >= ts.len() {
            return Ok((para, i, d));
        }
        assert(tv[i as int] == ts@[i as int]@);
        match &ts[i] {
            XmlToken::Start(c) => {
                if tag_is(c.as_str(), "pPr") {
                    match align_attrs(&tag_attributes(c.as_str()), para.align) {
                        Ok(a) => { para.align = a; },
                        Err(e) => { return Err(e); },
                    }
                    d = d + 1;
                    i = i + 1;
                } else if tag_is(c.as_str(), "r") {
                    match parse_text_run(ts, i + 1, d + 1) {
                        Ok((run, j, d2)) => {
                            let ghost before = para@;
                            para.runs.push(run);
                            assert(para@.runs =~= before.runs.push(run@));
                            i = j;
                            d = d2;
                        },
                        Err(e) => { return Err(e); },
                    }
                } else {
                    d = d + 1;
                    i = i + 1;
                }
            },
            XmlToken::Empty(c) => {
                if tag_is(c.as_str(), "pPr") {
                    match align_attrs(&tag_attributes(c.as_str()), para.align) {
                        Ok(a) => { para.align = a; },
                        Err(e) => { return Err(e); },
                    }
                }
                i = i + 1;
            },
            XmlToken::End => {
                if d - 1 < d0 {
                    return Ok((para, i + 1, d - 1));
                }
                d = d - 1;
                i = i + 1;
            },
            XmlToken::Eof => { return Ok((para, i, d)); },
            XmlToken::Error => { return Err(PptxError::Xml); },
            _ => { i = i + 1; },
        }
    }
}

// ---------------------------------------------------------------------------
// `txBody`: the paragraphs of a shape.

/// The views of a sequence of paragraphs.
pub open spec fn paragraphs_view(ps: Seq<TextParagraph>) -> Seq<ParagraphModel> {
    ps.map_values(|p: TextParagraph| p@)
}

/// The paragraphs read from position `i` at depth `d`: each opening `p` tag adds one.
pub open spec fn text_body_scan(ts: Seq<TokenModel>, i: int, d: int, start: int, ps: Seq<ParagraphModel>) -> Result<(Seq<ParagraphModel>, int, int), PptxError>
    decreases ts.len() - i,
{
    if i < 0 || i >= ts.len() {
        Ok((ps, i, d))
    } else {
        match ts[i] {
            TokenModel::Start(c) => if named(c, "p"@) {
                match paragraph_scan(ts, i + 1, d + 1, d + 1, ParagraphModel { runs: Seq::empty(), align: TextAlign::Left }) {
                    Err(e) => Err(e),
                    Ok((p, j, d2)) => if i < j <= ts.len() {
                        text_body_scan(ts, j, d2, start, ps.push(p))
                    } else {
                        Err(PptxError::Xml)
                    },
                }
            } else {
                text_body_scan(ts, i + 1, d + 1, start, ps)
            },
            TokenModel::End => if d - 1 < start {
                Ok((ps, i + 1, d - 1))
            } else {
                text_body_scan(ts, i + 1, d - 1, start, ps)
            },
            TokenModel::Eof => Ok((ps, i, d)),
            TokenModel::Error => Err(PptxError::Xml),
            _ => text_body_scan(ts, i + 1, d, start, ps),
        }
    }
}

/// The paragraph a `txBody` starts each `p` with: no runs, left-aligned.
pub open spec fn empty_paragraph() -> ParagraphModel {
    ParagraphModel { runs: Seq::empty(), align: TextAlign::Left }
}

/// Reading a text body keeps the paragraphs read before it, in front, and adds
/// the same paragraphs whatever came before: the result is the earlier
/// paragraphs followed by what the body alone gives.
pub proof fn lemma_text_body_keeps(ts: Seq<TokenModel>, i: int, d: int, start: int, ps: Seq<ParagraphModel>)
    ensures
        text_body_scan(ts, i, d, start, ps) == match text_body_scan(ts, i, d, start, Seq::empty()) {
            Ok((qs, j, d2)) => Ok::<(Seq<ParagraphModel>, int, int), PptxError>((ps + qs, j, d2)),
            Err(e) => Err(e),
        },
    decreases ts.len() - i,
{
    let none = Seq::<ParagraphModel>::empty();
    if i < 0 || i >= ts.len() {
        assert(ps + none =~= ps);
    } else {
        match ts[i] {
            TokenModel::Start(c) => {
                if named(c, "p"@) {
                    match paragraph_scan(ts, i + 1, d + 1, d + 1, empty_paragraph()) {
                        Err(e) => {},
                        Ok((p, j, d2)) => {
                            if i < j <= ts.len() {
                                lemma_text_body_keeps(ts, j, d2, start, ps.push(p));
                                lemma_text_body_keeps(ts, j, d2, start, none.push(p));
                                match text_body_scan(ts, j, d2, start, none) {
                                    Ok((qs, k, d3)) => {
                                        assert(ps.push(p) + qs =~= ps + (none.push(p) + qs));
                                    },
                                    Err(e) => {},
                                }
                            }
                        },
                    }
                } else {
                    lemma_text_body_keeps(ts, i + 1, d + 1, start, ps);
                }
            },
            TokenModel::End => {
                if d - 1 < start {
                    assert(ps + none =~= ps);
                } else {
                    lemma_text_body_keeps(ts, i + 1, d - 1, start, ps);
                }
            },
            TokenModel::Eof => {
                assert(ps + none =~= ps);
            },
            TokenModel::Error => {},
            _ => {
                lemma_text_body_keeps(ts, i + 1, d, start, ps);
            },
        }
    }
}

/// Each opening `p` tag of a text body gives one paragraph, the one read from
/// that tag, followed by the paragraphs of the rest of the body.
pub proof fn lemma_text_body_paragraph(ts: Seq<TokenModel>, i: int, d: int, start: int)
    requires
        0 <= i < ts.len(),
        ts[i] is Start,
        named(ts[i]->Start_0, "p"@),
        paragraph_scan(ts, i + 1, d + 1, d + 1, empty_paragraph()) is Ok,
        i < paragraph_scan(ts, i + 1, d + 1, d + 1, empty_paragraph())->Ok_0.1 <= ts.len(),
    ensures
        ({
            let (p, j, d2) = paragraph_scan(ts, i + 1, d + 1, d + 1, empty_paragraph())->Ok_0;
            text_body_scan(ts, i, d, start, Seq::empty()) == match text_body_scan(ts, j, d2, start, Seq::empty()) {
                Ok((qs, k, d3)) => Ok::<(Seq<ParagraphModel>, int, int), PptxError>((seq![p] + qs, k, d3)),
                Err(e) => Err(e),
            }
        }),
{
    let (p, j, d2) = paragraph_scan(ts, i + 1, d + 1, d + 1, empty_paragraph())->Ok_0;
    let none = Seq::<ParagraphModel>::empty();
    lemma_text_body_keeps(ts, j, d2, start, none.push(p));
    assert(none.push(p) =~= seq![p]);
}

/// The number of opening `p` tags from position `i` on.
pub open spec fn paragraph_tags(ts: Seq<TokenModel>, i: int) -> nat
    decreases ts.len() - i,
{
    if i < 0 || i >= ts.len() {
        0
    } else {
        (if ts[i] is Start && named(ts[i]->Start_0, "p"@) { 1nat } else { 0nat }) + paragraph_tags(ts, i + 1)
    }
}

proof fn lemma_paragraph_tags_shrink(ts: Seq<TokenModel>, i: int, j: int)
    requires
        0 <= i <= j,
    ensures
        paragraph_tags(ts, j) <= paragraph_tags(ts, i),
    decreases j - i,
{
    if i < j {
        lemma_paragraph_tags_shrink(ts, i + 1, j);
    }
}

/// A text body gives no more paragraphs than it has opening `p` tags.
pub proof fn lemma_text_body_count(ts: Seq<TokenModel>, i: int, d: int, start: int, ps: Seq<ParagraphModel>)
    requires
        0 <= i,
        text_body_scan(ts, i, d, start, ps) is Ok,
    ensures
        text_body_scan(ts, i, d, start, ps)->Ok_0.0.len() <= ps.len() + paragraph_tags(ts, i),
    decreases ts.len() - i,
{
    if i < ts.len() {
        match ts[i] {
            TokenModel::Start(c) => {
                if named(c, "p"@) {
                    let (p, j, d2) = paragraph_scan(ts, i + 1, d + 1, d + 1, empty_paragraph())->Ok_0;
                    lemma_text_body_count(ts, j, d2, start, ps.push(p));
                    lemma_paragraph_tags_shrink(ts, i + 1, j);
                } else {
                    lemma_text_body_count(ts, i + 1, d + 1, start, ps);
                }
            },
            TokenModel::End => {
                if d - 1 >= start {
                    lemma_text_body_count(ts, i + 1, d - 1, start, ps);
                }
            },
            TokenModel::Eof => {},
            TokenModel::Error => {},
            _ => {
                lemma_text_body_count(ts, i + 1, d, start, ps);
            },
        }
    }
}

/// Reads the paragraphs of a `txBody` whose opening tag came just before `i0`.
fn parse_text_body(ts: &Vec<XmlToken>, i0: usize, d0: usize) -> (r: Result<(Vec<TextParagraph>, usize, usize), PptxError>)
    requires
        i0 <= ts@.len(),
        1 <= d0 <= i0,
    ensures
        match text_body_scan(tokens_view(ts@), i0 as int, d0 as int, d0 as int, Seq::empty()) {
            Ok((m, j, d)) => r matches Ok((x, jj, dd)) && paragraphs_view(x@) == m && jj == j && dd == d,
            Err(e) => r matches Err(x) && x == e,
        },
        r matches Ok((_, j, d)) ==> i0 <= j <= ts@.len() && d0 - 1 <= d <= j,
{
    let ghost tv = tokens_view(ts@);
    let mut ps: Vec<TextParagraph> = Vec::new();
    let mut i = i0;
    let mut d = d0;
    assert(paragraphs_view(ps@) =~= Seq::<ParagraphModel>::empty());
    loop
        invariant
            tv == tokens_view(ts@),
            i0 <= i <= ts@.len(),
            1 <= d0 <= d <= i,
            text_body_scan(tv, i0 as int, d0 as int, d0 as int, Seq::empty())
                == text_body_scan(tv, i as int, d as int, d0 as int, paragraphs_view(ps@)),
        decreases ts@.len() - i,
    {
        if i >= ts.len() {
            return Ok((ps, i, d));
        }
        assert(tv[i as int] == ts@[i as int]@);
        match &ts[i] {
            XmlToken::Start(c) => {
                if tag_is(c.as_str(), "p") {
                    match parse_paragraph(ts, i + 1, d + 1) {
                        Ok((p, j, d2)) => {
                            let ghost before = paragraphs_view(ps@);
                            ps.push(p);
                            assert(paragraphs_view(ps@) =~= before.push(p@));
                            i = j;
                            d = d2;
                        },
                        Err(e) => { return Err(e); },
                    }
                } else {
                    d = d + 1;
                    i = i + 1;
                }
            },
            XmlToken::End => {
                if d - 1 < d0 {
                    return Ok((ps, i + 1, d - 1));
                }
                d = d - 1;
                i = i + 1;
            },
            XmlToken::Eof => { return Ok((ps, i, d)); },
            XmlToken::Error => { return Err(PptxError::Xml); },
            _ => { i = i + 1; },
        }
    }
}


// ---------------------------------------------------------------------------
// `sp`: a shape.

/// The shape a `sp` element starts from: a rectangle at the origin with no
/// extent, no fill, no outline and no text.
pub open spec fn initial_shape() -> ShapeModel {
    ShapeModel {
        kind: KindModel::Rectangle,
        transform: Transform { off_x: 0, off_y: 0, ext_cx: 0, ext_cy: 0 },
        fill: FillModel::NoFill,
        outline: OutlineModel { width_emu: 0, color: ColorModel::NoColor },
        text: Seq::empty(),
    }
}

/// One tag of a shape that is read from its attributes alone (`off`, `ext`, `prstGeom`).
pub open spec fn shape_tag(c: Seq<char>, sh: ShapeModel) -> Result<ShapeModel, PptxError> {
    if named(c, "off"@) {
        match transform_from(tag_attrs(c), sh.transform, false) {
            Ok(t) => Ok(ShapeModel { transform: t, ..sh }),
            Err(e) => Err(e),
        }
    } else if named(c, "ext"@) {
        match transform_from(tag_attrs(c), sh.transform, true) {
            Ok(t) => Ok(ShapeModel { transform: t, ..sh }),
            Err(e) => Err(e),
        }
    } else if named(c, "prstGeom"@) {
        match preset_from(tag_attrs(c)) {
            Ok(k) => Ok(ShapeModel { kind: k, ..sh }),
            Err(e) => Err(e),
        }
    } else {
        Ok(sh)
    }
}

/// The shape read from position `i` at depth `d` (1 just inside `sp`):
/// `off`, `ext` and `prstGeom` set its geometry; an opening `solidFill` its
/// fill, `ln` its outline and `txBody` its text.
#[verifier::opaque]
pub open spec fn shape_scan(ts: Seq<TokenModel>, i: int, d: int, sh: ShapeModel) -> Result<(ShapeModel, int), PptxError>
    decreases ts.len() - i,
{
    if i < 0 || i >= ts.len() {
        Ok((sh, i))
    } else {
        match ts[i] {
            TokenModel::Start(c) => if named(c, "solidFill"@) {
                match fill_color_scan(ts, i + 1, d + 1, d + 1, ColorModel::NoColor) {
                    Err(e) => Err(e),
                    Ok((col, j, d2)) => if i < j <= ts.len() {
                        shape_scan(ts, j, d2, ShapeModel { fill: FillModel::Solid(col), ..sh })
                    } else {
                        Err(PptxError::Xml)
                    },
                }
            } else if named(c, "ln"@) {
                let w = ln_width_from(tag_attrs(c), 0);
                match outline_scan(ts, i + 1, d + 1, d + 1, OutlineModel { width_emu: w, color: ColorModel::NoColor }) {
                    Err(e) => Err(e),
                    Ok((o, j, d2)) => if i < j <= ts.len() {
                        shape_scan(ts, j, d2, ShapeModel { outline: o, ..sh })
                    } else {
                        Err(PptxError::Xml)
                    },
                }
            } else if named(c, "txBody"@) {
                match text_body_scan(ts, i + 1, d + 1, d + 1, Seq::empty()) {
                    Err(e) => Err(e),
                    Ok((ps, j, d2)) => if i < j <= ts.len() {
                        shape_scan(ts, j, d2, ShapeModel { text: ps, ..sh })
                    } else {
                        Err(PptxError::Xml)
                    },
                }
            } else {
                match shape_tag(c, sh) {
                    Err(e) => Err(e),
                    Ok(sh2) => shape_scan(ts, i + 1, d + 1, sh2),
                }
            },
            TokenModel::Empty(c) => match shape_tag(c, sh) {
                Err(e) => Err(e),
                Ok(sh2) => shape_scan(ts, i + 1, d, sh2),
            },
            TokenModel::End => if d - 1 == 0 {
                Ok((sh, i + 1))
            } else {
                shape_scan(ts, i + 1, d - 1, sh)
            },
            TokenModel::Eof => Ok((sh, i)),
            TokenModel::Error => Err(PptxError::Xml),
            _ => shape_scan(ts, i + 1, d, sh),
        }
    }
}

/// Applies an `off`, `ext` or `prstGeom` tag to a shape.
fn apply_shape_tag(content: &str, shape: &mut Shape) -> (r: Result<(), PptxError>)
    ensures
        match shape_tag(content@, old(shape)@) {
            Ok(m) => r is Ok && final(shape)@ == m,
            Err(e) => r == Err::<(), PptxError>(e),
        },
{
    if tag_is(content, "off") {
        match transform_attrs(&tag_attributes(content), shape.transform, false) {
            Ok(t) => {
                shape.transform = t;
                Ok(())
            },
            Err(e) => Err(e),
        }
    } else if tag_is(content, "ext") {
        match transform_attrs(&tag_attributes(content), shape.transform, true) {
            Ok(t) => {
                shape.transform = t;
                Ok(())
            },
            Err(e) => Err(e),
        }
    } else if tag_is(content, "prstGeom") {
        match preset_attrs(&tag_attributes(content)) {
            Ok(k) => {
                shape.kind = k;
                Ok(())
            },
            Err(e) => Err(e),
        }
    } else {
        Ok(())
    }
}

/// Reads a shape whose `sp` opening tag came just before `i0`.
fn parse_shape(ts: &Vec<XmlToken>, i0: usize) -> (r: Result<(Shape, usize), PptxError>)
    requires
        1 <= i0 <= ts@.len(),
    ensures
        match shape_scan(tokens_view(ts@), i0 as int, 1, initial_shape()) {
            Ok((m, j)) => r matches Ok((x, jj)) && x@ == m && jj == j,
            Err(e) => r matches Err(x) && x == e,
        },
        r matches Ok((_, j)) ==> i0 <= j <= ts@.len(),
{
    proof {
        reveal(shape_scan);
    }
    let ghost tv = tokens_view(ts@);
    let mut shape = Shape {
        kind: ShapeKind::Rectangle,
        transform: Transform::zero(),
        fill: FillStyle::NoFill,
        outline: OutlineStyle::default(),
        text: Vec::new(),
    };
    assert(shape@.text =~= Seq::<ParagraphModel>::empty());
    let mut i = i0;
    let mut d: usize = 1;
    loop
        invariant
            tv == tokens_view(ts@),
            i0 <= i <= ts@.len(),
            1 <= i0,
            1 <= d <= i,
            shape_scan(tv, i0 as int, 1, initial_shape()) == shape_scan(tv, i as int, d as int, shape@),
        decreases ts@.len() - i,
    {
        proof {
            reveal(shape_scan);
        }
        if i >= ts.len() {
            return Ok((shape, i));
        }
        assert(tv[i as int] == ts@[i as int]@);
        match &ts[i] {
            XmlToken::Start(c) => {
                if tag_is(c.as_str(), "solidFill") {
                    match parse_fill_color(ts, i + 1, d + 1) {
                        Ok((col, j, d2)) => {
                            shape.fill = FillStyle::Solid(col);
                            i = j;
                            d = d2;
                        },
                        Err(e) => { return Err(e); },
                    }
                } else if tag_is(c.as_str(), "ln") {
                    let w = ln_width_attrs(&tag_attributes(c.as_str()));
                    match parse_outline(ts, i + 1, d + 1, w) {
                        Ok((o, j, d2)) => {
                            shape.outline = o;
                            i = j;
                            d = d2;
                        },
                        Err(e) => { return Err(e); },
                    }
                } else if tag_is(c.as_str(), "txBody") {
                    match parse_text_body(ts, i + 1, d + 1) {
                        Ok((ps, j, d2)) => {
                            shape.text = ps;
                            i = j;
                            d = d2;
                        },
                        Err(e) => { return Err(e); },
                    }
                } else {
                    match apply_shape_tag(c.as_str(), &mut shape) {
                        Ok(()) => {},
                        Err(e) => { return Err(e); },
                    }
                    d = d + 1;
                    i = i + 1;
                }
            },
            XmlToken::Empty(c) => {
                match apply_shape_tag(c.as_str(), &mut shape) {
                    Ok(()) => {},
                    Err(e) => { return Err(e); },
                }
                i = i + 1;
            },
            XmlToken::End => {
                if d - 1 == 0 {
                    return Ok((shape, i + 1));
                }
                d = d - 1;
                i = i + 1;
            },
            XmlToken::Eof => { return Ok((shape, i)); },
            XmlToken::Error => { return Err(PptxError::Xml); },
            _ => { i = i + 1; },
        }
    }
}


// ---------------------------------------------------------------------------
// `pic`: a picture.

/// The placement and relationship id of a picture read from position `i` at
/// depth `d` (1 just inside `pic`): `off` and `ext` set its placement, a
/// self-closing `blip` its relationship id.
#[verifier::opaque]
pub open spec fn picture_scan(ts: Seq<TokenModel>, i: int, d: int, t: Transform, id: Seq<char>) -> Result<(Transform, Seq<char>, int), PptxError>
    decreases ts.len() - i,
{
    if i < 0 || i >= ts.len() {
        Ok((t, id, i))
    } else {
        match ts[i] {
            TokenModel::Start(c) => if named(c, "off"@) || named(c, "ext"@) {
                match transform_from(tag_attrs(c), t, named(c, "ext"@)) {
                    Err(e) => Err(e),
                    Ok(t2) => picture_scan(ts, i + 1, d + 1, t2, id),
                }
            } else {
                picture_scan(ts, i + 1, d + 1, t, id)
            },
            TokenModel::Empty(c) => if named(c, "off"@) || named(c, "ext"@) {
                match transform_from(tag_attrs(c), t, named(c, "ext"@)) {
                    Err(e) => Err(e),
                    Ok(t2) => picture_scan(ts, i + 1, d, t2, id),
                }
            } else if named(c, "blip"@) {
                match embed_from(tag_attrs(c), id) {
                    Err(e) => Err(e),
                    Ok(id2) => picture_scan(ts, i + 1, d, t, id2),
                }
            } else {
                picture_scan(ts, i + 1, d, t, id)
            },
            TokenModel::End => if d - 1 == 0 {
                Ok((t, id, i + 1))
            } else {
                picture_scan(ts, i + 1, d - 1, t, id)
            },
            TokenModel::Eof => Ok((t, id, i)),
            TokenModel::Error => Err(PptxError::Xml),
            _ => picture_scan(ts, i + 1, d, t, id),
        }
    }
}

/// The shape of a picture: its relationship id resolved through `rels` (the
/// empty path where the id is unknown), with no fill, outline or text.
pub open spec fn picture_shape(t: Transform, id: Seq<char>, rels: Map<Seq<char>, Seq<char>>) -> ShapeModel {
    ShapeModel {
        kind: KindModel::Picture {
            rel_id: match rels.get(id) {
                Some(p) => p,
                None => Seq::empty(),
            },
        },
        transform: t,
        fill: FillModel::NoFill,
        outline: OutlineModel { width_emu: 0, color: ColorModel::NoColor },
        text: Seq::empty(),
    }
}

/// Reads a picture whose `pic` opening tag came just before `i0`.
fn parse_picture(ts: &Vec<XmlToken>, i0: usize, rels: &NameMap<String>) -> (r: Result<(Shape, usize), PptxError>)
    requires
        1 <= i0 <= ts@.len(),
    ensures
        match picture_scan(tokens_view(ts@), i0 as int, 1, Transform { off_x: 0, off_y: 0, ext_cx: 0, ext_cy: 0 }, Seq::empty()) {
            Ok((t, id, j)) => r matches Ok((x, jj)) && x@ == picture_shape(t, id, rels@) && jj == j,
            Err(e) => r matches Err(x) && x == e,
        },
        r matches Ok((_, j)) ==> i0 <= j <= ts@.len(),
{
    proof {
        reveal(picture_scan);
    }
    let ghost tv = tokens_view(ts@);
    let mut t = Transform::zero();
    let mut id = String::new();
    let mut i = i0;
    let mut d: usize = 1;
    loop
        invariant_except_break
            picture_scan(tv, i0 as int, 1, Transform { off_x: 0, off_y: 0, ext_cx: 0, ext_cy: 0 }, Seq::empty())
                == picture_scan(tv, i as int, d as int, t, id@),
        invariant
            tv == tokens_view(ts@),
            i0 <= i <= ts@.len(),
            1 <= i0,
            1 <= d <= i,
        ensures
            picture_scan(tv, i0 as int, 1, Transform { off_x: 0, off_y: 0, ext_cx: 0, ext_cy: 0 }, Seq::empty())
                == Ok::<(Transform, Seq<char>, int), PptxError>((t, id@, i as int)),
        decreases ts@.len() - i,
    {
        proof {
            reveal(picture_scan);
        }
        if i >= ts.len() {
            break;
        }
        assert(tv[i as int] == ts@[i as int]@);
        match &ts[i] {
            XmlToken::Start(c) => {
                let is_ext = tag_is(c.as_str(), "ext");
                if tag_is(c.as_str(), "off") || is_ext {
                    match transform_attrs(&tag_attributes(c.as_str()), t, is_ext) {
                        Ok(t2) => { t = t2; },
                        Err(e) => { return Err(e); },
                    }
                }
                d = d + 1;
                i = i + 1;
            },
            XmlToken::Empty(c) => {
                let is_ext = tag_is(c.as_str(), "ext");
                if tag_is(c.as_str(), "off") || is_ext {
                    match transform_attrs(&tag_attributes(c.as_str()), t, is_ext) {
                        Ok(t2) => { t = t2; },
                        Err(e) => { return Err(e); },
                    }
                } else if tag_is(c.as_str(), "blip") {
                    match embed_attrs(&tag_attributes(c.as_str()), id) {
                        Ok(id2) => { id = id2; },
                        Err(e) => { return Err(e); },
                    }
                }
                i = i + 1;
            },
            XmlToken::End => {
                if d - 1 == 0 {
                    i = i + 1;
                    break;
                }
                d = d - 1;
                i = i + 1;
            },
            XmlToken::Eof => { break; },
            XmlToken::Error => { return Err(PptxError::Xml); },
            _ => { i = i + 1; },
        }
    }
    let resolved = match rels.get(id.as_str()) {
        Some(p) => p.clone(),
        None => String::new(),
    };
    let shape = Shape {
        kind: ShapeKind::Picture { rel_id: resolved },
        transform: t,
        fill: FillStyle::NoFill,
        outline: OutlineStyle::default(),
        text: Vec::new(),
    };
    assert(shape@.text =~= Seq::<ParagraphModel>::empty());
    Ok((shape, i))
}


// ---------------------------------------------------------------------------
// The slide.

/// A slide: its shapes in document order and its background color, if any.
#[derive(Debug)]
pub struct Slide {
    pub shapes: Vec<Shape>,
    pub background_color: Option<ColorSpec>,
}

/// The mathematical value of a [`Slide`].
pub struct SlideModel {
    pub shapes: Seq<ShapeModel>,
    pub background_color: Option<ColorModel>,
}

/// The views of a sequence of shapes.
pub open spec fn shapes_view(v: Seq<Shape>) -> Seq<ShapeModel> {
    v.map_values(|s: Shape| s@)
}

impl View for Slide {
    type V = SlideModel;

    open spec fn view(&self) -> SlideModel {
        SlideModel { shapes: shapes_view(self.shapes@), background_color: opt_color(self.background_color) }
    }
}

/// The slide read from position `i`, where `depth` elements are open: a `bg`
/// element at most three deep sets the background, each `sp` element adds a
/// shape and each `pic` element a picture.
pub open spec fn slide_scan(
    ts: Seq<TokenModel>,
    i: int,
    depth: int,
    shapes: Seq<ShapeModel>,
    bg: Option<ColorModel>,
    rels: Map<Seq<char>, Seq<char>>,
) -> Result<SlideModel, PptxError>
    decreases ts.len() - i,
{
    if i < 0 || i >= ts.len() {
        Ok(SlideModel { shapes: shapes, background_color: bg })
    } else {
        match ts[i] {
            TokenModel::Start(c) => if named(c, "bg"@) && depth + 1 <= 3 {
                match background_scan(ts, i + 1, 1, None) {
                    Err(e) => Err(e),
                    Ok((col, j)) => if i < j <= ts.len() {
                        slide_scan(ts, j, depth, shapes, col, rels)
                    } else {
                        Err(PptxError::Xml)
                    },
                }
            } else if named(c, "sp"@) {
                match shape_scan(ts, i + 1, 1, initial_shape()) {
                    Err(e) => Err(e),
                    Ok((sh, j)) => if i < j <= ts.len() {
                        slide_scan(ts, j, depth, shapes.push(sh), bg, rels)
                    } else {
                        Err(PptxError::Xml)
                    },
                }
            } else if named(c, "pic"@) {
                match picture_scan(ts, i + 1, 1, Transform { off_x: 0, off_y: 0, ext_cx: 0, ext_cy: 0 }, Seq::empty()) {
                    Err(e) => Err(e),
                    Ok((t, id, j)) => if i < j <= ts.len() {
                        slide_scan(ts, j, depth, shapes.push(picture_shape(t, id, rels)), bg, rels)
                    } else {
                        Err(PptxError::Xml)
                    },
                }
            } else {
                slide_scan(ts, i + 1, depth + 1, shapes, bg, rels)
            },
            TokenModel::End => slide_scan(ts, i + 1, if depth > 0 { depth - 1 } else { 0 }, shapes, bg, rels),
            TokenModel::Eof => Ok(SlideModel { shapes: shapes, background_color: bg }),
            TokenModel::Error => Err(PptxError::Xml),
            _ => slide_scan(ts, i + 1, depth, shapes, bg, rels),
        }
    }
}

/// The slide that a token sequence describes, given the slide's relationships.
pub open spec fn slide_of_tokens(ts: Seq<TokenModel>, rels: Map<Seq<char>, Seq<char>>) -> Result<SlideModel, PptxError> {
    slide_scan(ts, 0, 0, Seq::empty(), None, rels)
}

/// The slide that a slide part's XML describes, given the slide's relationships.
pub open spec fn slide_of_xml(xml: Seq<char>, rels: Map<Seq<char>, Seq<char>>) -> Result<SlideModel, PptxError> {
    slide_of_tokens(xml_tokens(xml), rels)
}

/// Reads a slide from its tokens; [`PptxError::ColorCut`] stands for an input
/// on which reading cannot go on.
fn scan_slide(ts: &Vec<XmlToken>, rels: &NameMap<String>) -> (r: Result<Slide, PptxError>)
    ensures
        match slide_of_tokens(tokens_view(ts@), rels@) {
            Ok(m) => r matches Ok(x) && x@ == m,
            Err(e) => r matches Err(x) && x == e,
        },
{
    let ghost tv = tokens_view(ts@);
    let mut shapes: Vec<Shape> = Vec::new();
    let mut bg: Option<ColorSpec> = None;
    let mut i: usize = 0;
    let mut depth: usize = 0;
    assert(shapes_view(shapes@) =~= Seq::<ShapeModel>::empty());
    loop
        invariant
            tv == tokens_view(ts@),
            i <= ts@.len(),
            depth <= i,
            slide_of_tokens(tv, rels@) == slide_scan(tv, i as int, depth as int, shapes_view(shapes@), opt_color(bg), rels@),
        decreases ts@.len() - i,
    {
        if i >= ts.len() {
            return Ok(Slide { shapes, background_color: bg });
        }
        assert(tv[i as int] == ts@[i as int]@);
        match &ts[i] {
            XmlToken::Start(c) => {
                if tag_is(c.as_str(), "bg") && depth + 1 <= 3 {
                    match parse_background(ts, i + 1) {
                        Ok((col, j)) => {
                            bg = col;
                            i = j;
                        },
                        Err(e) => { return Err(e); },
                    }
                } else if tag_is(c.as_str(), "sp") {
                    match parse_shape(ts, i + 1) {
                        Ok((sh, j)) => {
                            let ghost before = shapes_view(shapes@);
                            shapes.push(sh);
                            assert(shapes_view(shapes@) =~= before.push(sh@));
                            i = j;
                        },
                        Err(e) => { return Err(e); },
                    }
                } else if tag_is(c.as_str(), "pic") {
                    match parse_picture(ts, i + 1, rels) {
                        Ok((sh, j)) => {
                            let ghost before = shapes_view(shapes@);
                            shapes.push(sh);
                            assert(shapes_view(shapes@) =~= before.push(sh@));
                            i = j;
                        },
                        Err(e) => { return Err(e); },
                    }
                } else {
                    depth = depth + 1;
                    i = i + 1;
                }
            },
            XmlToken::End => {
                if depth > 0 {
                    depth = depth - 1;
                }
                i = i + 1;
            },
            XmlToken::Eof => { return Ok(Slide { shapes, background_color: bg }); },
            XmlToken::Error => { return Err(PptxError::Xml); },
            _ => { i = i + 1; },
        }
    }
}

impl Slide {
    /// Reads a slide from its tokens, given the slide's relationships
    /// (relationship id to package path).
    pub fn parse_tokens(ts: &Vec<XmlToken>, rels: &NameMap<String>) -> (r: Result<Slide, PptxError>)
        requires
            slide_of_tokens(tokens_view(ts@), rels@) != Err::<SlideModel, PptxError>(PptxError::ColorCut),
        ensures
            match slide_of_tokens(tokens_view(ts@), rels@) {
                Ok(m) => r matches Ok(x) && x@ == m,
                Err(e) => r matches Err(x) && x == e,
            },
    {
        scan_slide(ts, rels)
    }

    /// Reads a slide part, given the slide's relationships (relationship id
    /// to package path).
    pub fn parse(xml: &str, rels: &NameMap<String>) -> (r: Result<Slide, PptxError>)
        requires
            slide_of_xml(xml@, rels@) != Err::<SlideModel, PptxError>(PptxError::ColorCut),
        ensures
            match slide_of_xml(xml@, rels@) {
                Ok(m) => r matches Ok(x) && x@ == m,
                Err(e) => r matches Err(x) && x == e,
            },
    {
        let toks = xml_tokenize(xml);
        Slide::parse_tokens(&toks, rels)
    }

    /// Whether reading the slide part `xml` would reach an `srgbClr` value
    /// that cannot be cut into hex pairs (where [`Slide::parse`] may not be called).
    pub fn would_cut(xml: &str, rels: &NameMap<String>) -> (r: bool)
        ensures
            r == (slide_of_xml(xml@, rels@) == Err::<SlideModel, PptxError>(PptxError::ColorCut)),
    {
        let toks = xml_tokenize(xml);
        match scan_slide(&toks, rels) {
            Err(PptxError::ColorCut) => true,
            _ => false,
        }
    }
}

/// Whether an element path lies inside a text body; paragraphs are read by
/// the text body's own reader, so the shape reader never takes this route.
pub fn is_in_txbody(_depth: &[String]) -> (r: bool)
    ensures
        !r,
{
    false
}

/// Reading a slide keeps the shapes it already has, in front, and adds the
/// same shapes and background whatever shapes came before.
#[verifier::rlimit(100)]
#[verifier::spinoff_prover]
pub proof fn lemma_slide_keeps_shapes(
    ts: Seq<TokenModel>,
    i: int,
    depth: int,
    shapes: Seq<ShapeModel>,
    bg: Option<ColorModel>,
    rels: Map<Seq<char>, Seq<char>>,
)
    ensures
        slide_scan(ts, i, depth, shapes, bg, rels) == match slide_scan(ts, i, depth, Seq::empty(), bg, rels) {
            Ok(m) => Ok::<SlideModel, PptxError>(SlideModel { shapes: shapes + m.shapes, background_color: m.background_color }),
            Err(e) => Err(e),
        },
    decreases ts.len() - i,
{
    let none = Seq::<ShapeModel>::empty();
    assert(shapes + none =~= shapes);
    if 0 <= i < ts.len() {
        match ts[i] {
            TokenModel::Start(c) => {
                if named(c, "bg"@) && depth + 1 <= 3 {
                    match background_scan(ts, i + 1, 1, None) {
                        Err(e) => {},
                        Ok((col, j)) => {
                            if i < j <= ts.len() {
                                lemma_slide_keeps_shapes(ts, j, depth, shapes, col, rels);
                            }
                        },
                    }
                } else if named(c, "sp"@) {
                    match shape_scan(ts, i + 1, 1, initial_shape()) {
                        Err(e) => {},
                        Ok((sh, j)) => {
                            if i < j <= ts.len() {
                                lemma_slide_keeps_shapes(ts, j, depth, shapes.push(sh), bg, rels);
                                lemma_slide_keeps_shapes(ts, j, depth, none.push(sh), bg, rels);
                                match slide_scan(ts, j, depth, none, bg, rels) {
                                    Ok(m) => {
                                        assert(shapes.push(sh) + m.shapes =~= shapes + (none.push(sh) + m.shapes));
                                    },
                                    Err(e) => {},
                                }
                            }
                        },
                    }
                } else if named(c, "pic"@) {
                    match picture_scan(ts, i + 1, 1, Transform { off_x: 0, off_y: 0, ext_cx: 0, ext_cy: 0 }, Seq::empty()) {
                        Err(e) => {},
                        Ok((t, id, j)) => {
                            if i < j <= ts.len() {
                                let sh = picture_shape(t, id, rels);
                                lemma_slide_keeps_shapes(ts, j, depth, shapes.push(sh), bg, rels);
                                lemma_slide_keeps_shapes(ts, j, depth, none.push(sh), bg, rels);
                                match slide_scan(ts, j, depth, none, bg, rels) {
                                    Ok(m) => {
                                        assert(shapes.push(sh) + m.shapes =~= shapes + (none.push(sh) + m.shapes));
                                    },
                                    Err(e) => {},
                                }
                            }
                        },
                    }
                } else {
                    lemma_slide_keeps_shapes(ts, i + 1, depth + 1, shapes, bg, rels);
                }
            },
            TokenModel::End => {
                lemma_slide_keeps_shapes(ts, i + 1, if depth > 0 { depth - 1 } else { 0 }, shapes, bg, rels);
            },
            TokenModel::Eof => {},
            TokenModel::Error => {},
            _ => {
                lemma_slide_keeps_shapes(ts, i + 1, depth, shapes, bg, rels);
            },
        }
    }
}

/// Each opening `sp` tag of a slide gives one shape, the one read from that
/// tag, followed by the shapes of the rest of the slide.
#[verifier::rlimit(60)]
#[verifier::spinoff_prover]
pub proof fn lemma_slide_shape(ts: Seq<TokenModel>, i: int, depth: int, bg: Option<ColorModel>, rels: Map<Seq<char>, Seq<char>>)
    requires
        0 <= i < ts.len(),
        ts[i] is Start,
        named(ts[i]->Start_0, "sp"@),
        shape_scan(ts, i + 1, 1, initial_shape()) is Ok,
        i < shape_scan(ts, i + 1, 1, initial_shape())->Ok_0.1 <= ts.len(),
    ensures
        ({
            let (sh, j) = shape_scan(ts, i + 1, 1, initial_shape())->Ok_0;
            slide_scan(ts, i, depth, Seq::empty(), bg, rels) == match slide_scan(ts, j, depth, Seq::empty(), bg, rels) {
                Ok(m) => Ok::<SlideModel, PptxError>(SlideModel { shapes: seq![sh] + m.shapes, background_color: m.background_color }),
                Err(e) => Err(e),
            }
        }),
{
    reveal_strlit("bg");
    reveal_strlit("sp");
    lemma_names_differ(ts[i]->Start_0, "bg"@, "sp"@, 0);
    let (sh, j) = shape_scan(ts, i + 1, 1, initial_shape())->Ok_0;
    let none = Seq::<ShapeModel>::empty();
    lemma_slide_keeps_shapes(ts, j, depth, none.push(sh), bg, rels);
    assert(none.push(sh) =~= seq![sh]);
}

} // verus!
