//! Planning how a slide is painted: the background, and for each shape its
//! outline geometry, fill, stroke, text and image. The painting itself, in
//! pixels, is done by the caller.
use vstd::prelude::*;
use crate::pptx::names::NameMap;
use crate::pptx::slide::Slide;
use crate::pptx::xml_types::{
    ColorModel, FillModel, FillStyle, KindModel, OutlineModel, OutlineStyle, Shape, ShapeKind,
    ShapeModel, color_rgba,
};

verus! {

/// The outline a shape is drawn with.
#[derive(Debug, Clone, Copy, PartialEq, Eq, Structural)]
pub enum Geometry {
    Rect,
    RoundedRect,
    Ellipse,
    Line,
    Image,
}

/// A stroke: its color and its width in EMU, where `None` stands for one pixel.
#[derive(Debug, Clone, Copy)]
pub struct PaintStroke {
    pub rgba: (u8, u8, u8, u8),
    pub width_emu: Option<i64>,
}

/// What painting a shape takes.
#[derive(Debug, Clone, Copy)]
pub struct PaintPlan {
    pub geometry: Geometry,
    /// The color the outline is filled with, if any.
    pub fill: Option<(u8, u8, u8, u8)>,
    /// The stroke along the outline, if any.
    pub stroke: Option<PaintStroke>,
    /// Whether the shape's paragraphs are laid out inside it.
    pub text: bool,
}

/// The color a slide is cleared with: its background color, or opaque white.
pub open spec fn background_of(bg: Option<ColorModel>) -> (u8, u8, u8, u8) {
    match bg {
        Some(c) => color_rgba(c),
        None => (255, 255, 255, 255),
    }
}

/// The fill color of a shape: that of a solid fill, none otherwise.
pub open spec fn fill_of(f: FillModel) -> Option<(u8, u8, u8, u8)> {
    match f {
        FillModel::Solid(c) => Some(color_rgba(c)),
        FillModel::NoFill => None,
    }
}

/// The border of a closed shape: stroked where it has a positive width and a
/// color that is not fully transparent.
pub open spec fn border_of(o: OutlineModel) -> Option<PaintStroke> {
    if o.width_emu > 0 && color_rgba(o.color).3 > 0 {
        Some(PaintStroke { rgba: color_rgba(o.color), width_emu: Some(o.width_emu) })
    } else {
        None
    }
}

/// The stroke of a line: none where its color is fully transparent; one pixel
/// wide where it has no positive width.
pub open spec fn line_of(o: OutlineModel) -> Option<PaintStroke> {
    if color_rgba(o.color).3 == 0 {
        None
    } else {
        Some(PaintStroke {
            rgba: color_rgba(o.color),
            width_emu: if o.width_emu > 0 { Some(o.width_emu) } else { None },
        })
    }
}

/// How a shape is painted: rectangles, preset shapes, rounded rectangles and
/// ellipses are filled, bordered and carry text; a line is only stroked; a
/// picture only shows its image.
pub open spec fn plan_of(s: ShapeModel) -> PaintPlan {
    match s.kind {
        KindModel::Rectangle | KindModel::Preset(_) =>
            PaintPlan { geometry: Geometry::Rect, fill: fill_of(s.fill), stroke: border_of(s.outline), text: true },
        KindModel::RoundedRectangle =>
            PaintPlan { geometry: Geometry::RoundedRect, fill: fill_of(s.fill), stroke: border_of(s.outline), text: true },
        KindModel::Ellipse =>
            PaintPlan { geometry: Geometry::Ellipse, fill: fill_of(s.fill), stroke: border_of(s.outline), text: true },
        KindModel::Line =>
            PaintPlan { geometry: Geometry::Line, fill: None, stroke: line_of(s.outline), text: false },
        KindModel::Picture { .. } =>
            PaintPlan { geometry: Geometry::Image, fill: None, stroke: None, text: false },
    }
}

/// The color a slide is cleared with.
pub fn background_rgba(slide: &Slide) -> (r: (u8, u8, u8, u8))
    ensures
        r == background_of(slide@.background_color),
{
    match &slide.background_color {
        Some(c) => c.to_rgba(),
        None => (255, 255, 255, 255),
    }
}

fn fill_rgba(fill: &FillStyle) -> (r: Option<(u8, u8, u8, u8)>)
    ensures
        r == fill_of(fill@),
{
    match fill {
        FillStyle::Solid(c) => Some(c.to_rgba()),
        FillStyle::NoFill => None,
    }
}

fn border_stroke(o: &OutlineStyle) -> (r: Option<PaintStroke>)
    ensures
        r == border_of(o@),
{
    if o.width_emu > 0 {
        let rgba = o.color.to_rgba();
        if rgba.3 > 0 {
            return Some(PaintStroke { rgba, width_emu: Some(o.width_emu) });
        }
    }
    None
}

fn line_stroke(o: &OutlineStyle) -> (r: Option<PaintStroke>)
    ensures
        r == line_of(o@),
{
    let rgba = o.color.to_rgba();
    if rgba.3 == 0 {
        return None;
    }
    let width_emu = if o.width_emu > 0 { Some(o.width_emu) } else { None };
    Some(PaintStroke { rgba, width_emu })
}

/// Plans how a shape is painted.
pub fn plan_shape(shape: &Shape) -> (r: PaintPlan)
    ensures
        r == plan_of(shape@),
{
    match &shape.kind {
        ShapeKind::Rectangle | ShapeKind::Preset(_) => PaintPlan {
            geometry: Geometry::Rect,
            fill: fill_rgba(&shape.fill),
            stroke: border_stroke(&shape.outline),
            text: true,
        },
        ShapeKind::RoundedRectangle => PaintPlan {
            geometry: Geometry::RoundedRect,
            fill: fill_rgba(&shape.fill),
            stroke: border_stroke(&shape.outline),
            text: true,
        },
        ShapeKind::Ellipse => PaintPlan {
            geometry: Geometry::Ellipse,
            fill: fill_rgba(&shape.fill),
            stroke: border_stroke(&shape.outline),
            text: true,
        },
        ShapeKind::Line => PaintPlan {
            geometry: Geometry::Line,
            fill: None,
            stroke: line_stroke(&shape.outline),
            text: false,
        },
        ShapeKind::Picture { .. } => PaintPlan {
            geometry: Geometry::Image,
            fill: None,
            stroke: None,
            text: false,
        },
    }
}

/// The bytes of a picture shape's image, looked up by the package path its
/// relationship resolved to; none for other shapes or a missing image.
pub fn picture_data<'a>(images: &'a NameMap<Vec<u8>>, shape: &Shape) -> (r: Option<&'a Vec<u8>>)
    ensures
        match shape@.kind {
            KindModel::Picture { rel_id } => match images@.get(rel_id) {
                Some(b) => r matches Some(x) && x@ == b,
                None => r is None,
            },
            _ => r is None,
        },
{
    match &shape.kind {
        ShapeKind::Picture { rel_id } => images.get(rel_id.as_str()),
        _ => None,
    }
}

/// Nothing is stroked in a fully transparent color, only lines are ever one
/// pixel wide, and only closed shapes are filled or carry text.
pub proof fn lemma_plan_strokes(s: ShapeModel)
    ensures
        plan_of(s).stroke is Some ==> plan_of(s).stroke->Some_0.rgba.3 > 0,
        plan_of(s).stroke is Some && plan_of(s).stroke->Some_0.width_emu is None
            ==> plan_of(s).geometry == Geometry::Line,
        plan_of(s).stroke is Some && plan_of(s).stroke->Some_0.width_emu is Some
            ==> plan_of(s).stroke->Some_0.width_emu->Some_0 > 0,
        (plan_of(s).fill is Some || plan_of(s).text) ==> (plan_of(s).geometry != Geometry::Line
            && plan_of(s).geometry != Geometry::Image),
{
}

/// The paint of each kind of shape: a rectangle or preset shape is drawn as a
/// rectangle, a rounded rectangle and an ellipse as themselves; every closed
/// shape is filled with the RGBA of its solid fill color (and only when it has
/// one), bordered where its outline has a positive width and a visible color,
/// and carries its text; a line is never filled, and is stroked in its outline
/// color (one pixel wide without a positive width) unless that is fully
/// transparent; a picture is only its image.
pub proof fn lemma_plan_by_kind(s: ShapeModel)
    ensures
        (s.kind is Rectangle || s.kind is Preset) ==> plan_of(s).geometry == Geometry::Rect,
        s.kind is RoundedRectangle ==> plan_of(s).geometry == Geometry::RoundedRect,
        s.kind is Ellipse ==> plan_of(s).geometry == Geometry::Ellipse,
        s.kind is Line ==> plan_of(s).geometry == Geometry::Line,
        s.kind is Picture ==> plan_of(s).geometry == Geometry::Image,
        !(s.kind is Line || s.kind is Picture) ==> {
            &&& plan_of(s).text
            &&& (s.fill matches FillModel::Solid(c) ==> plan_of(s).fill == Some(color_rgba(c)))
            &&& (s.fill is NoFill ==> plan_of(s).fill is None)
            &&& (plan_of(s).stroke is Some <==> (s.outline.width_emu > 0 && color_rgba(s.outline.color).3 != 0))
            &&& (plan_of(s).stroke is Some ==> plan_of(s).stroke->Some_0.rgba == color_rgba(s.outline.color)
                && plan_of(s).stroke->Some_0.width_emu == Some(s.outline.width_emu))
        },
        s.kind is Line ==> {
            &&& plan_of(s).fill is None
            &&& !plan_of(s).text
            &&& (plan_of(s).stroke is Some <==> color_rgba(s.outline.color).3 != 0)
            &&& (plan_of(s).stroke is Some ==> plan_of(s).stroke->Some_0.rgba == color_rgba(s.outline.color))
            &&& (plan_of(s).stroke is Some && s.outline.width_emu > 0 ==> plan_of(s).stroke->Some_0.width_emu == Some(s.outline.width_emu))
            &&& (plan_of(s).stroke is Some && s.outline.width_emu <= 0 ==> plan_of(s).stroke->Some_0.width_emu is None)
        },
        s.kind is Picture ==> plan_of(s).fill is None && plan_of(s).stroke is None && !plan_of(s).text,
{
}

} // verus!
