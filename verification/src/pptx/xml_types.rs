//! The slide model: geometry, colors, fills, outlines, text and shapes,
//! each with a mathematical view.
use vstd::prelude::*;
use crate::strings::str_eq;

verus! {

/// EMU (English Metric Units) per inch: 914400 EMU = 1 inch.
pub const EMU_PER_INCH: i64 = 914400;

/// Position and extent of a shape on the slide, in EMU.
#[derive(Debug, Clone, Copy, PartialEq, Eq, Structural)]
pub struct Transform {
    pub off_x: i64,
    pub off_y: i64,
    pub ext_cx: i64,
    pub ext_cy: i64,
}

impl Transform {
    /// The transform at the origin with no extent.
    pub fn zero() -> (t: Transform)
        ensures
            t == (Transform { off_x: 0, off_y: 0, ext_cx: 0, ext_cy: 0 }),
    {
        Transform { off_x: 0, off_y: 0, ext_cx: 0, ext_cy: 0 }
    }
}

impl Default for Transform {
    fn default() -> (t: Transform)
        ensures
            t == (Transform { off_x: 0, off_y: 0, ext_cx: 0, ext_cy: 0 }),
    {
        Transform::zero()
    }
}

/// A color in RRGGBB form or a theme reference (simplified).
#[derive(Debug, Clone)]
pub enum ColorSpec {
    SrgbClr(u8, u8, u8),
    /// A theme color name; a few common ones map to fixed colors.
    SchemeClr(String),
    NoColor,
}

/// The mathematical value of a [`ColorSpec`].
pub enum ColorModel {
    Srgb(u8, u8, u8),
    Scheme(Seq<char>),
    NoColor,
}

impl View for ColorSpec {
    type V = ColorModel;

    open spec fn view(&self) -> ColorModel {
        match self {
            ColorSpec::SrgbClr(r, g, b) => ColorModel::Srgb(*r, *g, *b),
            ColorSpec::SchemeClr(n) => ColorModel::Scheme(n@),
            ColorSpec::NoColor => ColorModel::NoColor,
        }
    }
}

/// The RGBA value of a theme color name.
pub open spec fn scheme_rgba(name: Seq<char>) -> (u8, u8, u8, u8) {
    if name == "tx1"@ || name == "dk1"@ {
        (0, 0, 0, 255)
    } else if name == "bg1"@ || name == "lt1"@ {
        (255, 255, 255, 255)
    } else if name == "accent1"@ {
        (68, 114, 196, 255)
    } else if name == "accent2"@ {
        (237, 125, 49, 255)
    } else if name == "accent3"@ {
        (165, 165, 165, 255)
    } else if name == "accent4"@ {
        (255, 192, 0, 255)
    } else if name == "accent5"@ {
        (91, 155, 213, 255)
    } else if name == "accent6"@ {
        (112, 173, 71, 255)
    } else {
        (0, 0, 0, 255)
    }
}

/// The RGBA value of a color: an sRGB color is opaque, a theme color takes its
/// mapped value (black for unknown names), and no color is fully transparent black.
pub open spec fn color_rgba(c: ColorModel) -> (u8, u8, u8, u8) {
    match c {
        ColorModel::Srgb(r, g, b) => (r, g, b, 255),
        ColorModel::Scheme(name) => scheme_rgba(name),
        ColorModel::NoColor => (0, 0, 0, 0),
    }
}

/// Only the absence of a color is transparent: every sRGB and theme color is
/// opaque, and an sRGB color keeps its channels.
pub proof fn lemma_color_alpha(c: ColorModel)
    ensures
        (color_rgba(c).3 == 0) == (c is NoColor),
        !(c is NoColor) ==> color_rgba(c).3 == 255,
        c matches ColorModel::Srgb(r, g, b) ==> color_rgba(c) == (r, g, b, 255u8),
{
}

/// The theme colors with a fixed value: the text and first dark color are
/// opaque black, the background and first light color opaque white, the six
/// accents take the values of the default Office theme, and every other theme
/// name is opaque black.
pub proof fn lemma_theme_colors(other: Seq<char>)
    ensures
        color_rgba(ColorModel::Scheme("tx1"@)) == (0u8, 0u8, 0u8, 255u8),
        color_rgba(ColorModel::Scheme("dk1"@)) == (0u8, 0u8, 0u8, 255u8),
        color_rgba(ColorModel::Scheme("bg1"@)) == (255u8, 255u8, 255u8, 255u8),
        color_rgba(ColorModel::Scheme("lt1"@)) == (255u8, 255u8, 255u8, 255u8),
        color_rgba(ColorModel::Scheme("accent1"@)) == (68u8, 114u8, 196u8, 255u8),
        color_rgba(ColorModel::Scheme("accent2"@)) == (237u8, 125u8, 49u8, 255u8),
        color_rgba(ColorModel::Scheme("accent3"@)) == (165u8, 165u8, 165u8, 255u8),
        color_rgba(ColorModel::Scheme("accent4"@)) == (255u8, 192u8, 0u8, 255u8),
        color_rgba(ColorModel::Scheme("accent5"@)) == (91u8, 155u8, 213u8, 255u8),
        color_rgba(ColorModel::Scheme("accent6"@)) == (112u8, 173u8, 71u8, 255u8),
        (other != "tx1"@ && other != "dk1"@ && other != "bg1"@ && other != "lt1"@
            && other != "accent1"@ && other != "accent2"@ && other != "accent3"@
            && other != "accent4"@ && other != "accent5"@ && other != "accent6"@)
            ==> color_rgba(ColorModel::Scheme(other)) == (0u8, 0u8, 0u8, 255u8),
{
    reveal_strlit("tx1");
    reveal_strlit("dk1");
    reveal_strlit("bg1");
    reveal_strlit("lt1");
    reveal_strlit("accent1");
    reveal_strlit("accent2");
    reveal_strlit("accent3");
    reveal_strlit("accent4");
    reveal_strlit("accent5");
    reveal_strlit("accent6");
    assert("bg1"@[0] != "tx1"@[0] && "bg1"@[0] != "dk1"@[0]);
    assert("lt1"@[0] != "tx1"@[0] && "lt1"@[0] != "dk1"@[0]);
    assert("accent1"@[6] == '1');
    assert("accent2"@[6] == '2');
    assert("accent3"@[6] == '3');
    assert("accent4"@[6] == '4');
    assert("accent5"@[6] == '5');
    assert("accent6"@[6] == '6');
    assert("accent1"@.len() == 7 && "tx1"@.len() == 3 && "dk1"@.len() == 3 && "bg1"@.len() == 3 && "lt1"@.len() == 3);
}

impl ColorSpec {
    /// The color as an RGBA quadruple.
    pub fn to_rgba(&self) -> (rgba: (u8, u8, u8, u8))
        ensures
            rgba == color_rgba(self@),
    {
        match self {
            ColorSpec::SrgbClr(r, g, b) => (*r, *g, *b, 255),
            ColorSpec::SchemeClr(name) => {
                let n = name.as_str();
                if str_eq(n, "tx1") || str_eq(n, "dk1") {
                    (0, 0, 0, 255)
                } else if str_eq(n, "bg1") || str_eq(n, "lt1") {
                    (255, 255, 255, 255)
                } else if str_eq(n, "accent1") {
                    (68, 114, 196, 255)
                } else if str_eq(n, "accent2") {
                    (237, 125, 49, 255)
                } else if str_eq(n, "accent3") {
                    (165, 165, 165, 255)
                } else if str_eq(n, "accent4") {
                    (255, 192, 0, 255)
                } else if str_eq(n, "accent5") {
                    (91, 155, 213, 255)
                } else if str_eq(n, "accent6") {
                    (112, 173, 71, 255)
                } else {
                    (0, 0, 0, 255)
                }
            },
            ColorSpec::NoColor => (0, 0, 0, 0),
        }
    }
}

impl Default for ColorSpec {
    fn default() -> (c: ColorSpec)
        ensures
            c@ == ColorModel::NoColor,
    {
        ColorSpec::NoColor
    }
}


/// Fill style for a shape.
#[derive(Debug, Clone)]
pub enum FillStyle {
    Solid(ColorSpec),
    NoFill,
}

/// The mathematical value of a [`FillStyle`].
pub enum FillModel {
    Solid(ColorModel),
    NoFill,
}

impl View for FillStyle {
    type V = FillModel;

    open spec fn view(&self) -> FillModel {
        match self {
            FillStyle::Solid(c) => FillModel::Solid(c@),
            FillStyle::NoFill => FillModel::NoFill,
        }
    }
}

impl Default for FillStyle {
    fn default() -> (f: FillStyle)
        ensures
            f@ == FillModel::NoFill,
    {
        FillStyle::NoFill
    }
}

/// Outline (border) of a shape.
#[derive(Debug, Clone)]
pub struct OutlineStyle {
    pub width_emu: i64,
    pub color: ColorSpec,
}

/// The mathematical value of an [`OutlineStyle`].
pub struct OutlineModel {
    pub width_emu: i64,
    pub color: ColorModel,
}

impl View for OutlineStyle {
    type V = OutlineModel;

    open spec fn view(&self) -> OutlineModel {
        OutlineModel { width_emu: self.width_emu, color: self.color@ }
    }
}

impl Default for OutlineStyle {
    fn default() -> (o: OutlineStyle)
        ensures
            o@ == (OutlineModel { width_emu: 0, color: ColorModel::NoColor }),
    {
        OutlineStyle { width_emu: 0, color: ColorSpec::NoColor }
    }
}

/// A text run: a contiguous span of text with uniform formatting.
#[derive(Debug, Clone)]
pub struct TextRun {
    pub text: String,
    /// Font size in hundredths of a point, as read from `sz` (1800 where the run sets none).
    pub font_size_hundredths_pt: i32,
    pub bold: bool,
    pub italic: bool,
    pub color: ColorSpec,
    pub font_family: Option<String>,
}

/// The mathematical value of a [`TextRun`].
pub struct RunModel {
    pub text: Seq<char>,
    pub font_size_hundredths_pt: i32,
    pub bold: bool,
    pub italic: bool,
    pub color: ColorModel,
    pub font_family: Option<Seq<char>>,
}

impl View for TextRun {
    type V = RunModel;

    open spec fn view(&self) -> RunModel {
        RunModel {
            text: self.text@,
            font_size_hundredths_pt: self.font_size_hundredths_pt,
            bold: self.bold,
            italic: self.italic,
            color: self.color@,
            font_family: match self.font_family {
                Some(f) => Some(f@),
                None => None,
            },
        }
    }
}

/// The run a text run starts from: empty text at 18pt, upright, regular,
/// colored with the theme's text color `tx1`, in no particular family.
pub open spec fn default_run() -> RunModel {
    RunModel {
        text: Seq::empty(),
        font_size_hundredths_pt: 1800,
        bold: false,
        italic: false,
        color: ColorModel::Scheme("tx1"@),
        font_family: None,
    }
}

impl Default for TextRun {
    fn default() -> (r: TextRun)
        ensures
            r@ == default_run(),
    {
        TextRun {
            text: String::new(),
            font_size_hundredths_pt: 1800,
            bold: false,
            italic: false,
            color: ColorSpec::SchemeClr("tx1".to_owned()),
            font_family: None,
        }
    }
}

/// Text alignment.
#[derive(Debug, Clone, Copy, PartialEq, Eq, Structural)]
pub enum TextAlign {
    Left,
    Center,
    Right,
}

impl Default for TextAlign {
    fn default() -> (a: TextAlign)
        ensures
            a == TextAlign::Left,
    {
        TextAlign::Left
    }
}

/// A paragraph of text (one or more runs).
#[derive(Debug, Clone)]
pub struct TextParagraph {
    pub runs: Vec<TextRun>,
    pub align: TextAlign,
}

/// The mathematical value of a [`TextParagraph`].
pub struct ParagraphModel {
    pub runs: Seq<RunModel>,
    pub align: TextAlign,
}

impl View for TextParagraph {
    type V = ParagraphModel;

    open spec fn view(&self) -> ParagraphModel {
        ParagraphModel { runs: self.runs@.map_values(|r: TextRun| r@), align: self.align }
    }
}

impl Default for TextParagraph {
    fn default() -> (p: TextParagraph)
        ensures
            p@ == (ParagraphModel { runs: Seq::empty(), align: TextAlign::Left }),
    {
        let p = TextParagraph { runs: Vec::new(), align: TextAlign::Left };
        assert(p@.runs =~= Seq::<RunModel>::empty());
        p
    }
}

/// The geometry of a shape.
#[derive(Debug, Clone)]
pub enum ShapeKind {
    Rectangle,
    RoundedRectangle,
    Ellipse,
    Line,
    /// Preset geometry name from OOXML (e.g. "rightArrow").
    Preset(String),
    /// An image; `rel_id` holds the package path that the picture's relationship resolves to.
    Picture { rel_id: String },
}

/// The mathematical value of a [`ShapeKind`].
pub enum KindModel {
    Rectangle,
    RoundedRectangle,
    Ellipse,
    Line,
    Preset(Seq<char>),
    Picture { rel_id: Seq<char> },
}

impl View for ShapeKind {
    type V = KindModel;

    open spec fn view(&self) -> KindModel {
        match self {
            ShapeKind::Rectangle => KindModel::Rectangle,
            ShapeKind::RoundedRectangle => KindModel::RoundedRectangle,
            ShapeKind::Ellipse => KindModel::Ellipse,
            ShapeKind::Line => KindModel::Line,
            ShapeKind::Preset(n) => KindModel::Preset(n@),
            ShapeKind::Picture { rel_id } => KindModel::Picture { rel_id: rel_id@ },
        }
    }
}

/// A shape on a slide.
#[derive(Debug, Clone)]
pub struct Shape {
    pub kind: ShapeKind,
    pub transform: Transform,
    pub fill: FillStyle,
    pub outline: OutlineStyle,
    pub text: Vec<TextParagraph>,
}

/// The mathematical value of a [`Shape`].
pub struct ShapeModel {
    pub kind: KindModel,
    pub transform: Transform,
    pub fill: FillModel,
    pub outline: OutlineModel,
    pub text: Seq<ParagraphModel>,
}

impl View for Shape {
    type V = ShapeModel;

    open spec fn view(&self) -> ShapeModel {
        ShapeModel {
            kind: self.kind@,
            transform: self.transform,
            fill: self.fill@,
            outline: self.outline@,
            text: self.text@.map_values(|p: TextParagraph| p@),
        }
    }
}

} // verus!
