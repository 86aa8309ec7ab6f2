//! What the slide reader takes from the attributes of one tag.
use vstd::prelude::*;
use vstd::utf8::*;
use vstd::string::*;
use crate::error::PptxError;
use crate::number::{i64_literal, i32_literal, u8_hex_literal, parse_i64, parse_i32, parse_u8_hex};
use crate::strings::{utf8_to_string, utf8_valid, str_eq};
use crate::xml::{AttrModel, XmlAttr, attrs_view, key_is, attr_key_is, attr_local_key_is, local_part};
use super::xml_types::{Transform, ColorSpec, ColorModel, ShapeKind, KindModel, TextAlign, RunModel, TextRun};

verus! {

broadcast use vstd::utf8::group_utf8_lib;

/// An attribute value read as text (`std::str::from_utf8`).
pub open spec fn utf8_text(v: Seq<u8>) -> Result<Seq<char>, PptxError> {
    if valid_utf8(v) {
        Ok(decode_utf8(v))
    } else {
        Err(PptxError::Value)
    }
}

/// An attribute value read as an `i64`.
pub open spec fn i64_value(v: Seq<u8>) -> Result<i64, PptxError> {
    match i64_literal(v) {
        Some(n) => Ok(n as i64),
        None => Err(PptxError::Value),
    }
}

/// An attribute value read as an `i32`.
pub open spec fn i32_value(v: Seq<u8>) -> Result<i32, PptxError> {
    match i32_literal(v) {
        Some(n) => Ok(n as i32),
        None => Err(PptxError::Value),
    }
}

/// Reads an attribute value as text.
pub fn attr_text(v: &Vec<u8>) -> (r: Result<String, PptxError>)
    ensures
        match utf8_text(v@) {
            Ok(t) => r matches Ok(s) && s@ == t,
            Err(e) => r == Err::<String, PptxError>(e),
        },
{
    match utf8_to_string(v.as_slice()) {
        Some(s) => Ok(s),
        None => Err(PptxError::Value),
    }
}

/// Reads an attribute value as an `i64`.
pub fn attr_i64(v: &Vec<u8>) -> (r: Result<i64, PptxError>)
    ensures
        r == i64_value(v@),
{
    match parse_i64(v.as_slice()) {
        Some(n) => Ok(n),
        None => Err(PptxError::Value),
    }
}

/// Reads an attribute value as an `i32`.
pub fn attr_i32(v: &Vec<u8>) -> (r: Result<i32, PptxError>)
    ensures
        r == i32_value(v@),
{
    match parse_i32(v.as_slice()) {
        Some(n) => Ok(n),
        None => Err(PptxError::Value),
    }
}

// ---------------------------------------------------------------------------
// Offsets and extents (`<a:off x= y=>`, `<a:ext cx= cy=>`)

/// The transform after reading the `x`/`y` attributes (or, for an extent,
/// `cx`/`cy`) in order; the first malformed one is an error.
pub open spec fn transform_from(attrs: Seq<AttrModel>, t: Transform, extent: bool) -> Result<Transform, PptxError>
    decreases attrs.len(),
{
    if attrs.len() == 0 {
        Ok(t)
    } else {
        let a = attrs[0];
        let step: Result<Transform, PptxError> = if !extent && key_is(a, "x"@) {
            match i64_value(a.value) {
                Ok(v) => Ok(Transform { off_x: v, ..t }),
                Err(e) => Err(e),
            }
        } else if !extent && key_is(a, "y"@) {
            match i64_value(a.value) {
                Ok(v) => Ok(Transform { off_y: v, ..t }),
                Err(e) => Err(e),
            }
        } else if extent && key_is(a, "cx"@) {
            match i64_value(a.value) {
                Ok(v) => Ok(Transform { ext_cx: v, ..t }),
                Err(e) => Err(e),
            }
        } else if extent && key_is(a, "cy"@) {
            match i64_value(a.value) {
                Ok(v) => Ok(Transform { ext_cy: v, ..t }),
                Err(e) => Err(e),
            }
        } else {
            Ok(t)
        };
        match step {
            Ok(t2) => transform_from(attrs.drop_first(), t2, extent),
            Err(e) => Err(e),
        }
    }
}

/// Reads the offset (or, with `extent`, the extent) attributes of a tag into `t`.
pub fn transform_attrs(attrs: &Vec<XmlAttr>, t: Transform, extent: bool) -> (r: Result<Transform, PptxError>)
    ensures
        r == transform_from(attrs_view(attrs@), t, extent),
{
    let ghost av = attrs_view(attrs@);
    let mut cur = t;
    let mut i: usize = 0;
    assert(av.skip(0) =~= av);
    while i < attrs.len()
        invariant
            i <= attrs@.len(),
            av == attrs_view(attrs@),
            transform_from(av, t, extent) == transform_from(av.skip(i as int), cur, extent),
        decreases attrs@.len() - i,
    {
        let a = &attrs[i];
        assert(av.skip(i as int).drop_first() =~= av.skip(i + 1));
        assert(av.skip(i as int)[0] == a@);
        if !extent && attr_key_is(a, "x") {
            match attr_i64(&a.value) {
                Ok(v) => { cur.off_x = v; },
                Err(e) => { return Err(e); },
            }
        } else if !extent && attr_key_is(a, "y") {
            match attr_i64(&a.value) {
                Ok(v) => { cur.off_y = v; },
                Err(e) => { return Err(e); },
            }
        } else if extent && attr_key_is(a, "cx") {
            match attr_i64(&a.value) {
                Ok(v) => { cur.ext_cx = v; },
                Err(e) => { return Err(e); },
            }
        } else if extent && attr_key_is(a, "cy") {
            match attr_i64(&a.value) {
                Ok(v) => { cur.ext_cy = v; },
                Err(e) => { return Err(e); },
            }
        }
        i = i + 1;
    }
    assert(av.skip(i as int) =~= Seq::<AttrModel>::empty());
    Ok(cur)
}


// ---------------------------------------------------------------------------
// Preset geometry (`<a:prstGeom prst=>`)

/// The shape kind that a preset geometry name stands for.
pub open spec fn kind_of_name(n: Seq<char>) -> KindModel {
    if n == "rect"@ {
        KindModel::Rectangle
    } else if n == "roundRect"@ {
        KindModel::RoundedRectangle
    } else if n == "ellipse"@ {
        KindModel::Ellipse
    } else if n == "line"@ {
        KindModel::Line
    } else {
        KindModel::Preset(n)
    }
}

/// The kind named by the first `prst` attribute; a rectangle where there is none.
pub open spec fn preset_from(attrs: Seq<AttrModel>) -> Result<KindModel, PptxError>
    decreases attrs.len(),
{
    if attrs.len() == 0 {
        Ok(KindModel::Rectangle)
    } else if key_is(attrs[0], "prst"@) {
        match utf8_text(attrs[0].value) {
            Ok(n) => Ok(kind_of_name(n)),
            Err(e) => Err(e),
        }
    } else {
        preset_from(attrs.drop_first())
    }
}

/// Reads the preset geometry of a `prstGeom` tag.
pub fn preset_attrs(attrs: &Vec<XmlAttr>) -> (r: Result<ShapeKind, PptxError>)
    ensures
        match preset_from(attrs_view(attrs@)) {
            Ok(k) => r matches Ok(x) && x@ == k,
            Err(e) => r matches Err(x) && x == e,
        },
{
    let ghost av = attrs_view(attrs@);
    let mut i: usize = 0;
    assert(av.skip(0) =~= av);
    while i < attrs.len()
        invariant
            i <= attrs@.len(),
            av == attrs_view(attrs@),
            preset_from(av) == preset_from(av.skip(i as int)),
        decreases attrs@.len() - i,
    {
        let a = &attrs[i];
        assert(av.skip(i as int).drop_first() =~= av.skip(i + 1));
        assert(av.skip(i as int)[0] == a@);
        if attr_key_is(a, "prst") {
            let name = match attr_text(&a.value) {
                Ok(n) => n,
                Err(e) => { return Err(e); },
            };
            let n = name.as_str();
            if str_eq(n, "rect") {
                return Ok(ShapeKind::Rectangle);
            } else if str_eq(n, "roundRect") {
                return Ok(ShapeKind::RoundedRectangle);
            } else if str_eq(n, "ellipse") {
                return Ok(ShapeKind::Ellipse);
            } else if str_eq(n, "line") {
                return Ok(ShapeKind::Line);
            } else {
                return Ok(ShapeKind::Preset(name));
            }
        }
        i = i + 1;
    }
    Ok(ShapeKind::Rectangle)
}

// ---------------------------------------------------------------------------
// Colors (`<a:srgbClr val=>`, `<a:schemeClr val=>`)

/// Whether byte offset `k` of `b` is a character boundary (`str::is_char_boundary`).
pub open spec fn char_boundary(b: Seq<u8>, k: int) -> bool {
    k == 0 || k == b.len() || (0 < k < b.len() && !(0x80 <= b[k] <= 0xbf))
}

/// The hex pair cut out as `&hex[k..k + 2]` and read with `u8::from_str_radix(_, 16)`:
/// cutting past the end or inside a character is [`PptxError::ColorCut`].
pub open spec fn hex_pair(b: Seq<u8>, k: int) -> Result<u8, PptxError> {
    if k + 2 > b.len() || !char_boundary(b, k + 2) {
        Err(PptxError::ColorCut)
    } else {
        match u8_hex_literal(b.subrange(k, k + 2)) {
            Some(v) => Ok(v as u8),
            None => Err(PptxError::Value),
        }
    }
}

/// An `RRGGBB` value read as three hex pairs.
pub open spec fn srgb_value(v: Seq<u8>) -> Result<ColorModel, PptxError> {
    if !valid_utf8(v) {
        Err(PptxError::Value)
    } else {
        match hex_pair(v, 0) {
            Err(e) => Err(e),
            Ok(r) => match hex_pair(v, 2) {
                Err(e) => Err(e),
                Ok(g) => match hex_pair(v, 4) {
                    Err(e) => Err(e),
                    Ok(b) => Ok(ColorModel::Srgb(r, g, b)),
                },
            },
        }
    }
}

/// The color of an `srgbClr` tag: its first `val` attribute, or no color.
pub open spec fn srgb_from(attrs: Seq<AttrModel>) -> Result<ColorModel, PptxError>
    decreases attrs.len(),
{
    if attrs.len() == 0 {
        Ok(ColorModel::NoColor)
    } else if key_is(attrs[0], "val"@) {
        srgb_value(attrs[0].value)
    } else {
        srgb_from(attrs.drop_first())
    }
}

/// The color of a `schemeClr` tag: the theme name in its first `val` attribute, or no color.
pub open spec fn scheme_from(attrs: Seq<AttrModel>) -> Result<ColorModel, PptxError>
    decreases attrs.len(),
{
    if attrs.len() == 0 {
        Ok(ColorModel::NoColor)
    } else if key_is(attrs[0], "val"@) {
        match utf8_text(attrs[0].value) {
            Ok(n) => Ok(ColorModel::Scheme(n)),
            Err(e) => Err(e),
        }
    } else {
        scheme_from(attrs.drop_first())
    }
}

fn hex_pair_at(v: &Vec<u8>, k: usize) -> (r: Result<u8, PptxError>)
    requires
        k <= v@.len(),
    ensures
        r == hex_pair(v@, k as int),
{
    if v.len() < 2 || k > v.len() - 2 {
        return Err(PptxError::ColorCut);
    }
    if k + 2 < v.len() && 0x80 <= v[k + 2] && v[k + 2] <= 0xbf {
        return Err(PptxError::ColorCut);
    }
    let two = vstd::slice::slice_subrange(v.as_slice(), k, k + 2);
    match parse_u8_hex(two) {
        Some(x) => Ok(x),
        None => Err(PptxError::Value),
    }
}

/// Reads an `RRGGBB` value.
pub fn srgb_of_value(v: &Vec<u8>) -> (r: Result<ColorSpec, PptxError>)
    ensures
        match srgb_value(v@) {
            Ok(c) => r matches Ok(x) && x@ == c,
            Err(e) => r matches Err(x) && x == e,
        },
{
    if !utf8_valid(v.as_slice()) {
        return Err(PptxError::Value);
    }
    let r = match hex_pair_at(v, 0) {
        Ok(x) => x,
        Err(e) => { return Err(e); },
    };
    let g = match hex_pair_at(v, 2) {
        Ok(x) => x,
        Err(e) => { return Err(e); },
    };
    let b = match hex_pair_at(v, 4) {
        Ok(x) => x,
        Err(e) => { return Err(e); },
    };
    Ok(ColorSpec::SrgbClr(r, g, b))
}

/// Reads the color of an `srgbClr` (`scheme` false) or `schemeClr` (`scheme` true) tag.
pub fn color_attrs(attrs: &Vec<XmlAttr>, scheme: bool) -> (r: Result<ColorSpec, PptxError>)
    ensures
        match (if scheme { scheme_from(attrs_view(attrs@)) } else { srgb_from(attrs_view(attrs@)) }) {
            Ok(c) => r matches Ok(x) && x@ == c,
            Err(e) => r matches Err(x) && x == e,
        },
{
    let ghost av = attrs_view(attrs@);
    let mut i: usize = 0;
    assert(av.skip(0) =~= av);
    while i < attrs.len()
        invariant
            i <= attrs@.len(),
            av == attrs_view(attrs@),
            scheme_from(av) == scheme_from(av.skip(i as int)),
            srgb_from(av) == srgb_from(av.skip(i as int)),
        decreases attrs@.len() - i,
    {
        let a = &attrs[i];
        assert(av.skip(i as int).drop_first() =~= av.skip(i + 1));
        assert(av.skip(i as int)[0] == a@);
        if attr_key_is(a, "val") {
            if scheme {
                return match attr_text(&a.value) {
                    Ok(n) => Ok(ColorSpec::SchemeClr(n)),
                    Err(e) => Err(e),
                };
            } else {
                return srgb_of_value(&a.value);
            }
        }
        i = i + 1;
    }
    Ok(ColorSpec::NoColor)
}

// ---------------------------------------------------------------------------
// Outline width (`<a:ln w=>`)

/// The width after reading each `w` attribute in order: text that is not UTF-8
/// leaves it as it was, text that is not an `i64` makes it 0.
pub open spec fn ln_width_from(attrs: Seq<AttrModel>, w: i64) -> i64
    decreases attrs.len(),
{
    if attrs.len() == 0 {
        w
    } else {
        let a = attrs[0];
        let w2 = if key_is(a, "w"@) && valid_utf8(a.value) {
            match i64_literal(a.value) {
                Some(v) => v as i64,
                None => 0,
            }
        } else {
            w
        };
        ln_width_from(attrs.drop_first(), w2)
    }
}

/// Reads the width of an `ln` tag, starting from 0.
pub fn ln_width_attrs(attrs: &Vec<XmlAttr>) -> (w: i64)
    ensures
        w == ln_width_from(attrs_view(attrs@), 0),
{
    let ghost av = attrs_view(attrs@);
    let mut w: i64 = 0;
    let mut i: usize = 0;
    assert(av.skip(0) =~= av);
    while i < attrs.len()
        invariant
            i <= attrs@.len(),
            av == attrs_view(attrs@),
            ln_width_from(av, 0) == ln_width_from(av.skip(i as int), w),
        decreases attrs@.len() - i,
    {
        let a = &attrs[i];
        assert(av.skip(i as int).drop_first() =~= av.skip(i + 1));
        assert(av.skip(i as int)[0] == a@);
        if attr_key_is(a, "w") && utf8_valid(a.value.as_slice()) {
            w = match parse_i64(a.value.as_slice()) {
                Some(v) => v,
                None => 0,
            };
        }
        i = i + 1;
    }
    assert(av.skip(i as int) =~= Seq::<AttrModel>::empty());
    w
}

// ---------------------------------------------------------------------------
// Paragraph alignment (`<a:pPr algn=>`)

/// The alignment named by an `algn` value.
pub open spec fn align_of_name(n: Seq<char>) -> TextAlign {
    if n == "ctr"@ {
        TextAlign::Center
    } else if n == "r"@ {
        TextAlign::Right
    } else {
        TextAlign::Left
    }
}

/// The alignment after reading each `algn` attribute in order.
pub open spec fn align_from(attrs: Seq<AttrModel>, al: TextAlign) -> Result<TextAlign, PptxError>
    decreases attrs.len(),
{
    if attrs.len() == 0 {
        Ok(al)
    } else if key_is(attrs[0], "algn"@) {
        match utf8_text(attrs[0].value) {
            Ok(n) => align_from(attrs.drop_first(), align_of_name(n)),
            Err(e) => Err(e),
        }
    } else {
        align_from(attrs.drop_first(), al)
    }
}

/// Reads the alignment of a `pPr` tag, starting from `al`.
pub fn align_attrs(attrs: &Vec<XmlAttr>, al: TextAlign) -> (r: Result<TextAlign, PptxError>)
    ensures
        r == align_from(attrs_view(attrs@), al),
{
    let ghost av = attrs_view(attrs@);
    let mut cur = al;
    let mut i: usize = 0;
    assert(av.skip(0) =~= av);
    while i < attrs.len()
        invariant
            i <= attrs@.len(),
            av == attrs_view(attrs@),
            align_from(av, al) == align_from(av.skip(i as int), cur),
        decreases attrs@.len() - i,
    {
        let a = &attrs[i];
        assert(av.skip(i as int).drop_first() =~= av.skip(i + 1));
        assert(av.skip(i as int)[0] == a@);
        if attr_key_is(a, "algn") {
            let name = match attr_text(&a.value) {
                Ok(n) => n,
                Err(e) => { return Err(e); },
            };
            let n = name.as_str();
            cur = if str_eq(n, "ctr") {
                TextAlign::Center
            } else if str_eq(n, "r") {
                TextAlign::Right
            } else {
                TextAlign::Left
            };
        }
        i = i + 1;
    }
    assert(av.skip(i as int) =~= Seq::<AttrModel>::empty());
    Ok(cur)
}


// ---------------------------------------------------------------------------
// Run properties (`<a:rPr sz= b= i=>`) and typefaces (`<a:latin typeface=>`)

/// The run after reading its `sz`, `b` and `i` attributes in order; bold and
/// italic are on exactly where the value is `1`.
pub open spec fn run_props_from(attrs: Seq<AttrModel>, run: RunModel) -> Result<RunModel, PptxError>
    decreases attrs.len(),
{
    if attrs.len() == 0 {
        Ok(run)
    } else {
        let a = attrs[0];
        let step: Result<RunModel, PptxError> = if key_is(a, "sz"@) {
            match i32_value(a.value) {
                Ok(n) => Ok(RunModel { font_size_hundredths_pt: n, ..run }),
                Err(e) => Err(e),
            }
        } else if key_is(a, "b"@) {
            match utf8_text(a.value) {
                Ok(t) => Ok(RunModel { bold: t == "1"@, ..run }),
                Err(e) => Err(e),
            }
        } else if key_is(a, "i"@) {
            match utf8_text(a.value) {
                Ok(t) => Ok(RunModel { italic: t == "1"@, ..run }),
                Err(e) => Err(e),
            }
        } else {
            Ok(run)
        };
        match step {
            Ok(r2) => run_props_from(attrs.drop_first(), r2),
            Err(e) => Err(e),
        }
    }
}

/// Reads the attributes of an `rPr` tag into `run`.
pub fn run_props_attrs(attrs: &Vec<XmlAttr>, run: &mut TextRun) -> (r: Result<(), PptxError>)
    ensures
        match run_props_from(attrs_view(attrs@), old(run)@) {
            Ok(m) => r is Ok && final(run)@ == m,
            Err(e) => r == Err::<(), PptxError>(e),
        },
{
    let ghost av = attrs_view(attrs@);
    let ghost r0 = run@;
    let mut i: usize = 0;
    assert(av.skip(0) =~= av);
    while i < attrs.len()
        invariant
            i <= attrs@.len(),
            av == attrs_view(attrs@),
            r0 == old(run)@,
            run_props_from(av, r0) == run_props_from(av.skip(i as int), run@),
        decreases attrs@.len() - i,
    {
        let a = &attrs[i];
        assert(av.skip(i as int).drop_first() =~= av.skip(i + 1));
        assert(av.skip(i as int)[0] == a@);
        if attr_key_is(a, "sz") {
            match attr_i32(&a.value) {
                Ok(n) => { run.font_size_hundredths_pt = n; },
                Err(e) => { return Err(e); },
            }
        } else if attr_key_is(a, "b") {
            match attr_text(&a.value) {
                Ok(t) => { run.bold = str_eq(t.as_str(), "1"); },
                Err(e) => { return Err(e); },
            }
        } else if attr_key_is(a, "i") {
            match attr_text(&a.value) {
                Ok(t) => { run.italic = str_eq(t.as_str(), "1"); },
                Err(e) => { return Err(e); },
            }
        }
        i = i + 1;
    }
    assert(av.skip(i as int) =~= Seq::<AttrModel>::empty());
    Ok(())
}

/// The font family after reading each `typeface` attribute in order.
pub open spec fn typeface_from(attrs: Seq<AttrModel>, fam: Option<Seq<char>>) -> Result<Option<Seq<char>>, PptxError>
    decreases attrs.len(),
{
    if attrs.len() == 0 {
        Ok(fam)
    } else if key_is(attrs[0], "typeface"@) {
        match utf8_text(attrs[0].value) {
            Ok(t) => typeface_from(attrs.drop_first(), Some(t)),
            Err(e) => Err(e),
        }
    } else {
        typeface_from(attrs.drop_first(), fam)
    }
}

/// Reads the `typeface` of a `latin`, `cs` or `ea` tag into `run`.
pub fn typeface_attrs(attrs: &Vec<XmlAttr>, run: &mut TextRun) -> (r: Result<(), PptxError>)
    ensures
        match typeface_from(attrs_view(attrs@), old(run)@.font_family) {
            Ok(f) => r is Ok && final(run)@ == (RunModel { font_family: f, ..old(run)@ }),
            Err(e) => r == Err::<(), PptxError>(e),
        },
{
    let ghost av = attrs_view(attrs@);
    let ghost r0 = run@;
    let mut i: usize = 0;
    assert(av.skip(0) =~= av);
    while i < attrs.len()
        invariant
            i <= attrs@.len(),
            av == attrs_view(attrs@),
            r0 == old(run)@,
            run@ == (RunModel { font_family: run@.font_family, ..r0 }),
            typeface_from(av, r0.font_family) == typeface_from(av.skip(i as int), run@.font_family),
        decreases attrs@.len() - i,
    {
        let a = &attrs[i];
        assert(av.skip(i as int).drop_first() =~= av.skip(i + 1));
        assert(av.skip(i as int)[0] == a@);
        if attr_key_is(a, "typeface") {
            match attr_text(&a.value) {
                Ok(t) => { run.font_family = Some(t); },
                Err(e) => { return Err(e); },
            }
        }
        i = i + 1;
    }
    assert(av.skip(i as int) =~= Seq::<AttrModel>::empty());
    Ok(())
}

// ---------------------------------------------------------------------------
// Picture reference (`<a:blip r:embed=>`)

/// Whether an attribute is the picture's relationship reference (`r:embed`, or
/// any key whose local part is `embed`).
pub open spec fn is_embed_key(a: AttrModel) -> bool {
    key_is(a, "r:embed"@) || local_part(a.key) == encode_utf8("embed"@)
}

/// The relationship id after reading each embed attribute in order.
pub open spec fn embed_from(attrs: Seq<AttrModel>, id: Seq<char>) -> Result<Seq<char>, PptxError>
    decreases attrs.len(),
{
    if attrs.len() == 0 {
        Ok(id)
    } else if is_embed_key(attrs[0]) {
        match utf8_text(attrs[0].value) {
            Ok(t) => embed_from(attrs.drop_first(), t),
            Err(e) => Err(e),
        }
    } else {
        embed_from(attrs.drop_first(), id)
    }
}

/// Reads the relationship id of a `blip` tag, starting from `id`.
pub fn embed_attrs(attrs: &Vec<XmlAttr>, id: String) -> (r: Result<String, PptxError>)
    ensures
        match embed_from(attrs_view(attrs@), id@) {
            Ok(t) => r matches Ok(x) && x@ == t,
            Err(e) => r matches Err(x) && x == e,
        },
{
    let ghost av = attrs_view(attrs@);
    let ghost id0 = id@;
    let mut cur = id;
    let mut i: usize = 0;
    assert(av.skip(0) =~= av);
    while i < attrs.len()
        invariant
            i <= attrs@.len(),
            av == attrs_view(attrs@),
            id0 == id@,
            embed_from(av, id0) == embed_from(av.skip(i as int), cur@),
        decreases attrs@.len() - i,
    {
        let a = &attrs[i];
        assert(av.skip(i as int).drop_first() =~= av.skip(i + 1));
        assert(av.skip(i as int)[0] == a@);
        if attr_key_is(a, "r:embed") || attr_local_key_is(a, "embed") {
            match attr_text(&a.value) {
                Ok(t) => { cur = t; },
                Err(e) => { return Err(e); },
            }
        }
        i = i + 1;
    }
    assert(av.skip(i as int) =~= Seq::<AttrModel>::empty());
    Ok(cur)
}

// ---------------------------------------------------------------------------
// Slide size (`<p:sldSz cx= cy=>`)

/// The slide size after reading each `cx` and `cy` attribute in order.
pub open spec fn size_from(attrs: Seq<AttrModel>, w: i64, h: i64) -> Result<(i64, i64), PptxError>
    decreases attrs.len(),
{
    if attrs.len() == 0 {
        Ok((w, h))
    } else if key_is(attrs[0], "cx"@) {
        match i64_value(attrs[0].value) {
            Ok(v) => size_from(attrs.drop_first(), v, h),
            Err(e) => Err(e),
        }
    } else if key_is(attrs[0], "cy"@) {
        match i64_value(attrs[0].value) {
            Ok(v) => size_from(attrs.drop_first(), w, v),
            Err(e) => Err(e),
        }
    } else {
        size_from(attrs.drop_first(), w, h)
    }
}

/// Reads the `cx`/`cy` attributes of a `sldSz` tag over the size `(w, h)`.
pub fn size_attrs(attrs: &Vec<XmlAttr>, w: i64, h: i64) -> (r: Result<(i64, i64), PptxError>)
    ensures
        r == size_from(attrs_view(attrs@), w, h),
{
    let ghost av = attrs_view(attrs@);
    let mut cw = w;
    let mut ch = h;
    let mut i: usize = 0;
    assert(av.skip(0) =~= av);
    while i < attrs.len()
        invariant
            i <= attrs@.len(),
            av == attrs_view(attrs@),
            size_from(av, w, h) == size_from(av.skip(i as int), cw, ch),
        decreases attrs@.len() - i,
    {
        let a = &attrs[i];
        assert(av.skip(i as int).drop_first() =~= av.skip(i + 1));
        assert(av.skip(i as int)[0] == a@);
        if attr_key_is(a, "cx") {
            match attr_i64(&a.value) {
                Ok(v) => { cw = v; },
                Err(e) => { return Err(e); },
            }
        } else if attr_key_is(a, "cy") {
            match attr_i64(&a.value) {
                Ok(v) => { ch = v; },
                Err(e) => { return Err(e); },
            }
        }
        i = i + 1;
    }
    assert(av.skip(i as int) =~= Seq::<AttrModel>::empty());
    Ok((cw, ch))
}

// ---------------------------------------------------------------------------
// Relationships (`<Relationship Id= Type= Target=>`)

/// The texts of the keys `k1` and `k2` after reading each attribute in order,
/// starting from empty texts.
pub open spec fn text_pair_from(attrs: Seq<AttrModel>, k1: Seq<char>, k2: Seq<char>, a: Seq<char>, b: Seq<char>) -> Result<(Seq<char>, Seq<char>), PptxError>
    decreases attrs.len(),
{
    if attrs.len() == 0 {
        Ok((a, b))
    } else if key_is(attrs[0], k1) {
        match utf8_text(attrs[0].value) {
            Ok(t) => text_pair_from(attrs.drop_first(), k1, k2, t, b),
            Err(e) => Err(e),
        }
    } else if key_is(attrs[0], k2) {
        match utf8_text(attrs[0].value) {
            Ok(t) => text_pair_from(attrs.drop_first(), k1, k2, a, t),
            Err(e) => Err(e),
        }
    } else {
        text_pair_from(attrs.drop_first(), k1, k2, a, b)
    }
}

/// Reads the values of the keys `k1` and `k2` of a tag (empty where absent).
pub fn text_pair_attrs(attrs: &Vec<XmlAttr>, k1: &str, k2: &str) -> (r: Result<(String, String), PptxError>)
    ensures
        match text_pair_from(attrs_view(attrs@), k1@, k2@, Seq::empty(), Seq::empty()) {
            Ok((a, b)) => r matches Ok((x, y)) && x@ == a && y@ == b,
            Err(e) => r matches Err(x) && x == e,
        },
{
    let ghost av = attrs_view(attrs@);
    let mut a_text = String::new();
    let mut b_text = String::new();
    let mut i: usize = 0;
    assert(av.skip(0) =~= av);
    while i < attrs.len()
        invariant
            i <= attrs@.len(),
            av == attrs_view(attrs@),
            text_pair_from(av, k1@, k2@, Seq::empty(), Seq::empty())
                == text_pair_from(av.skip(i as int), k1@, k2@, a_text@, b_text@),
        decreases attrs@.len() - i,
    {
        let a = &attrs[i];
        assert(av.skip(i as int).drop_first() =~= av.skip(i + 1));
        assert(av.skip(i as int)[0] == a@);
        if attr_key_is(a, k1) {
            match attr_text(&a.value) {
                Ok(t) => { a_text = t; },
                Err(e) => { return Err(e); },
            }
        } else if attr_key_is(a, k2) {
            match attr_text(&a.value) {
                Ok(t) => { b_text = t; },
                Err(e) => { return Err(e); },
            }
        }
        i = i + 1;
    }
    assert(av.skip(i as int) =~= Seq::<AttrModel>::empty());
    Ok((a_text, b_text))
}

} // verus!
