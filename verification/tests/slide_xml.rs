use pptx_render::error::PptxError;
use pptx_render::pptx::names::NameMap;
use pptx_render::pptx::slide::{is_in_txbody, Slide};
use pptx_render::pptx::xml_types::{ColorSpec, FillStyle, ShapeKind, TextAlign};

fn no_rels() -> NameMap<String> {
    NameMap::new()
}

const SHAPE: &str = r#"<?xml version="1.0" encoding="UTF-8" standalone="yes"?>
<p:sld xmlns:a="http://schemas.openxmlformats.org/drawingml/2006/main" xmlns:p="http://schemas.openxmlformats.org/presentationml/2006/main">
<p:cSld><p:spTree>
<p:sp><p:spPr><a:xfrm><a:off x="100" y="200"/><a:ext cx="300" cy="400"/></a:xfrm><a:prstGeom prst="ellipse"/>
<a:solidFill><a:schemeClr val="accent1"/></a:solidFill>
<a:ln w="12700"><a:solidFill><a:srgbClr val="00FF00"/></a:solidFill></a:ln></p:spPr>
<p:txBody><a:bodyPr/><a:p><a:pPr algn="ctr"/><a:r><a:rPr lang="en-US" sz="2400" b="1"><a:solidFill><a:srgbClr val="112233"/></a:solidFill><a:latin typeface="Arial"/></a:rPr><a:t>Hello &amp; bye</a:t></a:r></a:p></p:txBody></p:sp>
</p:spTree></p:cSld></p:sld>"#;

#[test]
fn shape_geometry_fill_outline_and_text() {
    let slide = Slide::parse(SHAPE, &no_rels()).unwrap();
    assert!(slide.background_color.is_none());
    assert_eq!(slide.shapes.len(), 1);
    let s = &slide.shapes[0];
    assert!(matches!(s.kind, ShapeKind::Ellipse));
    assert_eq!((s.transform.off_x, s.transform.off_y, s.transform.ext_cx, s.transform.ext_cy), (100, 200, 300, 400));
    match &s.fill {
        FillStyle::Solid(ColorSpec::SchemeClr(n)) => assert_eq!(n, "accent1"),
        _ => panic!("expected a theme fill"),
    }
    assert_eq!(s.outline.width_emu, 12700);
    assert!(matches!(s.outline.color, ColorSpec::SrgbClr(0, 255, 0)));
    assert_eq!(s.text.len(), 1);
    assert!(matches!(s.text[0].align, TextAlign::Center));
    let run = &s.text[0].runs[0];
    assert_eq!(run.text, "Hello & bye");
    assert_eq!(run.font_size_hundredths_pt, 2400);
    assert!(run.bold);
    assert!(!run.italic);
    assert!(matches!(run.color, ColorSpec::SrgbClr(0x11, 0x22, 0x33)));
    assert_eq!(run.font_family.as_deref(), Some("Arial"));
}

#[test]
fn run_defaults_apply_without_properties() {
    let xml = "<p:sld><p:sp><p:txBody><a:p><a:r><a:t>x</a:t></a:r></a:p></p:txBody></p:sp></p:sld>";
    let slide = Slide::parse(xml, &no_rels()).unwrap();
    let run = &slide.shapes[0].text[0].runs[0];
    assert_eq!(run.font_size_hundredths_pt, 1800);
    assert!(!run.bold && !run.italic);
    match &run.color {
        ColorSpec::SchemeClr(n) => assert_eq!(n, "tx1"),
        _ => panic!("expected the theme text color"),
    }
    assert!(run.font_family.is_none());
    assert!(matches!(slide.shapes[0].text[0].align, TextAlign::Left));
}

#[test]
fn preset_and_line_geometry() {
    let xml = r#"<p:sld><p:sp><a:prstGeom prst="rightArrow"/></p:sp><p:sp><a:prstGeom prst="line"/></p:sp><p:sp><a:prstGeom prst="roundRect"/></p:sp><p:sp/></p:sld>"#;
    let slide = Slide::parse(xml, &no_rels()).unwrap();
    assert_eq!(slide.shapes.len(), 3);
    match &slide.shapes[0].kind {
        ShapeKind::Preset(n) => assert_eq!(n, "rightArrow"),
        _ => panic!("expected a preset"),
    }
    assert!(matches!(slide.shapes[1].kind, ShapeKind::Line));
    assert!(matches!(slide.shapes[2].kind, ShapeKind::RoundedRectangle));
}

#[test]
fn open_sp_tags_each_give_a_shape() {
    let xml = r#"<p:sld><p:sp></p:sp><p:sp><p:nvSpPr/></p:sp></p:sld>"#;
    let slide = Slide::parse(xml, &no_rels()).unwrap();
    assert_eq!(slide.shapes.len(), 2);
    assert!(matches!(slide.shapes[0].kind, ShapeKind::Rectangle));
    assert!(matches!(slide.shapes[0].fill, FillStyle::NoFill));
    assert_eq!(slide.shapes[0].outline.width_emu, 0);
    assert!(matches!(slide.shapes[0].outline.color, ColorSpec::NoColor));
}

#[test]
fn background_from_theme_color() {
    let xml = r#"<p:sld><p:cSld><p:bg><p:bgRef idx="1001"><a:schemeClr val="bg1"/></p:bgRef></p:bg></p:cSld></p:sld>"#;
    let slide = Slide::parse(xml, &no_rels()).unwrap();
    match &slide.background_color {
        Some(ColorSpec::SchemeClr(n)) => assert_eq!(n, "bg1"),
        _ => panic!("expected a theme background"),
    }
}

#[test]
fn picture_resolves_through_relationships() {
    let mut rels = NameMap::new();
    rels.insert("rId5".to_string(), "ppt/media/image7.jpeg".to_string());
    let xml = r#"<p:sld><p:pic><p:blipFill><a:blip r:embed="rId5"/></p:blipFill><a:off x="1" y="2"/><a:ext cx="3" cy="4"/></p:pic><p:pic><a:blip r:embed="rId6"/></p:pic></p:sld>"#;
    let slide = Slide::parse(xml, &rels).unwrap();
    assert_eq!(slide.shapes.len(), 2);
    match &slide.shapes[0].kind {
        ShapeKind::Picture { rel_id } => assert_eq!(rel_id, "ppt/media/image7.jpeg"),
        _ => panic!("expected a picture"),
    }
    assert_eq!((slide.shapes[0].transform.off_x, slide.shapes[0].transform.ext_cy), (1, 4));
    match &slide.shapes[1].kind {
        ShapeKind::Picture { rel_id } => assert_eq!(rel_id, ""),
        _ => panic!("expected a picture"),
    }
}

#[test]
fn malformed_xml_is_xml_error() {
    assert!(matches!(Slide::parse("<p:sld><p:sp></p:wrong></p:sld>", &no_rels()), Err(PptxError::Xml)));
}

#[test]
fn bad_offset_is_value_error() {
    let xml = r#"<p:sld><p:sp><a:off x="left" y="0"/></p:sp></p:sld>"#;
    assert!(matches!(Slide::parse(xml, &no_rels()), Err(PptxError::Value)));
}

#[test]
fn bad_hex_is_value_error() {
    let xml = r#"<p:sld><p:sp><a:solidFill><a:srgbClr val="GG0000"/></a:solidFill></p:sp></p:sld>"#;
    assert!(!Slide::would_cut(xml, &no_rels()));
    assert!(matches!(Slide::parse(xml, &no_rels()), Err(PptxError::Value)));
}

#[test]
fn short_hex_would_cut() {
    let xml = r#"<p:sld><p:sp><a:solidFill><a:srgbClr val="ABCD"/></a:solidFill></p:sp></p:sld>"#;
    assert!(Slide::would_cut(xml, &no_rels()));
    let fine = r#"<p:sld><p:sp><a:solidFill><a:srgbClr val="ABCDEF"/></a:solidFill></p:sp></p:sld>"#;
    assert!(!Slide::would_cut(fine, &no_rels()));
}

#[test]
fn hex_with_trailing_characters_uses_first_six() {
    let xml = r#"<p:sld><p:sp><a:solidFill><a:srgbClr val="0A0B0Czz"/></a:solidFill></p:sp></p:sld>"#;
    let slide = Slide::parse(xml, &no_rels()).unwrap();
    assert!(matches!(slide.shapes[0].fill, FillStyle::Solid(ColorSpec::SrgbClr(10, 11, 12))));
}

#[test]
fn deep_background_is_ignored() {
    let xml = r#"<p:sld><p:cSld><p:x><p:bg><a:srgbClr val="FFFFFF"/></p:bg></p:x></p:cSld></p:sld>"#;
    let slide = Slide::parse(xml, &no_rels()).unwrap();
    assert!(slide.background_color.is_none());
}

#[test]
fn txbody_route_is_never_taken() {
    assert!(!is_in_txbody(&[]));
    assert!(!is_in_txbody(&["txBody".to_string()]));
}
