use std::io::Write;

use pptx_render::error::PptxError;
use pptx_render::pptx::xml_types::{ColorSpec, FillStyle, ShapeKind, TextAlign};
use pptx_render::pptx::{discover_slides, load_slide_rels, parse_presentation_size, Presentation};

fn package(entries: &[(&str, &str)]) -> Vec<u8> {
    let mut w = zip::ZipWriter::new(std::io::Cursor::new(Vec::new()));
    let opts = zip::write::SimpleFileOptions::default()
        .compression_method(zip::CompressionMethod::Stored);
    for (name, data) in entries {
        w.start_file(*name, opts).unwrap();
        w.write_all(data.as_bytes()).unwrap();
    }
    w.finish().unwrap().into_inner()
}

const PRESENTATION: &str = r#"<?xml version="1.0" encoding="UTF-8" standalone="yes"?>
<p:presentation xmlns:p="http://schemas.openxmlformats.org/presentationml/2006/main">
<p:sldSz cx="12192000" cy="6858000"/><p:notesSz cx="6858000" cy="9144000"/>
</p:presentation>"#;

const PRESENTATION_RELS: &str = r#"<?xml version="1.0" encoding="UTF-8" standalone="yes"?>
<Relationships xmlns="http://schemas.openxmlformats.org/package/2006/relationships">
<Relationship Id="rId3" Type="http://schemas.openxmlformats.org/officeDocument/2006/relationships/theme" Target="theme/theme1.xml"/>
<Relationship Id="rId2" Type="http://schemas.openxmlformats.org/officeDocument/2006/relationships/slide" Target="slides/slide10.xml"/>
<Relationship Id="rId1" Type="http://schemas.openxmlformats.org/officeDocument/2006/relationships/slide" Target="slides/slide2.xml"/>
</Relationships>"#;

const SLIDE_SHAPES: &str = r#"<?xml version="1.0" encoding="UTF-8" standalone="yes"?>
<p:sld xmlns:a="http://schemas.openxmlformats.org/drawingml/2006/main" xmlns:p="http://schemas.openxmlformats.org/presentationml/2006/main">
<p:cSld><p:bg><p:bgPr><a:solidFill><a:srgbClr val="FF0000"/></a:solidFill></p:bgPr></p:bg>
<p:spTree>
<p:sp><p:spPr><a:xfrm><a:off x="100" y="200"/><a:ext cx="300" cy="400"/></a:xfrm><a:prstGeom prst="ellipse"/></p:spPr></p:sp>
</p:spTree></p:cSld></p:sld>"#;

const SLIDE_PICTURE: &str = r#"<?xml version="1.0" encoding="UTF-8" standalone="yes"?>
<p:sld xmlns:a="http://schemas.openxmlformats.org/drawingml/2006/main" xmlns:p="http://schemas.openxmlformats.org/presentationml/2006/main" xmlns:r="http://schemas.openxmlformats.org/officeDocument/2006/relationships">
<p:cSld><p:spTree>
<p:pic><p:nvPicPr><p:cNvPr id="4" name="Picture 3"/></p:nvPicPr><p:blipFill><a:blip r:embed="rId2"/></p:blipFill>
<p:spPr><a:xfrm><a:off x="10" y="20"/><a:ext cx="30" cy="40"/></a:xfrm></p:spPr></p:pic>
</p:spTree></p:cSld></p:sld>"#;

const SLIDE_PICTURE_RELS: &str = r#"<?xml version="1.0" encoding="UTF-8" standalone="yes"?>
<Relationships xmlns="http://schemas.openxmlformats.org/package/2006/relationships">
<Relationship Id="rId1" Type="http://schemas.openxmlformats.org/officeDocument/2006/relationships/slideLayout" Target="../slideLayouts/slideLayout1.xml"/>
<Relationship Id="rId2" Type="http://schemas.openxmlformats.org/officeDocument/2006/relationships/image" Target="../media/image1.png"/>
<Relationship Id="rId9" Type="http://schemas.openxmlformats.org/officeDocument/2006/relationships/hyperlink" Target="notes.xml"/>
<Relationship Id="" Type="http://schemas.openxmlformats.org/officeDocument/2006/relationships/hyperlink" Target="ignored.xml"/>
<Relationship Id="rId8" Type="http://schemas.openxmlformats.org/officeDocument/2006/relationships/hyperlink" Target="/ppt/abs.xml"/>
</Relationships>"#;

fn sample() -> Vec<u8> {
    package(&[
        ("ppt/presentation.xml", PRESENTATION),
        ("ppt/_rels/presentation.xml.rels", PRESENTATION_RELS),
        ("ppt/slides/slide2.xml", SLIDE_SHAPES),
        ("ppt/slides/slide10.xml", SLIDE_PICTURE),
        ("ppt/slides/_rels/slide10.xml.rels", SLIDE_PICTURE_RELS),
        ("ppt/media/image1.png", "not really a png"),
        ("docProps/app.xml", "<Properties/>"),
    ])
}

#[test]
fn open_reads_size_slides_and_media() {
    let pres = Presentation::open(&sample()).unwrap();
    assert_eq!(pres.slide_width_emu, 12192000);
    assert_eq!(pres.slide_height_emu, 6858000);
    assert_eq!(pres.slides.len(), 2);

    // slide2 comes before slide10: ordered by number, not by text or by listing.
    let first = &pres.slides[0];
    assert!(matches!(first.background_color, Some(ColorSpec::SrgbClr(255, 0, 0))));
    assert_eq!(first.shapes.len(), 1);
    assert!(matches!(first.shapes[0].kind, ShapeKind::Ellipse));
    assert_eq!(first.shapes[0].transform.off_x, 100);
    assert_eq!(first.shapes[0].transform.ext_cy, 400);

    let second = &pres.slides[1];
    assert!(second.background_color.is_none());
    assert_eq!(second.shapes.len(), 1);
    match &second.shapes[0].kind {
        ShapeKind::Picture { rel_id } => assert_eq!(rel_id, "ppt/media/image1.png"),
        _ => panic!("expected a picture"),
    }
    assert_eq!(second.shapes[0].transform.off_y, 20);
    assert_eq!(second.shapes[0].transform.ext_cx, 30);
    assert!(matches!(second.shapes[0].fill, FillStyle::NoFill));

    assert_eq!(pres.images.entries.len(), 1);
    assert_eq!(pres.images.entries[0].0, "ppt/media/image1.png");
    assert_eq!(pres.images.get("ppt/media/image1.png").unwrap(), b"not really a png");
}

#[test]
fn presentation_size_defaults_without_sld_sz() {
    let data = package(&[("ppt/presentation.xml", "<p:presentation xmlns:p=\"x\"/>")]);
    assert_eq!(parse_presentation_size(&data), Ok((9144000, 6858000)));
}

#[test]
fn presentation_size_reads_sld_sz() {
    assert_eq!(parse_presentation_size(&sample()), Ok((12192000, 6858000)));
}

#[test]
fn presentation_size_bad_number_is_value_error() {
    let data = package(&[("ppt/presentation.xml", "<p:presentation><p:sldSz cx=\"wide\" cy=\"1\"/></p:presentation>")]);
    assert_eq!(parse_presentation_size(&data), Err(PptxError::Value));
}

#[test]
fn presentation_size_missing_part_is_archive_error() {
    let data = package(&[("ppt/other.xml", "<x/>")]);
    assert_eq!(parse_presentation_size(&data), Err(PptxError::Archive));
}

#[test]
fn discover_orders_slides_by_number() {
    let paths = discover_slides(&sample()).unwrap();
    assert_eq!(paths, vec!["ppt/slides/slide2.xml".to_string(), "ppt/slides/slide10.xml".to_string()]);
}

#[test]
fn discover_keeps_absolute_targets_and_unnumbered_first() {
    let rels = r#"<Relationships>
<Relationship Type="a/slide" Target="/ppt/slides/slide3.xml"/>
<Relationship Type="a/slide" Target="slides/intro.xml"/>
<Relationship Type="a/slideLayout" Target="slideLayouts/slideLayout1.xml"/>
</Relationships>"#;
    let data = package(&[("ppt/_rels/presentation.xml.rels", rels)]);
    let paths = discover_slides(&data).unwrap();
    // An absolute target keeps its path without the leading '/'; its number is
    // not read after the prefix `slides/slide`, so it counts as 0, as does
    // `intro`; equal numbers keep their order.
    assert_eq!(paths, vec!["ppt/slides/slide3.xml".to_string(), "ppt/slides/intro.xml".to_string()]);
}

#[test]
fn discover_missing_rels_is_archive_error() {
    let data = package(&[("ppt/presentation.xml", PRESENTATION)]);
    assert_eq!(discover_slides(&data), Err(PptxError::Archive));
}

#[test]
fn discover_malformed_xml_is_xml_error() {
    let data = package(&[("ppt/_rels/presentation.xml.rels", "<Relationships><Relationship></Other></Relationships>")]);
    assert_eq!(discover_slides(&data), Err(PptxError::Xml));
}

#[test]
fn slide_rels_resolve_targets() {
    let rels = load_slide_rels(&sample(), "ppt/slides/slide10.xml").unwrap();
    assert_eq!(rels.get("rId1").unwrap(), "ppt/slideLayouts/slideLayout1.xml");
    assert_eq!(rels.get("rId2").unwrap(), "ppt/media/image1.png");
    assert_eq!(rels.get("rId9").unwrap(), "ppt/slides/notes.xml");
    assert_eq!(rels.get("rId8").unwrap(), "ppt/abs.xml");
    assert!(rels.get("").is_none());
    assert_eq!(rels.entries.len(), 4);
}

#[test]
fn slide_without_rels_part_has_none() {
    let rels = load_slide_rels(&sample(), "ppt/slides/slide2.xml").unwrap();
    assert!(rels.entries.is_empty());
}

#[test]
fn open_missing_slide_part_is_archive_error() {
    let data = package(&[
        ("ppt/presentation.xml", PRESENTATION),
        ("ppt/_rels/presentation.xml.rels", PRESENTATION_RELS),
        ("ppt/slides/slide2.xml", SLIDE_SHAPES),
    ]);
    assert!(matches!(Presentation::open(&data), Err(PptxError::Archive)));
}

#[test]
fn open_not_a_zip_is_archive_error() {
    assert!(matches!(Presentation::open(b"plain bytes"), Err(PptxError::Archive)));
}

#[test]
fn open_short_srgb_value_is_color_cut() {
    let slide = r#"<p:sld><p:cSld><p:spTree><p:sp><p:spPr><a:solidFill><a:srgbClr val="F0"/></a:solidFill></p:spPr></p:sp></p:spTree></p:cSld></p:sld>"#;
    let data = package(&[
        ("ppt/presentation.xml", PRESENTATION),
        ("ppt/_rels/presentation.xml.rels", "<Relationships><Relationship Type=\"x/slide\" Target=\"slides/slide1.xml\"/></Relationships>"),
        ("ppt/slides/slide1.xml", slide),
    ]);
    assert!(matches!(Presentation::open(&data), Err(PptxError::ColorCut)));
}

#[test]
fn open_text_and_alignment_through_package() {
    let slide = r#"<p:sld><p:cSld><p:spTree><p:sp><p:txBody><a:p><a:pPr algn="r"/><a:r><a:t>Hi</a:t></a:r></a:p></p:txBody></p:sp></p:spTree></p:cSld></p:sld>"#;
    let data = package(&[
        ("ppt/presentation.xml", PRESENTATION),
        ("ppt/_rels/presentation.xml.rels", "<Relationships><Relationship Type=\"x/slide\" Target=\"slides/slide1.xml\"/></Relationships>"),
        ("ppt/slides/slide1.xml", slide),
    ]);
    let pres = Presentation::open(&data).unwrap();
    let shape = &pres.slides[0].shapes[0];
    assert!(matches!(shape.kind, ShapeKind::Rectangle));
    assert_eq!(shape.text.len(), 1);
    assert!(matches!(shape.text[0].align, TextAlign::Right));
    assert_eq!(shape.text[0].runs[0].text, "Hi");
    assert!(pres.images.entries.is_empty());
}
