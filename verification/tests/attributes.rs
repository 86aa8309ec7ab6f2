use pptx_render::error::PptxError;
use pptx_render::pptx::attrs::{
    align_attrs, color_attrs, embed_attrs, ln_width_attrs, preset_attrs, run_props_attrs, size_attrs,
    text_pair_attrs, transform_attrs,
};
use pptx_render::pptx::xml_types::{ColorSpec, ShapeKind, TextAlign, TextRun, Transform};
use pptx_render::pptx::{rels_of_tokens, size_of_tokens, slide_paths};
use pptx_render::xml::{tag_attributes, tag_is, XmlAttr, XmlToken};

fn attr(k: &str, v: &[u8]) -> XmlAttr {
    XmlAttr { key: k.as_bytes().to_vec(), value: v.to_vec() }
}

#[test]
fn tag_names_and_attributes_through_quick_xml() {
    assert!(tag_is("a:off x=\"1\"", "off"));
    assert!(tag_is("off", "off"));
    assert!(!tag_is("a:offset", "off"));
    assert!(!tag_is("a:b:off", "off"));
    assert!(tag_is("a:b:off", "b:off"));
    let attrs = tag_attributes("a:off x=\"1\" r:y='2'");
    assert_eq!(attrs.len(), 2);
    assert_eq!(attrs[0].key, b"x".to_vec());
    assert_eq!(attrs[1].key, b"r:y".to_vec());
    assert_eq!(attrs[1].value, b"2".to_vec());
}

#[test]
fn transform_reads_only_its_keys() {
    let t = Transform::zero();
    let attrs = vec![attr("x", b"5"), attr("cx", b"9"), attr("y", b"-6")];
    let r = transform_attrs(&attrs, t, false).unwrap();
    assert_eq!((r.off_x, r.off_y, r.ext_cx, r.ext_cy), (5, -6, 0, 0));
    let r = transform_attrs(&attrs, t, true).unwrap();
    assert_eq!((r.off_x, r.off_y, r.ext_cx, r.ext_cy), (0, 0, 9, 0));
    assert_eq!(transform_attrs(&vec![attr("x", b"1.5")], t, false), Err(PptxError::Value));
    // A key with a prefix is another key.
    let r = transform_attrs(&vec![attr("a:x", b"7")], t, false).unwrap();
    assert_eq!(r.off_x, 0);
}

#[test]
fn preset_names() {
    assert!(matches!(preset_attrs(&vec![attr("prst", b"rect")]), Ok(ShapeKind::Rectangle)));
    assert!(matches!(preset_attrs(&vec![]), Ok(ShapeKind::Rectangle)));
    match preset_attrs(&vec![attr("prst", b"chevron"), attr("prst", b"line")]) {
        Ok(ShapeKind::Preset(n)) => assert_eq!(n, "chevron"),
        _ => panic!("the first prst decides"),
    }
    assert!(matches!(preset_attrs(&vec![attr("prst", &[0xff])]), Err(PptxError::Value)));
}

#[test]
fn colors_from_val() {
    assert!(matches!(color_attrs(&vec![attr("val", b"7F00ff")], false), Ok(ColorSpec::SrgbClr(127, 0, 255))));
    assert!(matches!(color_attrs(&vec![attr("lastClr", b"000000")], false), Ok(ColorSpec::NoColor)));
    assert!(matches!(color_attrs(&vec![attr("val", b"12345")], false), Err(PptxError::ColorCut)));
    // A cut inside a two-byte character ("é" is 0xC3 0xA9).
    assert!(matches!(color_attrs(&vec![attr("val", "0é0000".as_bytes())], false), Err(PptxError::ColorCut)));
    assert!(matches!(color_attrs(&vec![attr("val", b"0x0000")], false), Err(PptxError::Value)));
    match color_attrs(&vec![attr("val", b"accent3")], true) {
        Ok(ColorSpec::SchemeClr(n)) => assert_eq!(n, "accent3"),
        _ => panic!("expected a theme color"),
    }
}

#[test]
fn line_width_tolerates_bad_values() {
    assert_eq!(ln_width_attrs(&vec![attr("w", b"12700")]), 12700);
    assert_eq!(ln_width_attrs(&vec![attr("w", b"thin")]), 0);
    assert_eq!(ln_width_attrs(&vec![attr("w", b"5"), attr("w", &[0xff])]), 5);
    assert_eq!(ln_width_attrs(&vec![attr("cap", b"rnd")]), 0);
}

#[test]
fn alignment_names() {
    assert_eq!(align_attrs(&vec![attr("algn", b"ctr")], TextAlign::Left), Ok(TextAlign::Center));
    assert_eq!(align_attrs(&vec![attr("algn", b"r")], TextAlign::Left), Ok(TextAlign::Right));
    assert_eq!(align_attrs(&vec![attr("algn", b"just")], TextAlign::Center), Ok(TextAlign::Left));
    assert_eq!(align_attrs(&vec![attr("lvl", b"1")], TextAlign::Center), Ok(TextAlign::Center));
}

#[test]
fn run_properties() {
    let mut run = TextRun::default();
    run_props_attrs(&vec![attr("sz", b"3200"), attr("b", b"1"), attr("i", b"true")], &mut run).unwrap();
    assert_eq!(run.font_size_hundredths_pt, 3200);
    assert!(run.bold);
    assert!(!run.italic);
    let mut run = TextRun::default();
    assert_eq!(run_props_attrs(&vec![attr("sz", b"big")], &mut run), Err(PptxError::Value));
}

#[test]
fn embed_and_size_and_pairs() {
    assert_eq!(embed_attrs(&vec![attr("r:embed", b"rId4")], String::new()).unwrap(), "rId4");
    assert_eq!(embed_attrs(&vec![attr("x:embed", b"rId5")], String::new()).unwrap(), "rId5");
    assert_eq!(embed_attrs(&vec![attr("link", b"rId6")], "rId1".to_string()).unwrap(), "rId1");
    assert_eq!(size_attrs(&vec![attr("cy", b"100"), attr("cx", b"200")], 1, 2), Ok((200, 100)));
    assert_eq!(size_attrs(&vec![attr("cx", b"")], 1, 2), Err(PptxError::Value));
    let (a, b) = text_pair_attrs(&vec![attr("Type", b"t"), attr("Id", b"i")], "Id", "Target").unwrap();
    assert_eq!((a.as_str(), b.as_str()), ("i", ""));
}

#[test]
fn token_level_readers() {
    let start = |c: &str| XmlToken::Start(c.to_string());
    let empty = |c: &str| XmlToken::Empty(c.to_string());
    let toks = vec![start("p:presentation"), empty("p:sldSz cx=\"10\" cy=\"20\""), XmlToken::End];
    assert_eq!(size_of_tokens(&toks), Ok((10, 20)));
    assert_eq!(size_of_tokens(&vec![]), Ok((9144000, 6858000)));
    assert_eq!(size_of_tokens(&vec![XmlToken::Error, empty("sldSz cx=\"1\"")]), Err(PptxError::Xml));
    let toks = vec![
        start("R"),
        empty("Relationship Type=\"x/slide\" Target=\"slides/slide3.xml\""),
        XmlToken::Text(Some("\n".to_string())),
        empty("Relationship Type=\"x/slide\" Target=\"slides/slide1.xml\""),
        XmlToken::End,
    ];
    assert_eq!(slide_paths(&toks).unwrap(), vec!["ppt/slides/slide1.xml".to_string(), "ppt/slides/slide3.xml".to_string()]);
    let toks = vec![
        start("R"),
        empty("Relationship Id=\"a\" Target=\"../x/y.png\""),
        empty("Relationship Id=\"b\" Target=\"z.xml\""),
        XmlToken::End,
    ];
    let dir: Vec<char> = "ppt/slides/".chars().collect();
    let rels = rels_of_tokens(&toks, &dir).unwrap();
    assert_eq!(rels.get("a").unwrap(), "ppt/x/y.png");
    assert_eq!(rels.get("b").unwrap(), "ppt/slides/z.xml");
}
