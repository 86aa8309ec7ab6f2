use pptx_render::pptx::names::NameMap;
use pptx_render::pptx::slide::Slide;
use pptx_render::pptx::xml_types::{ColorSpec, FillStyle, OutlineStyle, Shape, ShapeKind, Transform};
use pptx_render::render::{background_rgba, picture_data, plan_shape, Geometry};

fn shape(kind: ShapeKind, fill: FillStyle, width_emu: i64, color: ColorSpec) -> Shape {
    Shape {
        kind,
        transform: Transform::zero(),
        fill,
        outline: OutlineStyle { width_emu, color },
        text: Vec::new(),
    }
}

#[test]
fn rectangle_fill_and_border() {
    let p = plan_shape(&shape(ShapeKind::Rectangle, FillStyle::Solid(ColorSpec::SrgbClr(1, 2, 3)), 9525, ColorSpec::SchemeClr("accent2".to_string())));
    assert_eq!(p.geometry, Geometry::Rect);
    assert_eq!(p.fill, Some((1, 2, 3, 255)));
    let st = p.stroke.unwrap();
    assert_eq!(st.rgba, (237, 125, 49, 255));
    assert_eq!(st.width_emu, Some(9525));
    assert!(p.text);
}

#[test]
fn border_needs_width_and_visible_color() {
    let p = plan_shape(&shape(ShapeKind::Ellipse, FillStyle::NoFill, 0, ColorSpec::SrgbClr(0, 0, 0)));
    assert_eq!(p.geometry, Geometry::Ellipse);
    assert!(p.fill.is_none());
    assert!(p.stroke.is_none());
    let p = plan_shape(&shape(ShapeKind::Preset("star5".to_string()), FillStyle::NoFill, 100, ColorSpec::NoColor));
    assert_eq!(p.geometry, Geometry::Rect);
    assert!(p.stroke.is_none());
    let p = plan_shape(&shape(ShapeKind::RoundedRectangle, FillStyle::Solid(ColorSpec::NoColor), 5, ColorSpec::SrgbClr(9, 9, 9)));
    assert_eq!(p.geometry, Geometry::RoundedRect);
    assert_eq!(p.fill, Some((0, 0, 0, 0)));
    assert_eq!(p.stroke.unwrap().width_emu, Some(5));
}

#[test]
fn line_strokes_one_pixel_without_width() {
    let p = plan_shape(&shape(ShapeKind::Line, FillStyle::Solid(ColorSpec::SrgbClr(1, 1, 1)), 0, ColorSpec::SrgbClr(4, 5, 6)));
    assert_eq!(p.geometry, Geometry::Line);
    assert!(p.fill.is_none());
    assert!(!p.text);
    let st = p.stroke.unwrap();
    assert_eq!(st.rgba, (4, 5, 6, 255));
    assert_eq!(st.width_emu, None);
    let p = plan_shape(&shape(ShapeKind::Line, FillStyle::NoFill, 12700, ColorSpec::NoColor));
    assert!(p.stroke.is_none());
}

#[test]
fn picture_plan_and_data() {
    let pic = shape(ShapeKind::Picture { rel_id: "ppt/media/a.png".to_string() }, FillStyle::NoFill, 0, ColorSpec::NoColor);
    let p = plan_shape(&pic);
    assert_eq!(p.geometry, Geometry::Image);
    assert!(p.fill.is_none() && p.stroke.is_none() && !p.text);
    let mut images: NameMap<Vec<u8>> = NameMap::new();
    assert!(picture_data(&images, &pic).is_none());
    images.insert("ppt/media/a.png".to_string(), vec![1, 2, 3]);
    assert_eq!(picture_data(&images, &pic).unwrap(), &vec![1u8, 2, 3]);
    let rect = shape(ShapeKind::Rectangle, FillStyle::NoFill, 0, ColorSpec::NoColor);
    assert!(picture_data(&images, &rect).is_none());
}

#[test]
fn background_defaults_to_white() {
    let plain = Slide { shapes: Vec::new(), background_color: None };
    assert_eq!(background_rgba(&plain), (255, 255, 255, 255));
    let red = Slide { shapes: Vec::new(), background_color: Some(ColorSpec::SrgbClr(255, 0, 0)) };
    assert_eq!(background_rgba(&red), (255, 0, 0, 255));
    let none = Slide { shapes: Vec::new(), background_color: Some(ColorSpec::NoColor) };
    assert_eq!(background_rgba(&none), (0, 0, 0, 0));
}
