use pptx_render::number::{parse_i32, parse_i64, parse_u8_hex};
use pptx_render::pptx::names::NameMap;
use pptx_render::pptx::paths::normalize_path;
use pptx_render::pptx::xml_types::{ColorSpec, TextRun, OutlineStyle, Transform, EMU_PER_INCH};

#[test]
fn to_rgba_of_each_kind() {
    assert_eq!(ColorSpec::SrgbClr(1, 2, 3).to_rgba(), (1, 2, 3, 255));
    assert_eq!(ColorSpec::NoColor.to_rgba(), (0, 0, 0, 0));
    assert_eq!(ColorSpec::SchemeClr("accent1".to_string()).to_rgba(), (68, 114, 196, 255));
    assert_eq!(ColorSpec::SchemeClr("accent6".to_string()).to_rgba(), (112, 173, 71, 255));
    assert_eq!(ColorSpec::SchemeClr("lt1".to_string()).to_rgba(), (255, 255, 255, 255));
    assert_eq!(ColorSpec::SchemeClr("dk1".to_string()).to_rgba(), (0, 0, 0, 255));
    assert_eq!(ColorSpec::SchemeClr("hlink".to_string()).to_rgba(), (0, 0, 0, 255));
}

#[test]
fn only_no_color_is_transparent() {
    for c in [ColorSpec::SrgbClr(0, 0, 0), ColorSpec::SchemeClr(String::new()), ColorSpec::SchemeClr("bg1".to_string())] {
        assert_eq!(c.to_rgba().3, 255);
    }
    assert_eq!(ColorSpec::default().to_rgba().3, 0);
}

#[test]
fn defaults() {
    let run = TextRun::default();
    assert_eq!(run.font_size_hundredths_pt, 1800);
    assert_eq!(run.text, "");
    let o = OutlineStyle::default();
    assert_eq!(o.width_emu, 0);
    assert!(matches!(o.color, ColorSpec::NoColor));
    let t = Transform::default();
    assert_eq!((t.off_x, t.off_y, t.ext_cx, t.ext_cy), (0, 0, 0, 0));
    assert_eq!(EMU_PER_INCH, 914400);
}

#[test]
fn normalize_resolves_dots() {
    assert_eq!(normalize_path("ppt/slides/../media/image1.png"), "ppt/media/image1.png");
    assert_eq!(normalize_path("a/./b//c/"), "a/b/c");
    assert_eq!(normalize_path("../../x"), "x");
    assert_eq!(normalize_path("/abs/path"), "abs/path");
    assert_eq!(normalize_path(""), "");
    assert_eq!(normalize_path("a/b/../../.."), "");
}

#[test]
fn normalize_twice_changes_nothing() {
    for p in ["ppt/slides/../media/./x.png", "/a//b/../c/", "..", "x/y/z", "./."] {
        let once = normalize_path(p);
        assert_eq!(normalize_path(&once), once);
    }
}

#[test]
fn integers_parse_as_std_does() {
    assert_eq!(parse_i64(b"-42"), Some(-42));
    assert_eq!(parse_i64(b"+7"), Some(7));
    assert_eq!(parse_i64(b"9223372036854775807"), Some(i64::MAX));
    assert_eq!(parse_i64(b"-9223372036854775808"), Some(i64::MIN));
    assert_eq!(parse_i64(b"9223372036854775808"), None);
    assert_eq!(parse_i64(b""), None);
    assert_eq!(parse_i64(b"-"), None);
    assert_eq!(parse_i64(b" 1"), None);
    assert_eq!(parse_i32(b"2147483648"), None);
    assert_eq!(parse_i32(b"1800"), Some(1800));
    assert_eq!(parse_u8_hex(b"ff"), Some(255));
    assert_eq!(parse_u8_hex(b"0A"), Some(10));
    assert_eq!(parse_u8_hex(b"g0"), None);
    for s in ["-42", "+7", "0", "x", "", "123456789012345678901"] {
        assert_eq!(parse_i64(s.as_bytes()), s.parse::<i64>().ok());
    }
    for s in ["ff", "7f", "100", "+f", "-1", ""] {
        assert_eq!(parse_u8_hex(s.as_bytes()), u8::from_str_radix(s, 16).ok());
    }
}

#[test]
fn name_map_later_insert_shadows() {
    let mut m: NameMap<String> = NameMap::new();
    assert!(m.get("a").is_none());
    m.insert("a".to_string(), "one".to_string());
    m.insert("b".to_string(), "two".to_string());
    m.insert("a".to_string(), "three".to_string());
    assert_eq!(m.get("a").unwrap(), "three");
    assert_eq!(m.get("b").unwrap(), "two");
    assert!(m.get("c").is_none());
}

#[test]
fn normalized_segments_are_plain() {
    for p in ["//a/./b/../../c//d/", "./x/..", "a/b/c", "../.././/"] {
        let n = normalize_path(p);
        if !n.is_empty() {
            for seg in n.split('/') {
                assert!(!seg.is_empty() && seg != "." && seg != "..", "{p} gave {n}");
            }
        }
    }
    assert_eq!(normalize_path("//a/./b/../../c//d/"), "c/d");
    assert_eq!(normalize_path("../.././/"), "");
}
