use seru::render::styles::box_::apply_box_preset;
use seru::render::styles::{
    BoxDirection, BoxStyle, Color, CrossAlign, EdgeInsets, FontWeight, ImageFit, ImageStyle,
    MainAlign, Place, StackStyle, StyleError,
};
use seru::render::RenderOutputType;
use seru::runtime::utils::{
    hex_byte, hex_repeat, parse_color, parse_hex_color, parse_lowercase_color, rgba, size_text,
    ColorError, SizeText,
};

fn color(r: u8, g: u8, b: u8, a: u8) -> Color {
    Color { r, g, b, a }
}

#[test]
fn rgba_builds_the_color() {
    assert_eq!(rgba(1, 2, 3, 4), color(1, 2, 3, 4));
}

#[test]
fn hex_byte_reads_base_16() {
    assert_eq!(hex_byte("ff"), Ok(255));
    assert_eq!(hex_byte("0A"), Ok(10));
    assert_eq!(hex_byte("7"), Ok(7));
    assert_eq!(hex_byte("+f"), Ok(15));
    assert_eq!(hex_byte("00ff"), Ok(255));
    assert_eq!(hex_byte(""), Err(ColorError::Empty));
    assert_eq!(hex_byte("+"), Err(ColorError::InvalidDigit));
    assert_eq!(hex_byte("-1"), Err(ColorError::InvalidDigit));
    assert_eq!(hex_byte("g0"), Err(ColorError::InvalidDigit));
    assert_eq!(hex_byte("100"), Err(ColorError::Overflow));
    assert_eq!(hex_byte("100g"), Err(ColorError::Overflow));
}

#[test]
fn hex_byte_agrees_with_std() {
    for s in ["0", "9", "a", "F", "ff", "+1", "12", "fg", "", "+", "1ff", "0100", "é"] {
        assert_eq!(hex_byte(s).ok(), u8::from_str_radix(s, 16).ok(), "{}", s);
    }
}

#[test]
fn hex_repeat_doubles_the_digit() {
    assert_eq!(hex_repeat("a"), Ok(0xaa));
    assert_eq!(hex_repeat("3"), Ok(0x33));
    assert_eq!(hex_repeat("+"), Err(ColorError::InvalidDigit));
    assert_eq!(hex_repeat("x"), Err(ColorError::InvalidDigit));
}

#[test]
fn short_hex_color_doubles_each_digit() {
    assert_eq!(parse_hex_color("#abc"), Ok(color(0xaa, 0xbb, 0xcc, 0xff)));
    assert_eq!(parse_hex_color("#abc"), parse_hex_color("#aabbcc"));
    assert_eq!(parse_hex_color("  f00 "), Ok(color(0xff, 0, 0, 0xff)));
}

#[test]
fn six_and_eight_digit_colors() {
    assert_eq!(parse_hex_color("#ffffff"), Ok(color(255, 255, 255, 255)));
    assert_eq!(parse_hex_color("#0d58a3"), Ok(color(0x0d, 0x58, 0xa3, 0xff)));
    assert_eq!(parse_hex_color("#11223344"), Ok(color(0x11, 0x22, 0x33, 0x44)));
    assert_eq!(parse_hex_color("AABBCCDD"), Ok(color(0xaa, 0xbb, 0xcc, 0xdd)));
}

#[test]
fn hex_color_errors() {
    assert_eq!(parse_hex_color("#abcd"), Err(ColorError::InvalidHexColor));
    assert_eq!(parse_hex_color(""), Err(ColorError::InvalidHexColor));
    assert_eq!(parse_hex_color("##abc"), Err(ColorError::InvalidHexColor));
    assert_eq!(parse_hex_color("#ggg"), Err(ColorError::InvalidDigit));
    assert_eq!(parse_hex_color("#12345z"), Err(ColorError::InvalidDigit));
    assert_eq!(parse_hex_color("ééé"), Err(ColorError::InvalidDigit));
}

#[test]
fn named_colors_in_any_case() {
    assert_eq!(parse_color("red"), Some(Ok(color(0xff, 0, 0, 0xff))));
    assert_eq!(parse_color("GREEN"), Some(Ok(color(0, 0xff, 0, 0xff))));
    assert_eq!(parse_color("Blue"), Some(Ok(color(0, 0, 0xff, 0xff))));
    assert_eq!(parse_color("#ABC"), Some(Ok(color(0xaa, 0xbb, 0xcc, 0xff))));
    assert_eq!(parse_color("pink"), Some(Err(ColorError::InvalidHexColor)));
    assert_eq!(parse_color("purple"), Some(Err(ColorError::InvalidDigit)));
    assert_eq!(parse_lowercase_color("green"), Ok(color(0, 0xff, 0, 0xff)));
}

#[test]
fn color_whose_cuts_split_a_character() {
    assert_eq!(parse_color("#éa"), None);
    assert_eq!(parse_color("#€€"), None);
}

#[test]
fn box_presets_fill_unset_fields() {
    let mut s: BoxStyle<f32> = BoxStyle::default();
    apply_box_preset("Box", &mut s);
    assert_eq!(s.direction, Some(BoxDirection::Column));
    assert_eq!(s.main, None);
    assert_eq!(s.cross, Some(CrossAlign::Stretch));

    let mut s: BoxStyle<f32> = BoxStyle::default();
    apply_box_preset("Column", &mut s);
    assert_eq!(s.direction, Some(BoxDirection::Column));
    assert_eq!(s.main, None);
    assert_eq!(s.cross, None);

    let mut s: BoxStyle<f32> = BoxStyle::default();
    apply_box_preset("Row", &mut s);
    assert_eq!(s.direction, Some(BoxDirection::Row));

    let mut s: BoxStyle<f32> = BoxStyle::default();
    apply_box_preset("Center", &mut s);
    assert_eq!(s.direction, Some(BoxDirection::Column));
    assert_eq!(s.main, Some(MainAlign::Center));
    assert_eq!(s.cross, Some(CrossAlign::Center));
}

#[test]
fn box_presets_keep_set_fields() {
    let mut s: BoxStyle<f32> = BoxStyle {
        gap: Some(4.0),
        direction: Some(BoxDirection::Row),
        main: None,
        cross: Some(CrossAlign::End),
    };
    apply_box_preset("Center", &mut s);
    assert_eq!(s.gap, Some(4.0));
    assert_eq!(s.direction, Some(BoxDirection::Row));
    assert_eq!(s.main, Some(MainAlign::Center));
    assert_eq!(s.cross, Some(CrossAlign::End));
    let before = (s.direction, s.main, s.cross);
    apply_box_preset("Center", &mut s);
    assert_eq!((s.direction, s.main, s.cross), before);
}

#[test]
fn other_names_have_no_preset() {
    let mut s: BoxStyle<f32> = BoxStyle::default();
    apply_box_preset("Stack", &mut s);
    apply_box_preset("center", &mut s);
    assert_eq!(s.direction, None);
    assert_eq!(s.main, None);
    assert_eq!(s.cross, None);
}

#[test]
fn align_values() {
    assert_eq!(MainAlign::from_str("flex-start"), Ok(MainAlign::FlexStart));
    assert_eq!(MainAlign::from_str("evenly"), Ok(MainAlign::Evenly));
    assert_eq!(MainAlign::from_str("between"), Ok(MainAlign::Between));
    assert_eq!(MainAlign::from_str("baseline"), Err(StyleError::InvalidMainAlign("baseline".to_string())));
    assert_eq!(CrossAlign::from_str("baseline"), Ok(CrossAlign::Baseline));
    assert_eq!(CrossAlign::from_str("flex-end"), Ok(CrossAlign::FlexEnd));
    assert_eq!(CrossAlign::from_str("around"), Err(StyleError::InvalidCrossAlign("around".to_string())));
    assert_eq!(BoxDirection::from_str("row"), Ok(BoxDirection::Row));
    assert_eq!(BoxDirection::from_str("column"), Ok(BoxDirection::Column));
    assert_eq!(BoxDirection::from_str("Row"), Err(StyleError::InvalidBoxDirection("Row".to_string())));
    assert_eq!(Place::from_str("center"), Ok(Place::Center));
    assert_eq!(Place::from_str("end"), Ok(Place::End));
    assert_eq!(Place::from_str("middle"), Err(StyleError::InvalidPlace("middle".to_string())));
}

#[test]
fn fit_and_weight_ignore_case() {
    assert_eq!(ImageFit::from_str("CoVeR"), Ok(ImageFit::Cover));
    assert_eq!(ImageFit::from_str("contain"), Ok(ImageFit::Contain));
    assert_eq!(ImageFit::from_str("FILL"), Ok(ImageFit::Fill));
    assert_eq!(ImageFit::from_str("Stretch"), Err(StyleError::InvalidFit("stretch".to_string())));
    assert_eq!(FontWeight::from_str("Bold"), Ok(FontWeight::Bold));
    assert_eq!(FontWeight::from_str("extra_light"), Ok(FontWeight::ExtraLight));
    assert_eq!(FontWeight::from_str("ExtraLight"), Ok(FontWeight::ExtraLight));
    assert_eq!(FontWeight::from_str("EXTRA_BOLD"), Ok(FontWeight::ExtraBold));
    assert_eq!(FontWeight::from_str("semibold"), Ok(FontWeight::SemiBold));
    assert_eq!(FontWeight::from_str("extrablack"), Ok(FontWeight::ExtraBlack));
    assert_eq!(FontWeight::from_str("Heavy"), Err(StyleError::InvalidFontWeight("heavy".to_string())));
}

#[test]
fn edge_insets_shapes() {
    let a = EdgeInsets::all(3);
    assert_eq!((a.top, a.right, a.bottom, a.left), (3, 3, 3, 3));
    let v = EdgeInsets::vertical_horizontal(12, 16);
    assert_eq!((v.top, v.right, v.bottom, v.left), (12, 16, 12, 16));
}

#[test]
fn style_defaults_are_empty() {
    assert_eq!(ImageStyle::default().fit, None);
    let s = StackStyle::default();
    assert_eq!((s.place_x, s.place_y), (None, None));
    assert_ne!(RenderOutputType::PNG, RenderOutputType::SVG);
}

#[test]
fn eight_digits_read_back_every_channel() {
    for &(r, g, b, a) in &[(0u8, 0u8, 0u8, 0u8), (255, 255, 255, 255), (0x12, 0xab, 0x0f, 0xf0), (1, 16, 128, 254)] {
        let text = format!("#{:02x}{:02x}{:02x}{:02x}", r, g, b, a);
        assert_eq!(parse_hex_color(&text), Ok(color(r, g, b, a)), "{}", text);
    }
}

#[test]
fn short_and_long_forms_agree() {
    for d in ["0", "7", "a", "F"] {
        for e in ["1", "c"] {
            let short = format!("#{d}{e}{d}");
            let long = format!("#{d}{d}{e}{e}{d}{d}");
            assert_eq!(parse_hex_color(&short), parse_hex_color(&long), "{}", short);
        }
    }
}

#[test]
fn size_text_shapes() {
    assert_eq!(size_text(" auto "), SizeText::Auto);
    assert_eq!(size_text("100%"), SizeText::Percent("100".to_string()));
    assert_eq!(size_text(" 50 % "), SizeText::Percent("50".to_string()));
    assert_eq!(size_text("24"), SizeText::Length("24".to_string()));
    assert_eq!(size_text("Auto"), SizeText::Length("Auto".to_string()));
    assert_eq!(size_text(""), SizeText::Length("".to_string()));
}
