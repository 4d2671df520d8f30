use hiren::color::{parse_color_str, to_premultiplied, TRANSPARENT};
use hiren::place::solid_color;

#[test]
fn hex_forms() {
    assert_eq!(parse_color_str("#fff"), Some((255, 255, 255, 255)));
    assert_eq!(parse_color_str("#ff2a6d"), Some((255, 42, 109, 255)));
    assert_eq!(parse_color_str("#ff2a6d40"), Some((255, 42, 109, 64)));
}

#[test]
fn rgba_forms() {
    assert_eq!(parse_color_str("rgba(255,42,109,0.5)"), Some((255, 42, 109, 128)));
    assert_eq!(parse_color_str("rgba(255,42,109,128)"), Some((255, 42, 109, 128)));
    assert_eq!(parse_color_str("rgb(1,2,3)"), Some((1, 2, 3, 255)));
}

#[test]
fn named_and_transparent() {
    assert_eq!(parse_color_str("transparent"), Some(TRANSPARENT));
    assert_eq!(parse_color_str("white"), Some((255, 255, 255, 255)));
    assert_eq!(parse_color_str(""), Some(TRANSPARENT));
    assert_eq!(parse_color_str("not-a-color"), None);
}

#[test]
fn further_names_and_refusals() {
    assert_eq!(parse_color_str(" Black "), Some((0, 0, 0, 255)));
    assert_eq!(parse_color_str("NONE"), Some(TRANSPARENT));
    assert_eq!(parse_color_str("red"), Some((255, 0, 0, 255)));
    assert_eq!(parse_color_str("green"), Some((0, 128, 0, 255)));
    assert_eq!(parse_color_str("blue"), Some((0, 0, 255, 255)));
    assert_eq!(parse_color_str("#12345"), None);
    assert_eq!(parse_color_str("#ggg"), None);
    assert_eq!(parse_color_str("#é1"), None);
    assert_eq!(parse_color_str("#+f+e+d"), Some((15, 14, 13, 255)));
    assert_eq!(parse_color_str("#1234"), Some((0x11, 0x22, 0x33, 0x44)));
    assert_eq!(parse_color_str("rgb(1,2)"), None);
    assert_eq!(parse_color_str("rgb(1,2,256)"), None);
    assert_eq!(parse_color_str("rgba(1,2,3)"), None);
    assert_eq!(parse_color_str("RGBA( 1 , 2 , 3 , 1. )"), Some((1, 2, 3, 255)));
    assert_eq!(parse_color_str("rgba(1,2,3,x.5)"), None);
    assert_eq!(parse_color_str("rgba(1,2,3,.)"), None);
}

fn expected_alpha(s: &str) -> Option<u8> {
    if s.contains('.') {
        let a: f32 = s.parse().ok()?;
        Some((a.clamp(0.0, 1.0) * 255.0).round() as u8)
    } else {
        s.parse().ok()
    }
}

fn alpha_of(s: &str) -> Option<u8> {
    parse_color_str(&format!("rgba(1,2,3,{s})")).map(|c| c.3)
}

#[test]
fn fractional_alpha_matches_single_precision() {
    for k in 0..=20000u32 {
        let s = format!("{}", k as f64 / 20000.0);
        if s.contains('.') {
            assert_eq!(alpha_of(&s), expected_alpha(&s), "{s}");
        }
    }
    // every rounding boundary, and the numbers next to it
    for k in 0..255u32 {
        let mid = (k as f64 + 0.5) / 255.0;
        for d in [-3e-8f64, -1e-8, -1e-9, 0.0, 1e-9, 1e-8, 3e-8] {
            let s = format!("{:.20}", mid + d);
            assert_eq!(alpha_of(&s), expected_alpha(&s), "{s}");
        }
        let below = f32::from_bits((mid as f32).to_bits() - 1);
        let above = f32::from_bits((mid as f32).to_bits() + 1);
        for v in [below, mid as f32, above] {
            let s = format!("{:.40}", v);
            assert_eq!(alpha_of(&s), expected_alpha(&s), "{s}");
        }
    }
    for s in [
        "0.", ".5", "1.0", "-0.5", "+0.25", "1.5e-1", "5.0e-1", "50.e-2", "0.0001e3", "0.5e400",
        "0.5e-400", "1.0e0", "0.0", "0.00390625", "0.001953125", "0.0009765625", "0.00196078431",
        "12.5", "0.5e", "0.5e+", "0.5x", "1.2.3", "inf.", "0.99999999999999999999999", "0.000",
        "000.5", "0.49999999999999999999", "0.5019607", "0.50196079", "0.501960799999",
        "0.1e99999999999999999999999", "0.1e-99999999999999999999999", "0.0e99999999999999999999",
    ] {
        assert_eq!(alpha_of(s), expected_alpha(s), "{s}");
    }
}

#[test]
fn premultiplied_channels() {
    assert_eq!(to_premultiplied((255, 128, 0, 255)), (255, 128, 0, 255));
    assert_eq!(to_premultiplied((255, 128, 3, 128)), (128, 64, 2, 128));
    assert_eq!(to_premultiplied((9, 8, 7, 0)), TRANSPARENT);
}

#[test]
fn gradients_are_not_solid() {
    assert_eq!(solid_color(" linear-gradient(90deg, #000, #fff)"), None);
    assert_eq!(solid_color("radial-gradient(#000, #fff)"), None);
    assert_eq!(solid_color(" #000 "), Some((0, 0, 0, 255)));
}

#[test]
fn short_forms_double_their_digits() {
    assert_eq!(parse_color_str("#1aF"), parse_color_str("#11aaff"));
    assert_eq!(parse_color_str("#1aF3"), parse_color_str("#11aaff33"));
}

#[test]
fn css_names() {
    assert_eq!(parse_color_str("AliceBlue"), Some((240, 248, 255, 255)));
    assert_eq!(parse_color_str("cornflowerblue"), Some((100, 149, 237, 255)));
    assert_eq!(parse_color_str("darkslategrey"), Some((47, 79, 79, 255)));
    assert_eq!(parse_color_str("fuchsia"), parse_color_str("magenta"));
    assert_eq!(parse_color_str("hotpink"), Some((255, 105, 180, 255)));
    assert_eq!(parse_color_str("lightgoldenrodyellow"), Some((250, 250, 210, 255)));
    assert_eq!(parse_color_str("navy"), Some((0, 0, 128, 255)));
    assert_eq!(parse_color_str(" rebeccapurple "), Some((102, 51, 153, 255)));
    assert_eq!(parse_color_str("yellowgreen"), Some((154, 205, 50, 255)));
    assert_eq!(parse_color_str("greenish"), None);
}
