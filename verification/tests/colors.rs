use paleta::color::Color;
use paleta::extracted_color::ExtractedColor;
use paleta::palette::Palette;
use paleta::text::decimal_string;
use paleta::util::{rgb_name, rgb_to_hex};

#[test]
fn hex_names_are_upper_case_two_digit() {
    assert_eq!(rgb_to_hex(255, 0, 128), "#FF0080");
    assert_eq!(rgb_to_hex(1, 2, 3), "#010203");
    assert_eq!(rgb_to_hex(0, 0, 0), "#000000");
    assert_eq!(rgb_to_hex(171, 205, 239), "#ABCDEF");
}

#[test]
fn hex_name_matches_format() {
    for &(r, g, b) in &[(12u8, 200u8, 7u8), (255, 255, 255), (16, 15, 160)] {
        assert_eq!(rgb_to_hex(r, g, b), format!("#{:02X}{:02X}{:02X}", r, g, b));
    }
}

#[test]
fn decimal_text_of_integers() {
    assert_eq!(decimal_string(0), "0");
    assert_eq!(decimal_string(42), "42");
    assert_eq!(decimal_string(-7), "-7");
    assert_eq!(decimal_string(i64::MAX), i64::MAX.to_string());
    assert_eq!(decimal_string(i64::MIN), "-9223372036854775808");
}

#[test]
fn rgb_names() {
    assert_eq!(rgb_name(255, 0, 128), "rgb(255,0,128)");
    assert_eq!(rgb_name(-1, 10, 1000), "rgb(-1,10,1000)");
}

#[test]
fn color_keeps_its_values() {
    let c = Color::new(7, 10, 20, 30, "1".to_string(), "#0A141E".to_string());
    assert_eq!(c.id(), 7);
    assert_eq!(c.rgb(), (10, 20, 30));
    assert_eq!(c.rgba(), (10, 20, 30, "1".to_string()));
    assert_eq!(c.hex_name(), "#0A141E");
    assert_eq!(c.rgb_name(), "rgb(10,20,30)");
    let d = c.clone();
    assert_eq!(d.rgb_name(), c.rgb_name());
    assert_eq!(d.id(), 7);
}

#[test]
fn color_with_fractional_alpha() {
    let c = Color::new(-1, 0, 128, 255, 0.5f64.to_string(), rgb_to_hex(0, 128, 255));
    assert_eq!(c.rgba().3, "0.5");
    assert_eq!(c.hex_name(), "#0080FF");
    assert_eq!(c.rgb_name(), "rgb(0,128,255)");
}

#[test]
fn extracted_color_names() {
    let e = ExtractedColor::new((10, 20, 30));
    assert_eq!(e.rgb_tuple(), (10, 20, 30));
    assert_eq!(e.hex_name(), "#0A141E");
    assert_eq!(e.rgb_name(), "rgb(10,20,30)");
    assert_eq!(e.alpha_text(), "1");
    assert_eq!(e.alpha_text(), 1.0f64.to_string());
}

#[test]
fn palette_starts_without_colors() {
    let p = Palette::new(3, "Sunset".to_string());
    assert_eq!(p.id(), 3);
    assert_eq!(p.name(), "Sunset");
    assert!(p.colors().is_none());
    assert_eq!(p.len(), 0);
}

#[test]
fn palette_keeps_colors_in_order() {
    let mut p = Palette::new(3, "Sunset".to_string());
    p.add_color(Color::new(1, 255, 0, 0, "1".to_string(), "#FF0000".to_string()));
    p.add_color(Color::new(2, 0, 255, 0, "1".to_string(), "#00FF00".to_string()));
    p.add_color(Color::new(1, 255, 0, 0, "1".to_string(), "#FF0000".to_string()));
    assert_eq!(p.len(), 3);
    let ids: Vec<i64> = p.colors().unwrap().iter().map(|c| c.id()).collect();
    assert_eq!(ids, vec![1, 2, 1]);
    let q = p.clone();
    assert_eq!(q.len(), 3);
    assert_eq!(q.name(), "Sunset");
}

#[test]
fn different_colors_have_different_hex_names() {
    let mut seen = std::collections::HashSet::new();
    for r in (0..=255u8).step_by(51) {
        for g in (0..=255u8).step_by(17) {
            for b in [0u8, 1, 16, 128, 255] {
                assert!(seen.insert(rgb_to_hex(r, g, b)));
            }
        }
    }
}
