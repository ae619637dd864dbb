use atlas_maker::studio::PreviewShape;
use atlas_maker::text::{decimal_string, parse_hex_color, strip_hashes, trim_text};
use atlas_maker::workspace::Tool;

#[test]
fn hex_six_digits() {
    assert_eq!(parse_hex_color("#FF8800"), Some((255, 136, 0)));
    assert_eq!(parse_hex_color("ff8800"), Some((255, 136, 0)));
    assert_eq!(parse_hex_color("#12ab9F"), Some((0x12, 0xab, 0x9f)));
}

#[test]
fn hex_three_digits_are_doubled() {
    assert_eq!(parse_hex_color("#abc"), Some((0xaa, 0xbb, 0xcc)));
    assert_eq!(parse_hex_color("F80"), Some((0xff, 0x88, 0x00)));
}

#[test]
fn hex_ignores_surrounding_space_and_hashes() {
    assert_eq!(parse_hex_color("  #102030 \n"), Some((0x10, 0x20, 0x30)));
    assert_eq!(parse_hex_color("##102030"), Some((0x10, 0x20, 0x30)));
    assert_eq!(parse_hex_color("\u{3000}#fff\u{A0}"), Some((255, 255, 255)));
}

#[test]
fn hex_rejects_bad_input() {
    assert_eq!(parse_hex_color(""), None);
    assert_eq!(parse_hex_color("#"), None);
    assert_eq!(parse_hex_color("#12345"), None);
    assert_eq!(parse_hex_color("#1234567"), None);
    assert_eq!(parse_hex_color("#GG0000"), None);
    assert_eq!(parse_hex_color("#-10000"), None);
    assert_eq!(parse_hex_color("#1 2"), None);
    assert_eq!(parse_hex_color("++0"), None);
}

#[test]
fn hex_signs_are_no_digits() {
    assert_eq!(parse_hex_color("+F+F+F"), None);
    assert_eq!(parse_hex_color("#+1+2+3"), None);
    assert_eq!(parse_hex_color("#+a0000"), None);
}

#[test]
fn hex_non_ascii_is_rejected_without_panic() {
    assert_eq!(parse_hex_color("\u{e9}\u{e9}\u{e9}"), None);
    assert_eq!(parse_hex_color("\u{20ac}"), None);
    assert_eq!(parse_hex_color("a\u{e9}"), None);
    assert_eq!(parse_hex_color("aaa\u{e9}a"), None);
    assert_eq!(parse_hex_color("#\u{e9}1234"), None);
}

#[test]
fn hex_round_trip_of_every_byte() {
    for v in 0..=255u8 {
        let (r, g, b) = (v, 255 - v, v.wrapping_mul(37));
        assert_eq!(parse_hex_color(&format!("#{:02X}{:02X}{:02X}", r, g, b)), Some((r, g, b)));
        assert_eq!(parse_hex_color(&format!("{:02x}{:02x}{:02x}", r, g, b)), Some((r, g, b)));
    }
}

#[test]
fn hex_short_form_is_doubled_long_form() {
    assert_eq!(parse_hex_color("a1F"), parse_hex_color("aa11FF"));
    assert_eq!(parse_hex_color("#a1F"), Some((0xaa, 0x11, 0xff)));
}

#[test]
fn hex_extra_hash_and_case_change_nothing() {
    assert_eq!(parse_hex_color("#ab12cd"), parse_hex_color("ab12cd"));
    assert_eq!(parse_hex_color("#ab12cd "), parse_hex_color("ab12cd "));
    let u = " #Ab12Cd ";
    assert_eq!(parse_hex_color(&u.to_ascii_uppercase()), parse_hex_color(&u.to_ascii_lowercase()));
    assert_eq!(parse_hex_color(&u.to_ascii_uppercase()), Some((0xab, 0x12, 0xcd)));
}

#[test]
fn decimal_strings() {
    assert_eq!(decimal_string(0), "0");
    assert_eq!(decimal_string(7), "7");
    assert_eq!(decimal_string(10), "10");
    assert_eq!(decimal_string(1234), "1234");
    assert_eq!(decimal_string(usize::MAX), usize::MAX.to_string());
}

#[test]
fn tool_labels_and_icons() {
    assert_eq!(Tool::Brush.label(), "Brush");
    assert_eq!(Tool::Eraser.label(), "Eraser");
    assert_eq!(Tool::Fill.label(), "Fill");
    assert_eq!(Tool::Eyedropper.label(), "Pick");
    assert_eq!(Tool::Brush.icon(), "\u{1f58c}");
    assert_eq!(Tool::Eraser.icon(), "\u{1f9f9}");
    assert_eq!(Tool::Fill.icon(), "\u{1f9a7}");
    assert_eq!(Tool::Eyedropper.icon(), "\u{1f4a7}");
}

#[test]
fn preview_shape_labels() {
    assert_eq!(PreviewShape::Wall.label(), "Wall (X-Y)");
    assert_eq!(PreviewShape::Cube.label(), "Cube");
    assert_eq!(PreviewShape::Cross.label(), "Cross / X");
    assert_eq!(PreviewShape::Torch.label(), "Torch");
    assert!(PreviewShape::default() == PreviewShape::Cube);
}

#[test]
fn trim_text_is_str_trim() {
    for s in ["", "  ", " a ", "\t#ab\n", "\u{3000}x\u{A0}y\u{2029}", "\u{85}", "a\u{200B}", " é "] {
        assert_eq!(trim_text(s), s.trim(), "{:?}", s);
    }
}

#[test]
fn strip_hashes_is_trim_start_matches() {
    for s in ["", "#", "###", "#a#", "a#", "##\u{e9}#"] {
        assert_eq!(strip_hashes(s), s.trim_start_matches('#'), "{:?}", s);
    }
}
