use color_conversion::{ColorBytes, ColorError};

#[test]
fn hex_text_is_upper_case_and_zero_padded() {
    assert_eq!(ColorBytes::from_rgb(0, 0, 0).as_hex(), "000000");
    assert_eq!(ColorBytes::from_rgb(1, 2, 3).as_hex(), "010203");
    assert_eq!(ColorBytes::from_rgb(10, 20, 250).as_hex(), "0A14FA");
    assert_eq!(ColorBytes::from_rgb(171, 205, 239).as_hex(), "ABCDEF");
    assert_eq!(ColorBytes::from_rgb(255, 255, 255).as_hex(), "FFFFFF");
}

#[test]
fn hex_text_is_read_in_either_case() {
    let upper = ColorBytes::from_hex(String::from("ABCDEF")).unwrap();
    let lower = ColorBytes::from_hex(String::from("abcdef")).unwrap();
    let mixed = ColorBytes::from_hex(String::from("aBcDeF")).unwrap();
    assert_eq!(upper.as_rgb(), (171, 205, 239));
    assert_eq!(lower, upper);
    assert_eq!(mixed, upper);
    assert_eq!(ColorBytes::from_hex(String::from("228b22")).unwrap().as_rgb(), (34, 139, 34));
    assert_eq!(ColorBytes::from_hex(String::from("0a14fa")).unwrap().as_rgb(), (10, 20, 250));
}

#[test]
fn hex_text_of_odd_length_is_refused() {
    assert_eq!(ColorBytes::from_hex(String::from("228B2")), Err(ColorError::DecodeError));
    assert_eq!(ColorBytes::from_hex(String::from("F")), Err(ColorError::DecodeError));
    assert_eq!(ColorBytes::from_hex(String::from("FF00000")), Err(ColorError::DecodeError));
}

#[test]
fn hex_text_with_another_character_is_refused() {
    assert_eq!(ColorBytes::from_hex(String::from("GG0000")), Err(ColorError::DecodeError));
    assert_eq!(ColorBytes::from_hex(String::from("FF 000")), Err(ColorError::DecodeError));
    assert_eq!(ColorBytes::from_hex(String::from("0xFF00")), Err(ColorError::DecodeError));
    assert_eq!(ColorBytes::from_hex(String::from("#FF000")), Err(ColorError::DecodeError));
    assert_eq!(ColorBytes::from_hex(String::from("FF00\u{e9}0")), Err(ColorError::DecodeError));
    assert_eq!(ColorBytes::from_hex(String::from("\u{e9}\u{e9}\u{e9}")), Err(ColorError::DecodeError));
    assert_eq!(ColorBytes::from_hex(String::from("FF00\u{ff10}")), Err(ColorError::DecodeError));
}

#[test]
fn hex_text_for_another_number_of_bytes_is_refused() {
    assert_eq!(ColorBytes::from_hex(String::new()), Err(ColorError::DecodeError));
    assert_eq!(ColorBytes::from_hex(String::from("FF")), Err(ColorError::DecodeError));
    assert_eq!(ColorBytes::from_hex(String::from("FF00")), Err(ColorError::DecodeError));
    assert_eq!(ColorBytes::from_hex(String::from("FF000000")), Err(ColorError::DecodeError));
}

#[test]
fn hex_round_trip_on_a_grid_of_colours() {
    for r in (0..=255u8).step_by(5) {
        for g in (0..=255u8).step_by(15) {
            for b in (0..=255u8).step_by(17) {
                let color = ColorBytes::from_rgb(r, g, b);
                let text = color.as_hex();
                assert_eq!(text.len(), 6);
                assert_eq!(ColorBytes::from_hex(text), Ok(color));
            }
        }
    }
}

#[test]
fn hex_round_trip_of_every_byte_in_each_channel() {
    for level in 0..=255u8 {
        for color in [
            ColorBytes::from_rgb(level, 0, 255),
            ColorBytes::from_rgb(255, level, 0),
            ColorBytes::from_rgb(0, 255, level),
        ] {
            assert_eq!(ColorBytes::from_hex(color.as_hex()), Ok(color));
        }
    }
}
