use color_conversion::input::{cmyk_from_text, color_from_sources, parse_channels, rgb_from_text};
use color_conversion::{ColorBytes, ColorError};

#[test]
fn a_list_of_channels_is_read_in_order() {
    assert_eq!(parse_channels("34,139,34"), Ok(vec![34, 139, 34]));
    assert_eq!(parse_channels("0"), Ok(vec![0]));
    assert_eq!(parse_channels("255,0"), Ok(vec![255, 0]));
    assert_eq!(parse_channels("1,2,3,4,5"), Ok(vec![1, 2, 3, 4, 5]));
}

#[test]
fn a_number_may_have_a_plus_sign_and_leading_zeros() {
    assert_eq!(parse_channels("+5"), Ok(vec![5]));
    assert_eq!(parse_channels("007,+08,000000000000000000000255"), Ok(vec![7, 8, 255]));
    assert_eq!(parse_channels("+0,+255"), Ok(vec![0, 255]));
}

#[test]
fn a_number_over_255_is_refused() {
    assert_eq!(parse_channels("300,0,0"), Err(ColorError::ParseError));
    assert_eq!(rgb_from_text("300,0,0"), Err(ColorError::ParseError));
    assert_eq!(parse_channels("256"), Err(ColorError::ParseError));
    assert_eq!(parse_channels("0,0,1000"), Err(ColorError::ParseError));
    assert_eq!(parse_channels("99999999999999999999999999999"), Err(ColorError::ParseError));
    assert_eq!(parse_channels("2550"), Err(ColorError::ParseError));
}

#[test]
fn a_token_that_is_no_number_is_refused() {
    assert_eq!(parse_channels(""), Err(ColorError::ParseError));
    assert_eq!(parse_channels(","), Err(ColorError::ParseError));
    assert_eq!(parse_channels("1,,2"), Err(ColorError::ParseError));
    assert_eq!(parse_channels("1,2,"), Err(ColorError::ParseError));
    assert_eq!(parse_channels(",1,2"), Err(ColorError::ParseError));
    assert_eq!(parse_channels("1, 2, 3"), Err(ColorError::ParseError));
    assert_eq!(parse_channels(" 1"), Err(ColorError::ParseError));
    assert_eq!(parse_channels("-1,2,3"), Err(ColorError::ParseError));
    assert_eq!(parse_channels("+"), Err(ColorError::ParseError));
    assert_eq!(parse_channels("++1"), Err(ColorError::ParseError));
    assert_eq!(parse_channels("1+"), Err(ColorError::ParseError));
    assert_eq!(parse_channels("1+1"), Err(ColorError::ParseError));
    assert_eq!(parse_channels("1.5"), Err(ColorError::ParseError));
    assert_eq!(parse_channels("0x10"), Err(ColorError::ParseError));
    assert_eq!(parse_channels("1_0"), Err(ColorError::ParseError));
    assert_eq!(parse_channels("a,b,c"), Err(ColorError::ParseError));
    assert_eq!(parse_channels("\u{661}"), Err(ColorError::ParseError));
    assert_eq!(parse_channels("1,\u{e9},3"), Err(ColorError::ParseError));
}

#[test]
fn a_bad_token_is_refused_wherever_it_stands() {
    assert_eq!(parse_channels("x,1,2"), Err(ColorError::ParseError));
    assert_eq!(parse_channels("1,x,2"), Err(ColorError::ParseError));
    assert_eq!(parse_channels("1,2,x"), Err(ColorError::ParseError));
    assert_eq!(parse_channels("300,1,2"), Err(ColorError::ParseError));
    assert_eq!(parse_channels("1,300,2"), Err(ColorError::ParseError));
    assert_eq!(parse_channels("1,2,300"), Err(ColorError::ParseError));
}

#[test]
fn every_byte_is_read_back_from_its_decimal_text() {
    for n in 0..=255u8 {
        assert_eq!(parse_channels(&format!("{}", n)), Ok(vec![n]));
        assert_eq!(parse_channels(&format!("{},{}", n, 255 - n)), Ok(vec![n, 255 - n]));
    }
    for n in 256..=3000u32 {
        assert_eq!(parse_channels(&format!("{}", n)), Err(ColorError::ParseError));
    }
}

#[test]
fn red_green_blue_from_text() {
    assert_eq!(rgb_from_text("34,139,34"), Ok(ColorBytes::from_rgb(34, 139, 34)));
    assert_eq!(rgb_from_text("0,0,0"), Ok(ColorBytes::from_rgb(0, 0, 0)));
    assert_eq!(rgb_from_text("255,255,255"), Ok(ColorBytes::from_rgb(255, 255, 255)));
}

#[test]
fn red_green_blue_need_three_numbers() {
    assert_eq!(rgb_from_text("1"), Err(ColorError::InvalidLength));
    assert_eq!(rgb_from_text("1,2"), Err(ColorError::InvalidLength));
    assert_eq!(rgb_from_text("1,2,3,4"), Err(ColorError::InvalidLength));
    assert_eq!(rgb_from_text("1,2,3,4,5"), Err(ColorError::InvalidLength));
    assert_eq!(rgb_from_text("1,2,"), Err(ColorError::ParseError));
    assert_eq!(rgb_from_text(""), Err(ColorError::ParseError));
}

#[test]
fn inks_from_text() {
    assert_eq!(cmyk_from_text("76,0,76,45"), Ok(ColorBytes::from_rgb(34, 140, 34)));
    assert_eq!(cmyk_from_text("0,0,0,0"), Ok(ColorBytes::from_rgb(255, 255, 255)));
    assert_eq!(cmyk_from_text("100,100,100,100"), Ok(ColorBytes::from_rgb(0, 0, 0)));
    assert_eq!(cmyk_from_text("0,0,0,100"), Ok(ColorBytes::from_rgb(0, 0, 0)));
}

#[test]
fn inks_need_four_numbers() {
    assert_eq!(cmyk_from_text("1"), Err(ColorError::InvalidLength));
    assert_eq!(cmyk_from_text("1,2,3"), Err(ColorError::InvalidLength));
    assert_eq!(cmyk_from_text("1,2,3,4,5"), Err(ColorError::InvalidLength));
}

#[test]
fn inks_are_percentages() {
    assert_eq!(cmyk_from_text("101,0,0,0"), Err(ColorError::ParseError));
    assert_eq!(cmyk_from_text("0,0,0,101"), Err(ColorError::ParseError));
    assert_eq!(cmyk_from_text("0,255,0,0"), Err(ColorError::ParseError));
    assert_eq!(cmyk_from_text("0,0,256,0"), Err(ColorError::ParseError));
    assert_eq!(cmyk_from_text("200,1"), Err(ColorError::ParseError));
    assert_eq!(cmyk_from_text("0,0,x,0"), Err(ColorError::ParseError));
}

#[test]
fn without_a_source_there_is_no_colour() {
    assert_eq!(color_from_sources(None, None, None), Err(ColorError::UsageError));
}

#[test]
fn each_source_alone_gives_its_colour() {
    assert_eq!(
        color_from_sources(Some(String::from("228B22")), None, None),
        Ok(ColorBytes::from_rgb(34, 139, 34))
    );
    assert_eq!(
        color_from_sources(None, Some(String::from("34,139,34")), None),
        Ok(ColorBytes::from_rgb(34, 139, 34))
    );
    assert_eq!(
        color_from_sources(None, None, Some(String::from("76,0,76,45"))),
        Ok(ColorBytes::from_rgb(34, 140, 34))
    );
}

#[test]
fn hex_is_preferred_to_rgb_and_rgb_to_cmyk() {
    let hex = || Some(String::from("FF0000"));
    let rgb = || Some(String::from("0,255,0"));
    let cmyk = || Some(String::from("100,100,0,0"));
    assert_eq!(color_from_sources(hex(), rgb(), cmyk()), Ok(ColorBytes::from_rgb(255, 0, 0)));
    assert_eq!(color_from_sources(hex(), None, cmyk()), Ok(ColorBytes::from_rgb(255, 0, 0)));
    assert_eq!(color_from_sources(hex(), rgb(), None), Ok(ColorBytes::from_rgb(255, 0, 0)));
    assert_eq!(color_from_sources(None, rgb(), cmyk()), Ok(ColorBytes::from_rgb(0, 255, 0)));
    assert_eq!(color_from_sources(None, None, cmyk()), Ok(ColorBytes::from_rgb(0, 0, 255)));
}

#[test]
fn a_refused_source_is_not_passed_over_for_the_next() {
    let rgb = || Some(String::from("0,255,0"));
    assert_eq!(
        color_from_sources(Some(String::from("228B2")), rgb(), None),
        Err(ColorError::DecodeError)
    );
    assert_eq!(
        color_from_sources(None, Some(String::from("300,0,0")), Some(String::from("0,0,0,0"))),
        Err(ColorError::ParseError)
    );
    assert_eq!(
        color_from_sources(None, Some(String::from("1,2")), Some(String::from("0,0,0,0"))),
        Err(ColorError::InvalidLength)
    );
}

#[test]
fn a_colour_is_read_back_from_its_channels_in_decimal() {
    for r in (0..=255u8).step_by(17) {
        for g in (0..=255u8).step_by(5) {
            for b in (0..=255u8).step_by(51) {
                let text = format!("{},{},{}", r, g, b);
                assert_eq!(rgb_from_text(&text), Ok(ColorBytes::from_rgb(r, g, b)));
            }
        }
    }
}

#[test]
fn inks_are_read_back_from_their_percentages_in_decimal() {
    for c in (0..=100u8).step_by(10) {
        for m in (0..=100u8).step_by(25) {
            for k in (0..=100u8).step_by(9) {
                let text = format!("{},{},{},{}", c, m, 100 - c, k);
                assert_eq!(cmyk_from_text(&text), Ok(ColorBytes::from_cmyk(c, m, 100 - c, k)));
            }
        }
    }
}
