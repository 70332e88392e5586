use atomicwm::render::{parse_hex_rgb, ColorParseError, Rgb};

#[test]
fn parses_black_channels() {
    assert_eq!(parse_hex_rgb("#000000"), Ok(Rgb { red: 0, green: 0, blue: 0 }));
}

#[test]
fn parses_white_channels() {
    assert_eq!(parse_hex_rgb("#FFFFFF"), Ok(Rgb { red: 255, green: 255, blue: 255 }));
    assert_eq!(parse_hex_rgb("#ffffff"), Ok(Rgb { red: 255, green: 255, blue: 255 }));
}

#[test]
fn parses_default_focused_border_channels() {
    assert_eq!(parse_hex_rgb("#7C3AED"), Ok(Rgb { red: 124, green: 58, blue: 237 }));
}

#[test]
fn color_rejects_missing_prefix() {
    assert_eq!(parse_hex_rgb("000000"), Err(ColorParseError::MissingPrefix));
    assert_eq!(parse_hex_rgb(""), Err(ColorParseError::MissingPrefix));
}

#[test]
fn color_rejects_short_strings() {
    assert_eq!(parse_hex_rgb("#000"), Err(ColorParseError::InvalidLength));
}

#[test]
fn color_rejects_invalid_hex() {
    assert_eq!(parse_hex_rgb("#GGGGGG"), Err(ColorParseError::InvalidHex));
    assert_eq!(parse_hex_rgb("#00-100"), Err(ColorParseError::InvalidHex));
}

#[test]
fn channel_rejects_a_sign() {
    assert_eq!(parse_hex_rgb("#+F0A+1"), Err(ColorParseError::InvalidHex));
    assert_eq!(parse_hex_rgb("#+F+F+F"), Err(ColorParseError::InvalidHex));
}

#[test]
fn default_background_channels() {
    assert_eq!(parse_hex_rgb("#111111"), Ok(Rgb { red: 17, green: 17, blue: 17 }));
}

#[test]
fn color_error_messages() {
    assert_eq!(ColorParseError::MissingPrefix.message(), "color must start with #");
    assert_eq!(ColorParseError::InvalidLength.message(), "color must use #RRGGBB format");
    assert_eq!(ColorParseError::InvalidHex.message(), "color contains invalid hex digits");
}
