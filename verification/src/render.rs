//! Colours in `#RRGGBB` form, read into their byte channels.
use vstd::prelude::*;
use vstd::string::StringSliceAdditionalSpecFns;

use crate::config::{is_ascii_hex_digit_byte, is_hex_color, is_hex_digit_byte};

verus! {

/// An opaque colour by its three 8-bit channels.
#[derive(Clone, Copy, Debug, PartialEq, Eq, Structural)]
pub struct Rgb {
    pub red: u8,
    pub green: u8,
    pub blue: u8,
}

/// Why a colour string was refused.
#[derive(Clone, Copy, Debug, PartialEq, Eq, Structural)]
pub enum ColorParseError {
    MissingPrefix,
    InvalidLength,
    InvalidHex,
}

impl ColorParseError {
    /// The human-readable description of the error.
    pub fn message(self) -> (m: &'static str)
        ensures
            m@ == match self {
                ColorParseError::MissingPrefix => "color must start with #"@,
                ColorParseError::InvalidLength => "color must use #RRGGBB format"@,
                ColorParseError::InvalidHex => "color contains invalid hex digits"@,
            },
    {
        match self {
            ColorParseError::MissingPrefix => "color must start with #",
            ColorParseError::InvalidLength => "color must use #RRGGBB format",
            ColorParseError::InvalidHex => "color contains invalid hex digits",
        }
    }
}

/// The value of an ASCII hexadecimal digit.
pub open spec fn hex_value(b: u8) -> int {
    if 48 <= b <= 57 {
        b - 48
    } else if 65 <= b <= 70 {
        b - 55
    } else {
        b - 87
    }
}

/// A two-byte channel read as a base-16 number: exactly two hex digits.
pub open spec fn spec_channel(hi: u8, lo: u8) -> Option<u8> {
    if is_ascii_hex_digit_byte(hi) && is_ascii_hex_digit_byte(lo) {
        Some((16 * hex_value(hi) + hex_value(lo)) as u8)
    } else {
        None
    }
}

/// The colour that the UTF-8 bytes of a `#RRGGBB` string name.
pub open spec fn spec_parse_hex_rgb(b: Seq<u8>) -> Result<Rgb, ColorParseError> {
    if b.len() == 0 || b[0] != 35 {
        Err(ColorParseError::MissingPrefix)
    } else if b.len() != 7 {
        Err(ColorParseError::InvalidLength)
    } else {
        match (spec_channel(b[1], b[2]), spec_channel(b[3], b[4]), spec_channel(b[5], b[6])) {
            (Some(red), Some(green), Some(blue)) => Ok(Rgb { red, green, blue }),
            _ => Err(ColorParseError::InvalidHex),
        }
    }
}

fn hex_digit_value(b: u8) -> (v: u8)
    requires
        is_ascii_hex_digit_byte(b),
    ensures
        v == hex_value(b),
        v < 16,
{
    if 48 <= b && b <= 57 {
        b - 48
    } else if 65 <= b && b <= 70 {
        b - 55
    } else {
        b - 87
    }
}

fn parse_channel(hi: u8, lo: u8) -> (r: Option<u8>)
    ensures
        r == spec_channel(hi, lo),
{
    if is_hex_digit_byte(hi) && is_hex_digit_byte(lo) {
        let h = hex_digit_value(hi);
        let l = hex_digit_value(lo);
        Some(16 * h + l)
    } else {
        None
    }
}

/// Reads a `#RRGGBB` colour.
pub fn parse_hex_rgb(value: &str) -> (r: Result<Rgb, ColorParseError>)
    ensures
        r == spec_parse_hex_rgb(value.spec_bytes()),
{
    let b = value.as_bytes();
    if b.len() == 0 || b[0] != 35 {
        return Err(ColorParseError::MissingPrefix);
    }
    if b.len() != 7 {
        return Err(ColorParseError::InvalidLength);
    }
    let red = parse_channel(b[1], b[2]);
    let green = parse_channel(b[3], b[4]);
    let blue = parse_channel(b[5], b[6]);
    match (red, green, blue) {
        (Some(red), Some(green), Some(blue)) => Ok(Rgb { red, green, blue }),
        _ => Err(ColorParseError::InvalidHex),
    }
}

/// A colour that passes the configuration's `#RRGGBB` check always parses.
pub proof fn law_valid_color_parses(b: Seq<u8>)
    requires
        is_hex_color(b),
    ensures
        spec_parse_hex_rgb(b) is Ok,
{
    assert(is_ascii_hex_digit_byte(b[1]) && is_ascii_hex_digit_byte(b[2]));
    assert(is_ascii_hex_digit_byte(b[3]) && is_ascii_hex_digit_byte(b[4]));
    assert(is_ascii_hex_digit_byte(b[5]) && is_ascii_hex_digit_byte(b[6]));
}

/// The digit that writes a value below 16 in upper-case hexadecimal.
pub open spec fn hex_digit(v: int) -> u8 {
    if v < 10 {
        (48 + v) as u8
    } else {
        (55 + v) as u8
    }
}

/// `#RRGGBB` in upper-case hexadecimal for a colour.
pub open spec fn hex_bytes(c: Rgb) -> Seq<u8> {
    seq![
        35u8,
        hex_digit(c.red as int / 16),
        hex_digit(c.red as int % 16),
        hex_digit(c.green as int / 16),
        hex_digit(c.green as int % 16),
        hex_digit(c.blue as int / 16),
        hex_digit(c.blue as int % 16),
    ]
}

proof fn lemma_channel_roundtrip(v: u8)
    ensures
        spec_channel(hex_digit(v as int / 16), hex_digit(v as int % 16)) == Some(v),
{
    assert(v / 16 < 16);
    assert(v % 16 < 16);
    assert(16 * (v / 16) + v % 16 == v);
}

/// Writing a colour as `#RRGGBB` and reading it back gives the same colour.
pub proof fn law_hex_roundtrip(c: Rgb)
    ensures
        spec_parse_hex_rgb(hex_bytes(c)) == Ok::<Rgb, ColorParseError>(c),
{
    lemma_channel_roundtrip(c.red);
    lemma_channel_roundtrip(c.green);
    lemma_channel_roundtrip(c.blue);
}


/// ASCII upper-casing of one byte; other bytes are unchanged.
pub open spec fn ascii_upper_byte(x: u8) -> u8 {
    if 97 <= x <= 122 {
        (x - 32) as u8
    } else {
        x
    }
}

/// ASCII upper-casing of a byte string.
pub open spec fn upper_bytes(b: Seq<u8>) -> Seq<u8> {
    b.map_values(|x: u8| ascii_upper_byte(x))
}

proof fn lemma_channel_upper(hi: u8, lo: u8)
    ensures
        spec_channel(ascii_upper_byte(hi), ascii_upper_byte(lo)) == spec_channel(hi, lo),
{
}

/// The case of the hex digits does not matter: `#abcdef` names the colour
/// that `#ABCDEF` names, and a string is refused, for the same reason,
/// exactly when its upper-cased form is.
pub proof fn law_hex_digits_ignore_case(b: Seq<u8>)
    ensures
        spec_parse_hex_rgb(upper_bytes(b)) == spec_parse_hex_rgb(b),
{
    let u = upper_bytes(b);
    assert(u.len() == b.len());
    if b.len() > 0 {
        assert(u[0] == ascii_upper_byte(b[0]));
    }
    if b.len() == 7 {
        assert(u[1] == ascii_upper_byte(b[1]) && u[2] == ascii_upper_byte(b[2]));
        assert(u[3] == ascii_upper_byte(b[3]) && u[4] == ascii_upper_byte(b[4]));
        assert(u[5] == ascii_upper_byte(b[5]) && u[6] == ascii_upper_byte(b[6]));
        lemma_channel_upper(b[1], b[2]);
        lemma_channel_upper(b[3], b[4]);
        lemma_channel_upper(b[5], b[6]);
    }
}

} // verus!
