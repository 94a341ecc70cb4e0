//! Parsing of `rrggbb` hexadecimal colours.

use vstd::prelude::*;
use vstd::string::StrSliceExecFns;

verus! {

/// A colour as red, green and blue channel values.
pub type RgbArray = [u8; 3];

/// Why a colour could not be parsed.
#[derive(Debug, Clone, Copy, PartialEq, Eq, Structural)]
pub enum ParserError {
    /// The input ends before a two-digit unit is complete.
    Incomplete,
    /// The input holds a character that is not a hex digit, or data after the colour.
    Invalid,
}

/// Value of a hexadecimal digit (either case), `None` for any other character.
pub open spec fn hex_digit_value(c: char) -> Option<u8> {
    if '0' <= c && c <= '9' {
        Some((c as u32 - '0' as u32) as u8)
    } else if 'a' <= c && c <= 'f' {
        Some((c as u32 - 'a' as u32 + 10) as u8)
    } else if 'A' <= c && c <= 'F' {
        Some((c as u32 - 'A' as u32 + 10) as u8)
    } else {
        None
    }
}

/// The byte written by the first two characters of `s`. The input is too short
/// only when it holds fewer than two bytes: nothing, or one ASCII character.
/// A single character of two or more bytes is long enough and not a hex pair.
pub open spec fn hex_pair(s: Seq<char>) -> Result<u8, ParserError> {
    if s.len() == 0 || (s.len() == 1 && s[0] <= '\u{7f}') {
        Err(ParserError::Incomplete)
    } else if s.len() == 1 {
        Err(ParserError::Invalid)
    } else {
        match (hex_digit_value(s[0]), hex_digit_value(s[1])) {
            (Some(h), Some(l)) => Ok((16 * h + l) as u8),
            _ => Err(ParserError::Invalid),
        }
    }
}

/// The colour written by `s`: three hex pairs and nothing after them.
pub open spec fn rgb_of(s: Seq<char>) -> Result<(u8, u8, u8), ParserError> {
    match hex_pair(s) {
        Err(e) => Err(e),
        Ok(r) => match hex_pair(s.skip(2)) {
            Err(e) => Err(e),
            Ok(g) => match hex_pair(s.skip(4)) {
                Err(e) => Err(e),
                Ok(b) => if s.len() > 6 {
                    Err(ParserError::Invalid)
                } else {
                    Ok((r, g, b))
                },
            },
        },
    }
}

fn hex_digit(c: char) -> (r: Option<u8>)
    ensures
        r == hex_digit_value(c),
        r matches Some(v) ==> v < 16,
{
    if '0' <= c && c <= '9' {
        Some((c as u32 - '0' as u32) as u8)
    } else if 'a' <= c && c <= 'f' {
        Some((c as u32 - 'a' as u32 + 10) as u8)
    } else if 'A' <= c && c <= 'F' {
        Some((c as u32 - 'A' as u32 + 10) as u8)
    } else {
        None
    }
}

/// Accepts RGB colours of the form ab7c01 (no # at the start).
pub fn parse_rgb(input: &str) -> (r: Result<RgbArray, ParserError>)
    ensures
        match rgb_of(input@) {
            Ok((red, green, blue)) => r matches Ok(a) && a@ == seq![red, green, blue],
            Err(e) => r == Err::<RgbArray, ParserError>(e),
        },
{
    let (red, remaining) = match parse_two_digit_hex(input) {
        Ok(p) => p,
        Err(e) => return Err(e),
    };
    let (green, remaining) = match parse_two_digit_hex(remaining) {
        Ok(p) => p,
        Err(e) => return Err(e),
    };
    let (blue, remaining) = match parse_two_digit_hex(remaining) {
        Ok(p) => p,
        Err(e) => return Err(e),
    };
    assert(input@.skip(2).skip(2) =~= input@.skip(4));
    assert(input@.skip(4).skip(2) =~= input@.skip(6));
    if remaining.unicode_len() > 0 {
        return Err(ParserError::Invalid);
    }
    let a: RgbArray = [red, green, blue];
    assert(a@ =~= seq![red, green, blue]);
    Ok(a)
}

/// Reads one byte written as two hex digits and returns it with the rest of the input.
pub fn parse_two_digit_hex<'a>(input: &'a str) -> (r: Result<(u8, &'a str), ParserError>)
    ensures
        match hex_pair(input@) {
            Ok(v) => r matches Ok((x, rest)) && x == v && rest@ == input@.skip(2),
            Err(e) => r matches Err(f) && f == e,
        },
{
    let n = input.unicode_len();
    if n == 0 {
        return Err(ParserError::Incomplete);
    }
    if n == 1 {
        if input.get_char(0) <= '\u{7f}' {
            return Err(ParserError::Incomplete);
        }
        return Err(ParserError::Invalid);
    }
    match (hex_digit(input.get_char(0)), hex_digit(input.get_char(1))) {
        (Some(h), Some(l)) => {
            let rest = input.substring_char(2, n);
            assert(rest@ =~= input@.skip(2));
            Ok((16 * h + l, rest))
        },
        _ => Err(ParserError::Invalid),
    }
}

} // verus!
