use vstd::prelude::*;
use vstd::string::StrSliceExecFns;

use crate::errors::ArtError;

verus! {

/// An RGB color with 8-bit channels.
#[derive(Clone, Copy, Debug, PartialEq, Eq, Structural)]
pub struct Color {
    pub r: u8,
    pub g: u8,
    pub b: u8,
}

/// The value of a hex digit, or -1 for any other character.
pub open spec fn spec_hex_val(c: char) -> int {
    let u = c as u32;
    if 0x30 <= u && u <= 0x39 {
        u - 0x30
    } else if 0x41 <= u && u <= 0x46 {
        u - 0x37
    } else if 0x61 <= u && u <= 0x66 {
        u - 0x57
    } else {
        -1
    }
}

/// A string with its single leading `#` removed, if it has one.
pub open spec fn spec_strip_hash(s: Seq<char>) -> Seq<char> {
    if s.len() > 0 && s[0] == '#' {
        s.drop_first()
    } else {
        s
    }
}

/// Whether, after stripping a leading `#`, the string holds at least six
/// characters and the first six are hex digits. Trailing characters are
/// ignored.
pub open spec fn spec_hex_ok(s: Seq<char>) -> bool {
    let t = spec_strip_hash(s);
    &&& t.len() >= 6
    &&& forall|i: int| 0 <= i < 6 ==> spec_hex_val(#[trigger] t[i]) >= 0
}

/// The color encoded by the first six hex digits after an optional `#`:
/// two digits per channel, in R, G, B order.
pub open spec fn spec_hex_color(s: Seq<char>) -> Color {
    let t = spec_strip_hash(s);
    Color {
        r: (spec_hex_val(t[0]) * 16 + spec_hex_val(t[1])) as u8,
        g: (spec_hex_val(t[2]) * 16 + spec_hex_val(t[3])) as u8,
        b: (spec_hex_val(t[4]) * 16 + spec_hex_val(t[5])) as u8,
    }
}

/// The value of one hex digit character, case-insensitive.
fn hex_digit_val(c: char) -> (r: Option<u8>)
    ensures
        spec_hex_val(c) >= 0 ==> r == Some(spec_hex_val(c) as u8),
        spec_hex_val(c) < 0 ==> r is None,
{
    let u = c as u32;
    if 0x30 <= u && u <= 0x39 {
        Some((u - 0x30) as u8)
    } else if 0x41 <= u && u <= 0x46 {
        Some((u - 0x37) as u8)
    } else if 0x61 <= u && u <= 0x66 {
        Some((u - 0x57) as u8)
    } else {
        None
    }
}

/// Parses a background color from a hex string: strips one leading `#`,
/// requires at least six remaining characters, reads the first six as three
/// two-digit hex bytes (R, G, B) and ignores anything after them.
pub fn get_rgb_from_hex(hex: &str) -> (r: Result<Color, ArtError>)
    ensures
        r is Ok <==> spec_hex_ok(hex@),
        r is Ok ==> r->Ok_0 == spec_hex_color(hex@),
        r is Err ==> r->Err_0 == ArtError::InvalidColor,
{
    let n = hex.unicode_len();
    let offset: usize = if n > 0 && hex.get_char(0) == '#' {
        1
    } else {
        0
    };
    if n < 6 + offset {
        return Err(ArtError::InvalidColor);
    }
    let ghost t = spec_strip_hash(hex@);
    assert(t.len() + offset == n);
    assert(forall|i: int| 0 <= i < 6 ==> t[i] == hex@[i + offset]);
    let mut digits: [u8; 6] = [0, 0, 0, 0, 0, 0];
    let mut i: usize = 0;
    while i < 6
        invariant
            i <= 6,
            offset + 6 <= n,
            n == hex@.len(),
            t.len() + offset == n,
            offset == 0 || offset == 1,
            t == spec_strip_hash(hex@),
            forall|j: int| 0 <= j < 6 ==> t[j] == hex@[j + offset],
            forall|j: int|
                0 <= j < i ==> spec_hex_val(#[trigger] t[j]) >= 0 && digits[j] == spec_hex_val(
                    t[j],
                ),
        decreases 6 - i,
    {
        let c = hex.get_char(offset + i);
        match hex_digit_val(c) {
            Some(d) => {
                digits[i] = d;
            },
            None => {
                assert(c == t[i as int]);
                assert(spec_hex_val(t[i as int]) < 0);
                return Err(ArtError::InvalidColor);
            },
        }
        i = i + 1;
    }
    assert forall|j: int| 0 <= j < 6 implies digits[j] <= 15 by {
        assert(digits[j] == spec_hex_val(t[j]));
    }
    Ok(
        Color {
            r: digits[0] * 16 + digits[1],
            g: digits[2] * 16 + digits[3],
            b: digits[4] * 16 + digits[5],
        },
    )
}

} // verus!
