use vstd::prelude::*;

use crate::errors::ArtError;
use crate::text::{
    char_from_u32, char_is_alphabetic, is_alpha_char, spec_trimmed, str_to_chars, trim_chars,
    chars_match,
};

verus! {

/// The enumerated domain of named charsets, each standing for a contiguous
/// Unicode code-point range.
#[derive(Clone, Copy, Debug, PartialEq, Eq, Structural)]
pub enum Charset {
    Latin,
    Cyrillic,
    Runic,
    Hebrew,
    Hiragana,
    Katakana,
    Hangul,
    CkjUnified,
    Greek,
    Emoticons,
    Decimal,
    Binary,
    Hexadecimal,
    Braille,
    PlayingCards,
}

/// Every code point of `[lo, hi]`, in order.
pub open spec fn full_range(lo: int, hi: int) -> Seq<char>
    decreases hi - lo + 1,
{
    if lo > hi {
        Seq::empty()
    } else {
        full_range(lo, hi - 1).push(hi as char)
    }
}

/// The alphabetic code points of `[lo, hi]`, in order.
pub open spec fn alpha_range(lo: int, hi: int) -> Seq<char>
    decreases hi - lo + 1,
{
    if lo > hi {
        Seq::empty()
    } else if is_alpha_char(hi as char) {
        alpha_range(lo, hi - 1).push(hi as char)
    } else {
        alpha_range(lo, hi - 1)
    }
}

/// Whether a code point is one of the four reserved gaps of the playing-card
/// block.
pub open spec fn is_card_gap(c: char) -> bool {
    c == '\u{1F0AF}' || c == '\u{1F0B0}' || c == '\u{1F0C0}' || c == '\u{1F0D0}'
}

/// The code points of `[lo, hi]` that are not reserved gaps, in order.
pub open spec fn cards_range(lo: int, hi: int) -> Seq<char>
    decreases hi - lo + 1,
{
    if lo > hi {
        Seq::empty()
    } else if is_card_gap(hi as char) {
        cards_range(lo, hi - 1)
    } else {
        cards_range(lo, hi - 1).push(hi as char)
    }
}

/// The characters a named charset stands for.
pub open spec fn charset_seq(c: Charset) -> Seq<char> {
    match c {
        Charset::Latin => alpha_range(0x41, 0x7A),
        Charset::Cyrillic => alpha_range(0x400, 0x4FF),
        Charset::Runic => alpha_range(0x16A0, 0x16FF),
        Charset::Hebrew => alpha_range(0x590, 0x5FF),
        Charset::Hiragana => alpha_range(0x3040, 0x309F),
        Charset::Katakana => alpha_range(0x30A0, 0x30FF),
        Charset::Hangul => alpha_range(0x1100, 0x11FF),
        Charset::CkjUnified => alpha_range(0x4E00, 0x9FFF),
        Charset::Greek => alpha_range(0x370, 0x3E1),
        Charset::Emoticons => full_range(0x1F600, 0x1F64F),
        Charset::Decimal => full_range(0x30, 0x39),
        Charset::Binary => seq!['0', '1'],
        Charset::Hexadecimal => full_range(0x30, 0x39) + full_range(0x41, 0x46),
        Charset::Braille => full_range(0x2800, 0x28FF),
        Charset::PlayingCards => cards_range(0x1F0A0, 0x1F0DF),
    }
}

/// Collects every code point of `[lo, hi]`; the range must avoid the
/// surrogate block.
fn collect_full_range(lo: u32, hi: u32) -> (r: Vec<char>)
    requires
        lo <= hi,
        hi < 0xD800 || 0xE000 <= lo,
        hi <= 0x10FFFF,
    ensures
        r@ == full_range(lo as int, hi as int),
{
    let mut r: Vec<char> = Vec::new();
    let mut u: u32 = lo;
    while u <= hi
        invariant
            lo <= u <= hi + 1,
            hi < 0xD800 || 0xE000 <= lo,
            hi <= 0x10FFFF,
            r@ == full_range(lo as int, u - 1),
        decreases hi + 1 - u,
    {
        let c = char_from_u32(u);
        proof {
            assert(c == u as char);
        }
        r.push(c);
        u = u + 1;
    }
    r
}

/// Collects the alphabetic code points of `[lo, hi]`; the range must avoid
/// the surrogate block.
fn collect_alpha_range(lo: u32, hi: u32) -> (r: Vec<char>)
    requires
        lo <= hi,
        hi < 0xD800 || 0xE000 <= lo,
        hi <= 0x10FFFF,
    ensures
        r@ == alpha_range(lo as int, hi as int),
{
    let mut r: Vec<char> = Vec::new();
    let mut u: u32 = lo;
    while u <= hi
        invariant
            lo <= u <= hi + 1,
            hi < 0xD800 || 0xE000 <= lo,
            hi <= 0x10FFFF,
            r@ == alpha_range(lo as int, u - 1),
        decreases hi + 1 - u,
    {
        let c = char_from_u32(u);
        proof {
            assert(c == u as char);
        }
        if char_is_alphabetic(c) {
            r.push(c);
        }
        u = u + 1;
    }
    r
}

/// Collects the playing-card block without its four reserved gap code points.
fn collect_cards_range(lo: u32, hi: u32) -> (r: Vec<char>)
    requires
        lo <= hi,
        0xE000 <= lo,
        hi <= 0x10FFFF,
    ensures
        r@ == cards_range(lo as int, hi as int),
{
    let mut r: Vec<char> = Vec::new();
    let mut u: u32 = lo;
    while u <= hi
        invariant
            lo <= u <= hi + 1,
            0xE000 <= lo,
            hi <= 0x10FFFF,
            r@ == cards_range(lo as int, u - 1),
        decreases hi + 1 - u,
    {
        let c = char_from_u32(u);
        proof {
            assert(c == u as char);
        }
        if c != '\u{1F0AF}' && c != '\u{1F0B0}' && c != '\u{1F0C0}' && c != '\u{1F0D0}' {
            r.push(c);
        }
        u = u + 1;
    }
    r
}

/// The characters of a named charset, in code-point order: the block's code
/// points, filtered to alphabetic ones where the charset asks for letters,
/// and skipping the playing-card block's four reserved gaps.
pub fn get_characters(charset: Charset) -> (r: Vec<char>)
    ensures
        r@ == charset_seq(charset),
{
    match charset {
        Charset::Latin => collect_alpha_range(0x41, 0x7A),
        Charset::Cyrillic => collect_alpha_range(0x400, 0x4FF),
        Charset::Runic => collect_alpha_range(0x16A0, 0x16FF),
        Charset::Hebrew => collect_alpha_range(0x590, 0x5FF),
        Charset::Hiragana => collect_alpha_range(0x3040, 0x309F),
        Charset::Katakana => collect_alpha_range(0x30A0, 0x30FF),
        Charset::Hangul => collect_alpha_range(0x1100, 0x11FF),
        Charset::CkjUnified => collect_alpha_range(0x4E00, 0x9FFF),
        Charset::Greek => collect_alpha_range(0x370, 0x3E1),
        Charset::Emoticons => collect_full_range(0x1F600, 0x1F64F),
        Charset::Decimal => collect_full_range(0x30, 0x39),
        Charset::Binary => {
            let mut r: Vec<char> = Vec::new();
            r.push('0');
            r.push('1');
            proof {
                assert(r@ =~= seq!['0', '1']);
            }
            r
        },
        Charset::Hexadecimal => {
            let mut r = collect_full_range(0x30, 0x39);
            let mut tail = collect_full_range(0x41, 0x46);
            r.append(&mut tail);
            r
        },
        Charset::Braille => collect_full_range(0x2800, 0x28FF),
        Charset::PlayingCards => collect_cards_range(0x1F0A0, 0x1F0DF),
    }
}

/// An upper-case ASCII letter lowered; every other character unchanged.
pub open spec fn lower_char(c: char) -> char {
    if 0x41 <= c as u32 && c as u32 <= 0x5A {
        ((c as u32 + 32) as u32) as char
    } else {
        c
    }
}

/// A sequence with each character lowered by `lower_char`.
pub open spec fn lower_seq(s: Seq<char>) -> Seq<char> {
    Seq::new(s.len(), |i: int| lower_char(s[i]))
}

/// The charset a lowered name stands for, or `UnknownCharset`.
pub open spec fn charset_of_name(t: Seq<char>) -> Result<Charset, ArtError> {
    if t == "latin"@ {
        Ok(Charset::Latin)
    } else if t == "cyrillic"@ {
        Ok(Charset::Cyrillic)
    } else if t == "runic"@ {
        Ok(Charset::Runic)
    } else if t == "hebrew"@ {
        Ok(Charset::Hebrew)
    } else if t == "hiragana"@ {
        Ok(Charset::Hiragana)
    } else if t == "katakana"@ {
        Ok(Charset::Katakana)
    } else if t == "hangul"@ {
        Ok(Charset::Hangul)
    } else if t == "cjkunified"@ {
        Ok(Charset::CkjUnified)
    } else if t == "greek"@ {
        Ok(Charset::Greek)
    } else if t == "emoticons"@ {
        Ok(Charset::Emoticons)
    } else if t == "decimal"@ {
        Ok(Charset::Decimal)
    } else if t == "hexadecimal"@ {
        Ok(Charset::Hexadecimal)
    } else if t == "binary"@ {
        Ok(Charset::Binary)
    } else if t == "braille"@ {
        Ok(Charset::Braille)
    } else if t == "playingcards"@ {
        Ok(Charset::PlayingCards)
    } else {
        Err(ArtError::UnknownCharset)
    }
}

impl Charset {
    /// Resolves a charset name, ASCII-case-insensitively, to its charset;
    /// any name outside the enumerated domain is `UnknownCharset`.
    pub fn from_name(s: &str) -> (r: Result<Charset, ArtError>)
        ensures
            r == charset_of_name(lower_seq(s@)),
    {
        let chars = str_to_chars(s);
        let n = chars.len();
        let mut lowered: Vec<char> = Vec::new();
        let mut i: usize = 0;
        while i < n
            invariant
                i <= n,
                n == chars@.len(),
                chars@ == s@,
                lowered@.len() == i,
                forall|j: int| 0 <= j < i ==> lowered@[j] == lower_char(s@[j]),
            decreases n - i,
        {
            let c = chars[i];
            let u = c as u32;
            if 0x41 <= u && u <= 0x5A {
                lowered.push(char_from_u32(u + 32));
            } else {
                lowered.push(c);
            }
            i = i + 1;
        }
        proof {
            assert(lowered@ =~= lower_seq(s@));
        }
        let t = &lowered;
        if chars_match(t, "latin") {
            Ok(Charset::Latin)
        } else if chars_match(t, "cyrillic") {
            Ok(Charset::Cyrillic)
        } else if chars_match(t, "runic") {
            Ok(Charset::Runic)
        } else if chars_match(t, "hebrew") {
            Ok(Charset::Hebrew)
        } else if chars_match(t, "hiragana") {
            Ok(Charset::Hiragana)
        } else if chars_match(t, "katakana") {
            Ok(Charset::Katakana)
        } else if chars_match(t, "hangul") {
            Ok(Charset::Hangul)
        } else if chars_match(t, "cjkunified") {
            Ok(Charset::CkjUnified)
        } else if chars_match(t, "greek") {
            Ok(Charset::Greek)
        } else if chars_match(t, "emoticons") {
            Ok(Charset::Emoticons)
        } else if chars_match(t, "decimal") {
            Ok(Charset::Decimal)
        } else if chars_match(t, "hexadecimal") {
            Ok(Charset::Hexadecimal)
        } else if chars_match(t, "binary") {
            Ok(Charset::Binary)
        } else if chars_match(t, "braille") {
            Ok(Charset::Braille)
        } else if chars_match(t, "playingcards") {
            Ok(Charset::PlayingCards)
        } else {
            Err(ArtError::UnknownCharset)
        }
    }
}

/// The characters of a custom charset file: the file's trimmed contents,
/// split into characters. A file that trims to nothing yields
/// `EmptyCharset`.
pub fn custom_charset(contents: &str) -> (r: Result<Vec<char>, ArtError>)
    ensures
        r is Ok <==> spec_trimmed(contents@).len() > 0,
        r is Ok ==> r->Ok_0@ == spec_trimmed(contents@),
        r is Err ==> r->Err_0 == ArtError::EmptyCharset,
{
    let chars = str_to_chars(contents);
    let trimmed = trim_chars(&chars);
    if trimmed.len() == 0 {
        Err(ArtError::EmptyCharset)
    } else {
        Ok(trimmed)
    }
}

} // verus!
