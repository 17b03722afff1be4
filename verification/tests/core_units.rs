use glyph_mosaic::charset::{custom_charset, get_characters, Charset};
use glyph_mosaic::color::{get_rgb_from_hex, Color};
use glyph_mosaic::errors::ArtError;
use glyph_mosaic::sampler::{get_average_color, PixelBuffer, Region};
use glyph_mosaic::text::sanatize_text;

fn rgb(r: u8, g: u8, b: u8) -> Color {
    Color { r, g, b }
}

#[test]
fn hex_white_with_hash() {
    assert_eq!(get_rgb_from_hex("#FFFFFF"), Ok(rgb(255, 255, 255)));
}

#[test]
fn hex_black_without_hash() {
    assert_eq!(get_rgb_from_hex("000000"), Ok(rgb(0, 0, 0)));
}

#[test]
fn hex_too_short_is_invalid() {
    assert_eq!(get_rgb_from_hex("#fff"), Err(ArtError::InvalidColor));
    assert_eq!(get_rgb_from_hex("#12345"), Err(ArtError::InvalidColor));
    assert_eq!(get_rgb_from_hex(""), Err(ArtError::InvalidColor));
}

#[test]
fn hex_mixed_case() {
    assert_eq!(get_rgb_from_hex("#AbCdEf"), Ok(rgb(0xAB, 0xCD, 0xEF)));
}

#[test]
fn hex_trailing_characters_ignored() {
    assert_eq!(get_rgb_from_hex("12345678"), Ok(rgb(0x12, 0x34, 0x56)));
    assert_eq!(get_rgb_from_hex("#00FF00 trailing"), Ok(rgb(0, 255, 0)));
}

#[test]
fn hex_non_digit_is_invalid() {
    assert_eq!(get_rgb_from_hex("12g456"), Err(ArtError::InvalidColor));
}

#[test]
fn average_of_uniform_region_is_exact() {
    let buf = PixelBuffer::new_filled(3, 3, rgb(17, 200, 9));
    let region = Region { x: 0, y: 0, width: 3, height: 3 };
    assert_eq!(get_average_color(&buf, region), Ok(rgb(17, 200, 9)));
    let inner = Region { x: 1, y: 1, width: 2, height: 2 };
    assert_eq!(get_average_color(&buf, inner), Ok(rgb(17, 200, 9)));
}

#[test]
fn average_truncates_fractional_mean() {
    let buf = PixelBuffer::from_pixels(2, 1, vec![rgb(0, 0, 10), rgb(255, 1, 11)]);
    let region = Region { x: 0, y: 0, width: 2, height: 1 };
    // sums are 255, 1, 21 over 2 pixels: each channel is the floor.
    assert_eq!(get_average_color(&buf, region), Ok(rgb(127, 0, 10)));
}

#[test]
fn average_clips_region_to_buffer() {
    let buf = PixelBuffer::from_pixels(
        2,
        2,
        vec![rgb(10, 10, 10), rgb(20, 20, 20), rgb(30, 30, 30), rgb(40, 40, 40)],
    );
    // extends far past the bounds: only the bottom-right pixel is sampled.
    let region = Region { x: 1, y: 1, width: 100, height: 100 };
    assert_eq!(get_average_color(&buf, region), Ok(rgb(40, 40, 40)));
    // a full-width request on the top row clips to the two top pixels.
    let row = Region { x: 0, y: 0, width: 5, height: 1 };
    assert_eq!(get_average_color(&buf, row), Ok(rgb(15, 15, 15)));
}

#[test]
fn average_of_empty_region_is_an_error() {
    let buf = PixelBuffer::new_filled(2, 2, rgb(1, 2, 3));
    let outside = Region { x: 2, y: 0, width: 1, height: 1 };
    assert_eq!(get_average_color(&buf, outside), Err(ArtError::EmptyRegion));
    let zero = Region { x: 0, y: 0, width: 0, height: 1 };
    assert_eq!(get_average_color(&buf, zero), Err(ArtError::EmptyRegion));
}

#[test]
fn sanitize_keeps_only_alphabetic() {
    assert_eq!(sanatize_text(String::from("Hello, World!")), "HelloWorld");
    assert_eq!(sanatize_text(String::from("123 .,;!")), "");
    assert_eq!(sanatize_text(String::from("déjà vu")), "déjàvu");
}

#[test]
fn charset_decimal_and_binary() {
    let decimal = get_characters(Charset::Decimal);
    assert_eq!(decimal, ('0'..='9').collect::<Vec<char>>());
    let binary = get_characters(Charset::Binary);
    assert_eq!(binary, vec!['0', '1']);
}

#[test]
fn charset_hexadecimal_digits_then_letters() {
    let hexadecimal = get_characters(Charset::Hexadecimal);
    let mut expected: Vec<char> = ('0'..='9').collect();
    expected.extend('A'..='F');
    assert_eq!(hexadecimal, expected);
}

#[test]
fn charset_latin_is_the_letters() {
    let latin = get_characters(Charset::Latin);
    assert_eq!(latin.len(), 52);
    assert!(latin.iter().all(|c| c.is_alphabetic()));
    assert_eq!(latin[0], 'A');
    assert_eq!(latin[51], 'z');
}

#[test]
fn charset_unfiltered_blocks_are_complete() {
    assert_eq!(get_characters(Charset::Braille).len(), 256);
    assert_eq!(get_characters(Charset::Emoticons).len(), 80);
}

#[test]
fn charset_playingcards_skips_reserved_gaps() {
    let cards = get_characters(Charset::PlayingCards);
    assert_eq!(cards.len(), 60);
    for gap in ['\u{1F0AF}', '\u{1F0B0}', '\u{1F0C0}', '\u{1F0D0}'] {
        assert!(!cards.contains(&gap));
    }
}

#[test]
fn charset_name_is_case_insensitive() {
    assert_eq!(Charset::from_name("latin"), Ok(Charset::Latin));
    assert_eq!(Charset::from_name("LATIN"), Ok(Charset::Latin));
    assert_eq!(Charset::from_name("PlayingCards"), Ok(Charset::PlayingCards));
    assert_eq!(Charset::from_name("cjkunified"), Ok(Charset::CkjUnified));
}

#[test]
fn charset_unknown_name_is_rejected() {
    assert_eq!(Charset::from_name("klingon"), Err(ArtError::UnknownCharset));
    assert_eq!(Charset::from_name(""), Err(ArtError::UnknownCharset));
}

#[test]
fn custom_charset_trims_ends_only() {
    let chars = custom_charset("  ab c\n").unwrap();
    assert_eq!(chars, vec!['a', 'b', ' ', 'c']);
}

#[test]
fn custom_charset_of_whitespace_is_empty() {
    assert_eq!(custom_charset("   \n\t "), Err(ArtError::EmptyCharset));
    assert_eq!(custom_charset(""), Err(ArtError::EmptyCharset));
}
