use glyph_mosaic::charset::Charset;
use glyph_mosaic::color::Color;
use glyph_mosaic::compose::{compose, Composition, DrawCmd, GlyphWidths};
use glyph_mosaic::errors::ArtError;
use glyph_mosaic::picker::{build_picker, CharPicker};
use glyph_mosaic::rng::RandomSource;
use glyph_mosaic::sampler::PixelBuffer;

use rand::SeedableRng;

fn rgb(r: u8, g: u8, b: u8) -> Color {
    Color { r, g, b }
}

fn drain(picker: &mut CharPicker, n: usize) -> Vec<char> {
    let mut out = Vec::new();
    for _ in 0..n {
        out.push(picker.next_char());
    }
    out
}

#[test]
fn literal_mode_always_returns_the_character() {
    let mut picker =
        build_picker(Some('#'), None, None, Charset::Latin, RandomSource::from_seed(1)).unwrap();
    for _ in 0..100 {
        assert_eq!(picker.next_char(), '#');
    }
}

#[test]
fn literal_beats_text_stream() {
    let mut picker =
        build_picker(Some('*'), Some("abc"), None, Charset::Latin, RandomSource::from_seed(1))
            .unwrap();
    assert_eq!(drain(&mut picker, 5), vec!['*', '*', '*', '*', '*']);
}

#[test]
fn stream_cycles_sanitized_text() {
    let mut picker = build_picker(
        None,
        Some("Hello, World!"),
        None,
        Charset::Latin,
        RandomSource::from_seed(1),
    )
    .unwrap();
    let emitted: String = drain(&mut picker, 12).into_iter().collect();
    assert_eq!(emitted, "HelloWorldHe");
}

#[test]
fn stream_cursor_wraps() {
    let mut picker = CharPicker::Stream { chars: vec!['a', 'b', 'c'], pos: 0 };
    assert_eq!(drain(&mut picker, 7), vec!['a', 'b', 'c', 'a', 'b', 'c', 'a']);
}

#[test]
fn empty_text_falls_back_to_random() {
    let picker = build_picker(
        None,
        Some(" .,; 123 "),
        None,
        Charset::Binary,
        RandomSource::from_seed(1),
    )
    .unwrap();
    match picker {
        CharPicker::Random { ref charset, .. } => assert_eq!(charset, &vec!['0', '1']),
        _ => panic!("expected the random mode"),
    }
}

#[test]
fn custom_charset_replaces_named_charset() {
    let mut picker = build_picker(
        None,
        None,
        Some("xyz"),
        Charset::Decimal,
        RandomSource::from_seed(9),
    )
    .unwrap();
    for c in drain(&mut picker, 200) {
        assert!(c == 'x' || c == 'y' || c == 'z');
    }
}

#[test]
fn empty_custom_charset_is_rejected() {
    let r = build_picker(None, None, Some("  \n "), Charset::Latin, RandomSource::from_seed(0));
    assert!(matches!(r, Err(ArtError::EmptyCharset)));
}

#[test]
fn random_mode_draws_from_the_charset() {
    let mut picker =
        build_picker(None, None, None, Charset::Decimal, RandomSource::from_seed(3)).unwrap();
    for c in drain(&mut picker, 200) {
        assert!(c.is_ascii_digit());
    }
}

#[test]
fn seeded_random_mode_is_deterministic() {
    let mut a =
        build_picker(None, None, None, Charset::Latin, RandomSource::from_seed(42)).unwrap();
    let mut b =
        build_picker(None, None, None, Charset::Latin, RandomSource::from_seed(42)).unwrap();
    assert_eq!(drain(&mut a, 300), drain(&mut b, 300));
}

#[test]
fn seeded_random_mode_matches_a_caller_seeded_engine() {
    let engine = rand::rngs::StdRng::seed_from_u64(7);
    let mut a = build_picker(
        None,
        None,
        None,
        Charset::Latin,
        RandomSource::from_rng(engine),
    )
    .unwrap();
    let mut b = build_picker(None, None, None, Charset::Latin, RandomSource::from_seed(7))
        .unwrap();
    assert_eq!(drain(&mut a, 50), drain(&mut b, 50));
}

#[test]
fn width_table_keeps_the_first_entry() {
    let mut widths = GlyphWidths::new();
    widths.insert('a', 3);
    widths.insert('a', 7);
    widths.insert('b', 2);
    assert_eq!(widths.lookup('a'), Some(3));
    assert_eq!(widths.lookup('b'), Some(2));
    assert_eq!(widths.lookup('c'), None);
}

fn monospace_table(c: char, w: u32) -> GlyphWidths {
    let mut t = GlyphWidths::new();
    t.insert(c, w);
    t
}

#[test]
fn solid_red_literal_scenario() {
    let red = rgb(255, 0, 0);
    let source = PixelBuffer::new_filled(4, 4, red);
    let widths = monospace_table('#', 2);
    let mut picker =
        build_picker(Some('#'), None, None, Charset::Latin, RandomSource::from_seed(0)).unwrap();
    let comp: Composition =
        compose(&source, &widths, 2, rgb(0, 0, 0), &mut picker).unwrap();
    assert_eq!(comp.width, 4);
    assert_eq!(comp.height, 4);
    assert_eq!(comp.background, rgb(0, 0, 0));
    let expected = vec![
        DrawCmd { x: 0, y: 0, glyph: '#', color: red },
        DrawCmd { x: 2, y: 0, glyph: '#', color: red },
        DrawCmd { x: 0, y: 2, glyph: '#', color: red },
        DrawCmd { x: 2, y: 2, glyph: '#', color: red },
    ];
    assert_eq!(comp.cmds, expected);
}

#[test]
fn proportional_widths_step_non_uniformly() {
    let blue = rgb(0, 0, 200);
    let source = PixelBuffer::new_filled(4, 4, blue);
    let mut widths = GlyphWidths::new();
    widths.insert('a', 1);
    widths.insert('b', 2);
    let mut picker =
        build_picker(None, Some("ab"), None, Charset::Latin, RandomSource::from_seed(0)).unwrap();
    let comp = compose(&source, &widths, 2, rgb(0, 0, 0), &mut picker).unwrap();
    let expected = vec![
        DrawCmd { x: 0, y: 0, glyph: 'a', color: blue },
        DrawCmd { x: 1, y: 0, glyph: 'b', color: blue },
        DrawCmd { x: 3, y: 0, glyph: 'a', color: blue },
        DrawCmd { x: 0, y: 2, glyph: 'b', color: blue },
        DrawCmd { x: 2, y: 2, glyph: 'a', color: blue },
        DrawCmd { x: 3, y: 2, glyph: 'b', color: blue },
    ];
    assert_eq!(comp.cmds, expected);
}

#[test]
fn partial_edge_cells_sample_clipped_regions() {
    // a 3x3 image whose right column is white, the rest black: the second
    // cell of each row starts at x = 2 and clips to the white column.
    let mut pixels = Vec::new();
    for _y in 0..3 {
        pixels.push(rgb(0, 0, 0));
        pixels.push(rgb(0, 0, 0));
        pixels.push(rgb(255, 255, 255));
    }
    let source = PixelBuffer::from_pixels(3, 3, pixels);
    let widths = monospace_table('o', 2);
    let mut picker =
        build_picker(Some('o'), None, None, Charset::Latin, RandomSource::from_seed(0)).unwrap();
    let comp = compose(&source, &widths, 3, rgb(9, 9, 9), &mut picker).unwrap();
    assert_eq!(comp.cmds.len(), 2);
    // first cell averages a 2x3 black block; second averages the 1x3 white
    // remainder.
    assert_eq!(comp.cmds[0], DrawCmd { x: 0, y: 0, glyph: 'o', color: rgb(0, 0, 0) });
    assert_eq!(comp.cmds[1], DrawCmd { x: 2, y: 0, glyph: 'o', color: rgb(255, 255, 255) });
}

#[test]
fn zero_cell_height_is_degenerate() {
    let source = PixelBuffer::new_filled(4, 4, rgb(1, 1, 1));
    let widths = monospace_table('#', 2);
    let mut picker =
        build_picker(Some('#'), None, None, Charset::Latin, RandomSource::from_seed(0)).unwrap();
    let r = compose(&source, &widths, 0, rgb(0, 0, 0), &mut picker);
    assert!(matches!(r, Err(ArtError::DegenerateMetrics)));
}

#[test]
fn zero_glyph_width_is_degenerate() {
    let source = PixelBuffer::new_filled(4, 4, rgb(1, 1, 1));
    let widths = monospace_table('#', 0);
    let mut picker =
        build_picker(Some('#'), None, None, Charset::Latin, RandomSource::from_seed(0)).unwrap();
    let r = compose(&source, &widths, 2, rgb(0, 0, 0), &mut picker);
    assert!(matches!(r, Err(ArtError::DegenerateMetrics)));
}

#[test]
fn unmeasured_glyph_is_missing_metrics() {
    let source = PixelBuffer::new_filled(4, 4, rgb(1, 1, 1));
    let widths = GlyphWidths::new();
    let mut picker =
        build_picker(Some('#'), None, None, Charset::Latin, RandomSource::from_seed(0)).unwrap();
    let r = compose(&source, &widths, 2, rgb(0, 0, 0), &mut picker);
    assert!(matches!(r, Err(ArtError::MissingMetrics)));
}

#[test]
fn empty_source_plans_nothing() {
    let source = PixelBuffer::from_pixels(0, 0, Vec::new());
    let widths = monospace_table('#', 2);
    let mut picker =
        build_picker(Some('#'), None, None, Charset::Latin, RandomSource::from_seed(0)).unwrap();
    let comp = compose(&source, &widths, 2, rgb(0, 0, 0), &mut picker).unwrap();
    assert!(comp.cmds.is_empty());
}

#[test]
fn grid_covers_every_pixel() {
    let source = PixelBuffer::new_filled(13, 7, rgb(5, 5, 5));
    let mut widths = GlyphWidths::new();
    widths.insert('a', 3);
    widths.insert('b', 2);
    let mut picker =
        build_picker(None, Some("ab"), None, Charset::Latin, RandomSource::from_seed(0)).unwrap();
    let comp = compose(&source, &widths, 3, rgb(0, 0, 0), &mut picker).unwrap();
    let width_of = |g: char| if g == 'a' { 3u32 } else { 2u32 };
    for px in 0..13u32 {
        for py in 0..7u32 {
            let hit = comp.cmds.iter().any(|c| {
                c.x <= px && px < c.x + width_of(c.glyph) && c.y <= py && py < c.y + 3
            });
            assert!(hit, "pixel ({px}, {py}) is uncovered");
        }
    }
    // the cursor strictly advances: positions are strictly increasing in
    // raster order.
    for pair in comp.cmds.windows(2) {
        let earlier = (pair[0].y, pair[0].x);
        let later = (pair[1].y, pair[1].x);
        assert!(earlier < later);
    }
}
