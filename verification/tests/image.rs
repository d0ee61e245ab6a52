use highlight_render::canvas::{check_upload, Canvas, Rgba8};
use highlight_render::compose::{char_colors, draw_glyph, draw_line, GlyphBitmap};
use highlight_render::error::RenderError;
use highlight_render::font::{line_advances, pen_positions, text_width, FontMetrics};
use highlight_render::frame::{make_image, slice_index, Border};
use highlight_render::gate::RenderGate;
use highlight_render::lines::Segment;
use highlight_render::metrics::{floor_pixels, line_width, plan_layout, GlyphAdvance, Layout};
use highlight_render::palette::Color;
use highlight_render::render::{check_glyphs, measure, render, LineGlyphs};
use highlight_render::utf8::{encode_text, push_utf8, same_bytes};

fn border() -> Border {
    let mut pixels = Vec::new();
    for y in 0..21u8 {
        for x in 0..21u8 {
            pixels.push(Rgba8 { r: x, g: y, b: 7, a: 255 });
        }
    }
    Border::new(pixels).unwrap()
}

/// Every letter is ten pixels wide, `i` five; `V` after `A` moves back by
/// one pixel.
fn font() -> FontMetrics {
    let mut font = FontMetrics::new();
    for c in 'a'..='z' {
        font.set_advance(c, 640);
    }
    font.set_advance('i', 320);
    font.set_advance('A', 640);
    font.set_advance('V', 640);
    font.set_advance(' ', 300);
    font.set_kerning('A', 'V', -64);
    font
}

fn chars(s: &str) -> Vec<char> {
    s.chars().collect()
}

fn glyph(advance: i32) -> GlyphAdvance {
    GlyphAdvance { kerning: 0, advance }
}

const BACKGROUND: Rgba8 = Rgba8 { r: 10, g: 10, b: 7, a: 255 };

#[test]
fn width_is_rounded_up() {
    assert_eq!(line_width(&vec![]), 0);
    assert_eq!(line_width(&vec![glyph(64)]), 1);
    assert_eq!(line_width(&vec![glyph(65)]), 2);
    assert_eq!(line_width(&vec![glyph(1)]), 1);
    assert_eq!(line_width(&vec![glyph(640), glyph(640), glyph(32)]), 21);
}

#[test]
fn kerning_moves_the_cursor() {
    let glyphs = vec![
        GlyphAdvance { kerning: 0, advance: 640 },
        GlyphAdvance { kerning: -64, advance: 640 },
    ];
    assert_eq!(line_width(&glyphs), 19);
    let glyphs = vec![GlyphAdvance { kerning: 0, advance: 64 }, GlyphAdvance { kerning: 32, advance: 64 }];
    assert_eq!(line_width(&glyphs), 3);
}

#[test]
fn cursor_left_of_the_start_has_no_width() {
    assert_eq!(line_width(&vec![GlyphAdvance { kerning: -200, advance: 100 }]), 0);
}

#[test]
fn width_saturates() {
    let glyphs = vec![glyph(i32::MAX); 200];
    assert_eq!(line_width(&glyphs), u32::MAX);
}

#[test]
fn appending_glyphs_does_not_narrow() {
    let mut glyphs = vec![glyph(700), GlyphAdvance { kerning: -30, advance: 650 }];
    let mut last = line_width(&glyphs);
    for extra in [glyph(1), GlyphAdvance { kerning: -10, advance: 10 }, glyph(0), glyph(640)] {
        glyphs.push(extra);
        let now = line_width(&glyphs);
        assert!(now >= last);
        last = now;
    }
    assert_eq!(last, 31);
}

#[test]
fn layout_is_widest_line_by_row_count() {
    assert_eq!(plan_layout(&vec![5, 80, 12]), Ok(Layout { width: 80, height: 108 }));
    assert_eq!(plan_layout(&vec![]), Ok(Layout { width: 0, height: 0 }));
    assert_eq!(plan_layout(&vec![0]), Ok(Layout { width: 0, height: 36 }));
}

#[test]
fn area_above_the_ceiling_is_refused() {
    assert_eq!(plan_layout(&vec![17_837]), Ok(Layout { width: 17_837, height: 36 }));
    assert_eq!(plan_layout(&vec![17_838]), Err(RenderError::ImageTooLarge));
    assert_eq!(plan_layout(&vec![2000; 20]), Err(RenderError::ImageTooLarge));
    assert_eq!(plan_layout(&vec![u32::MAX]), Err(RenderError::ImageTooLarge));
    assert_eq!(plan_layout(&vec![0; 30_000]), Err(RenderError::ImageTooLarge));
    assert_eq!(plan_layout(&vec![0; 1389]).is_err(), true);
    assert_eq!(plan_layout(&vec![0; 1388]), Ok(Layout { width: 0, height: 49_968 }));
}

#[test]
fn canvas_is_filled_and_changed_by_put() {
    let p = Rgba8 { r: 1, g: 2, b: 3, a: 4 };
    let q = Rgba8 { r: 9, g: 8, b: 7, a: 6 };
    let mut canvas = Canvas::filled(3, 2, p);
    assert_eq!(canvas.width(), 3);
    assert_eq!(canvas.height(), 2);
    assert_eq!(canvas.get(2, 1), Some(p));
    assert_eq!(canvas.get(3, 1), None);
    assert_eq!(canvas.get(2, 2), None);
    assert!(canvas.put(1, 1, q));
    assert_eq!(canvas.get(1, 1), Some(q));
    assert_eq!(canvas.get(0, 1), Some(p));
    assert_eq!(canvas.get(1, 0), Some(p));
    assert!(!canvas.put(3, 0, q));
    assert!(!canvas.put(0, 2, q));
    assert_eq!(canvas.width(), 3);
    assert_eq!(canvas.height(), 2);
}

#[test]
fn border_needs_all_its_pixels() {
    assert!(Border::new(vec![BACKGROUND; 440]).is_none());
    assert!(Border::new(vec![BACKGROUND; 442]).is_none());
    let b = border();
    assert_eq!(b.get(3, 5), Rgba8 { r: 3, g: 5, b: 7, a: 255 });
    assert_eq!(b.get(20, 0), Rgba8 { r: 20, g: 0, b: 7, a: 255 });
}

#[test]
fn slice_index_maps_to_the_border() {
    assert_eq!(slice_index(0, 5), 0);
    assert_eq!(slice_index(9, 5), 9);
    assert_eq!(slice_index(10, 5), 10);
    assert_eq!(slice_index(14, 5), 10);
    assert_eq!(slice_index(15, 5), 11);
    assert_eq!(slice_index(24, 5), 20);
    assert_eq!(slice_index(10, 0), 11);
}

#[test]
fn frame_has_corners_edges_and_fill() {
    let b = border();
    let canvas = make_image(&b, Layout { width: 30, height: 72 });
    assert_eq!(canvas.width(), 50);
    assert_eq!(canvas.height(), 92);
    // corners are kept
    assert_eq!(canvas.get(0, 0), Some(b.get(0, 0)));
    assert_eq!(canvas.get(9, 9), Some(b.get(9, 9)));
    assert_eq!(canvas.get(40, 0), Some(b.get(11, 0)));
    assert_eq!(canvas.get(49, 91), Some(b.get(20, 20)));
    assert_eq!(canvas.get(0, 82), Some(b.get(0, 11)));
    // edges repeat one column or row
    assert_eq!(canvas.get(10, 3), Some(b.get(10, 3)));
    assert_eq!(canvas.get(39, 3), Some(b.get(10, 3)));
    assert_eq!(canvas.get(4, 50), Some(b.get(4, 10)));
    assert_eq!(canvas.get(45, 50), Some(b.get(16, 10)));
    assert_eq!(canvas.get(20, 85), Some(b.get(10, 14)));
    // the inside is the middle pixel
    assert_eq!(canvas.get(10, 10), Some(BACKGROUND));
    assert_eq!(canvas.get(39, 81), Some(BACKGROUND));
    assert_eq!(canvas.get(25, 40), Some(BACKGROUND));
}

#[test]
fn opaque_coverage_replaces_the_pixel() {
    let mut canvas = make_image(&border(), Layout { width: 4, height: 36 });
    let bitmap = GlyphBitmap { x: 1, y: 2, rows: vec![vec![255, 0], vec![0, 255]] };
    draw_glyph(&mut canvas, 0, 0, &bitmap, Color::Red);
    let red = Rgba8 { r: 0xdc, g: 0x32, b: 0x2f, a: 255 };
    assert_eq!(canvas.get(11, 12), Some(red));
    assert_eq!(canvas.get(12, 12), Some(BACKGROUND));
    assert_eq!(canvas.get(11, 13), Some(BACKGROUND));
    assert_eq!(canvas.get(12, 13), Some(red));
    assert_eq!(canvas.get(10, 12), Some(BACKGROUND));
}

#[test]
fn partial_coverage_blends() {
    let mut canvas = Canvas::filled(21, 21, Rgba8 { r: 0, g: 0, b: 0, a: 255 });
    let bitmap = GlyphBitmap { x: 0, y: 0, rows: vec![vec![128]] };
    draw_glyph(&mut canvas, 0, 0, &bitmap, Color::White);
    let mixed = canvas.get(10, 10).unwrap();
    assert!(mixed.a >= 254);
    assert!(mixed.r >= 127 && mixed.r <= 129);
    assert_eq!(mixed.r, mixed.g);
    assert_eq!(mixed.g, mixed.b);
}

#[test]
fn glyphs_are_clipped_to_the_block() {
    let b = border();
    let mut canvas = make_image(&b, Layout { width: 3, height: 36 });
    let bitmap = GlyphBitmap { x: -2, y: -3, rows: vec![vec![255; 10]; 50] };
    draw_glyph(&mut canvas, 0, 0, &bitmap, Color::Cyan);
    let cyan = Rgba8 { r: 0x2a, g: 0xa1, b: 0x98, a: 255 };
    let frame = make_image(&b, Layout { width: 3, height: 36 });
    for y in 0..56u32 {
        for x in 0..23u32 {
            let inside = (10..13).contains(&x) && (10..46).contains(&y);
            if inside {
                assert_eq!(canvas.get(x, y), Some(cyan));
            } else {
                assert_eq!(canvas.get(x, y), frame.get(x, y));
            }
        }
    }
}

#[test]
fn lines_are_one_row_apart() {
    let mut canvas = make_image(&border(), Layout { width: 4, height: 108 });
    let bitmap = GlyphBitmap { x: 0, y: 0, rows: vec![vec![255]] };
    draw_glyph(&mut canvas, 2, 0, &bitmap, Color::Blue);
    let blue = Rgba8 { r: 0x26, g: 0x8b, b: 0xd2, a: 255 };
    assert_eq!(canvas.get(10, 82), Some(blue));
    assert_eq!(canvas.get(10, 10), Some(BACKGROUND));
    assert_eq!(canvas.get(10, 46), Some(BACKGROUND));
}

#[test]
fn draw_line_pairs_glyphs_with_colours() {
    let mut canvas = make_image(&border(), Layout { width: 4, height: 36 });
    let glyphs = vec![
        GlyphBitmap { x: 0, y: 0, rows: vec![vec![255]] },
        GlyphBitmap { x: 0, y: 0, rows: vec![vec![255]] },
        GlyphBitmap { x: 0, y: 0, rows: vec![vec![255]] },
    ];
    draw_line(&mut canvas, 0, &vec![0, 64, 128], &glyphs, &vec![Color::Red, Color::White]);
    assert_eq!(canvas.get(10, 10), Some(Rgba8 { r: 0xdc, g: 0x32, b: 0x2f, a: 255 }));
    assert_eq!(canvas.get(11, 10), Some(Rgba8 { r: 255, g: 255, b: 255, a: 255 }));
    assert_eq!(canvas.get(12, 10), Some(BACKGROUND));
}

#[test]
fn one_colour_for_each_character() {
    let src = "a\u{e9}b\u{1f600}".as_bytes();
    let line = vec![
        Segment { color: Color::Red, start: 0, end: 3 },
        Segment { color: Color::Blue, start: 3, end: 4 },
        Segment { color: Color::Pink, start: 4, end: 8 },
    ];
    assert_eq!(
        char_colors(src, &line),
        vec![Color::Red, Color::Red, Color::Blue, Color::Pink]
    );
    assert_eq!(char_colors(src, &vec![]), vec![]);
}

#[test]
fn measure_gives_each_line_its_width() {
    let glyphs = vec![
        LineGlyphs { text: chars("abc"), bitmaps: vec![] },
        LineGlyphs { text: vec![], bitmaps: vec![] },
        LineGlyphs { text: chars("i "), bitmaps: vec![] },
    ];
    assert_eq!(measure(&font(), &glyphs), vec![30, 0, 10]);
}

#[test]
fn unset_metrics_are_zero() {
    let font = FontMetrics::new();
    assert_eq!(font.advance('a'), 0);
    assert_eq!(font.kerning('a', 'b'), 0);
    assert_eq!(text_width(&font, &chars("abc")), 0);
}

#[test]
fn metrics_are_kept_by_character_and_pair() {
    let mut font = font();
    assert_eq!(font.advance('a'), 640);
    assert_eq!(font.advance('i'), 320);
    assert_eq!(font.advance('?'), 0);
    assert_eq!(font.kerning('A', 'V'), -64);
    assert_eq!(font.kerning('V', 'A'), 0);
    font.set_kerning('V', 'A', -32);
    font.set_advance('\u{10ffff}', 7);
    assert_eq!(font.kerning('A', 'V'), -64);
    assert_eq!(font.kerning('V', 'A'), -32);
    assert_eq!(font.advance('\u{10ffff}'), 7);
    assert_eq!(font.advance('a'), 640);
}

#[test]
fn kerning_is_taken_between_neighbours() {
    let font = font();
    assert_eq!(
        line_advances(&font, &chars("AVA")),
        vec![
            GlyphAdvance { kerning: 0, advance: 640 },
            GlyphAdvance { kerning: -64, advance: 640 },
            GlyphAdvance { kerning: 0, advance: 640 },
        ]
    );
    assert_eq!(text_width(&font, &chars("AV")), 19);
    assert_eq!(text_width(&font, &chars("VA")), 20);
    assert_eq!(text_width(&font, &chars("  a ")), 25);
}

#[test]
fn longer_text_is_not_narrower() {
    let font = font();
    let mut text = Vec::new();
    let mut last = 0;
    for c in chars("AVAV a i  VA") {
        text.push(c);
        let now = text_width(&font, &text);
        assert!(now >= last);
        last = now;
    }
}

#[test]
fn ten_lines_of_eighty_columns() {
    let b = border();
    let src: Vec<u8> = vec![b'x'; 800];
    let mut lines = Vec::new();
    let mut glyphs = Vec::new();
    for i in 0..10usize {
        let columns = if i == 4 { 80 } else { 60 + i };
        lines.push(vec![Segment { color: Color::Reset, start: i * 80, end: i * 80 + columns }]);
        let mut bitmaps = Vec::new();
        for c in 0..columns {
            assert!(c < 80);
            bitmaps.push(GlyphBitmap { x: -3, y: -2, rows: vec![vec![255; 14]; 40] });
        }
        glyphs.push(LineGlyphs { text: vec!['x'; columns], bitmaps });
    }
    assert!(check_glyphs(&src, &lines, &glyphs));
    let canvas = render(&b, &font(), &src, &lines, &glyphs).ok().unwrap();
    assert_eq!(canvas.width(), 800 + 20);
    assert_eq!(canvas.height(), 10 * 36 + 20);
    let frame = make_image(&b, Layout { width: 800, height: 360 });
    let ink = Rgba8 { r: 0xb9, g: 0xbb, b: 0xbe, a: 255 };
    for y in 0..380u32 {
        for x in 0..820u32 {
            let inside = (10..810).contains(&x) && (10..370).contains(&y);
            if !inside {
                assert_eq!(canvas.get(x, y), frame.get(x, y));
            }
        }
    }
    assert_eq!(canvas.get(10, 10), Some(ink));
    assert_eq!(canvas.get(809, 10 + 4 * 36), Some(ink));
}

#[test]
fn render_refuses_a_picture_that_is_too_large() {
    let src = vec![b'a'; 2000];
    let lines = vec![vec![Segment { color: Color::Reset, start: 0, end: 2000 }]];
    let blank = || GlyphBitmap { x: 0, y: 0, rows: vec![] };
    let glyphs = vec![LineGlyphs { text: vec!['a'; 2000], bitmaps: (0..2000).map(|_| blank()).collect() }];
    assert!(check_glyphs(&src, &lines, &glyphs));
    let r = render(&border(), &font(), &src, &lines, &glyphs);
    assert_eq!(r.err(), Some(RenderError::ImageTooLarge));
}

#[test]
fn render_draws_segments_in_their_colours() {
    let src = b"ab";
    let lines = vec![vec![
        Segment { color: Color::Yellow, start: 0, end: 1 },
        Segment { color: Color::Cyan, start: 1, end: 2 },
    ]];
    let mut narrow = FontMetrics::new();
    narrow.set_advance('a', 128);
    narrow.set_advance('b', 128);
    let glyphs = vec![LineGlyphs {
        text: chars("ab"),
        bitmaps: vec![
            GlyphBitmap { x: 0, y: 0, rows: vec![vec![255]] },
            GlyphBitmap { x: 0, y: 1, rows: vec![vec![255]] },
        ],
    }];
    assert!(check_glyphs(src, &lines, &glyphs));
    let canvas = render(&border(), &narrow, src, &lines, &glyphs).ok().unwrap();
    assert_eq!(canvas.width(), 24);
    assert_eq!(canvas.height(), 56);
    assert_eq!(canvas.get(10, 10), Some(Rgba8 { r: 0xb5, g: 0x89, b: 0x00, a: 255 }));
    assert_eq!(canvas.get(12, 11), Some(Rgba8 { r: 0x2a, g: 0xa1, b: 0x98, a: 255 }));
    assert_eq!(canvas.get(11, 10), Some(BACKGROUND));
}

#[test]
fn encoded_picture_is_a_png_file() {
    let canvas = make_image(&border(), Layout { width: 5, height: 36 });
    let bytes = canvas.encode().unwrap();
    assert_eq!(&bytes[..8], &[0x89, b'P', b'N', b'G', 0x0d, 0x0a, 0x1a, 0x0a]);
    // the header chunk holds the width and the height
    assert_eq!(&bytes[12..16], b"IHDR");
    assert_eq!(&bytes[16..20], &[0, 0, 0, 25]);
    assert_eq!(&bytes[20..24], &[0, 0, 0, 56]);
}

#[test]
fn upload_ceiling() {
    assert_eq!(check_upload(vec![0; 8_000_000]).map(|b| b.len()), Ok(8_000_000));
    assert_eq!(check_upload(vec![0; 8_000_001]), Err(RenderError::OutputTooLarge));
    assert_eq!(check_upload(vec![1, 2, 3]), Ok(vec![1, 2, 3]));
}

#[test]
fn second_render_of_one_identity_fails_at_once() {
    let mut gate = RenderGate::new();
    assert_eq!(gate.try_acquire(7), Ok(()));
    assert!(gate.is_rendering(7));
    assert_eq!(gate.try_acquire(7), Err(RenderError::AlreadyRendering));
    assert_eq!(gate.try_acquire(8), Ok(()));
    gate.release(7);
    assert!(!gate.is_rendering(7));
    assert!(gate.is_rendering(8));
    assert_eq!(gate.try_acquire(7), Ok(()));
}

#[test]
fn cursor_walks_by_kerning_and_advance() {
    let font = font();
    assert_eq!(pen_positions(&font, &chars("AVi")), vec![0, 576, 1216]);
    assert_eq!(pen_positions(&font, &chars("")), Vec::<i128>::new());
    assert_eq!(pen_positions(&font, &chars(" a")), vec![0, 300]);
}

#[test]
fn distances_fall_into_pixels() {
    assert_eq!(floor_pixels(0), 0);
    assert_eq!(floor_pixels(63), 0);
    assert_eq!(floor_pixels(64), 1);
    assert_eq!(floor_pixels(-1), -1);
    assert_eq!(floor_pixels(-64), -1);
    assert_eq!(floor_pixels(-65), -2);
    assert_eq!(floor_pixels(i128::MIN), i128::MIN / 64);
    assert_eq!(floor_pixels(i128::MIN + 1), i128::MIN / 64);
    assert_eq!(floor_pixels(i128::MIN + 64), i128::MIN / 64 + 1);
    assert_eq!(floor_pixels(i128::MAX), i128::MAX / 64);
}

#[test]
fn glyph_is_drawn_where_the_cursor_stands() {
    let mut canvas = make_image(&border(), Layout { width: 8, height: 36 });
    let bitmap = GlyphBitmap { x: 1, y: 0, rows: vec![vec![255]] };
    draw_glyph(&mut canvas, 0, 200, &bitmap, Color::White);
    let white = Rgba8 { r: 255, g: 255, b: 255, a: 255 };
    // 200 sixty-fourths are in the fourth pixel; the bitmap starts one further
    assert_eq!(canvas.get(14, 10), Some(white));
    assert_eq!(canvas.get(13, 10), Some(BACKGROUND));
    draw_glyph(&mut canvas, 0, -1, &bitmap, Color::White);
    assert_eq!(canvas.get(10, 10), Some(white));
}

#[test]
fn glyph_rows_must_be_those_of_the_lines() {
    let src = "a\u{e9}b".as_bytes();
    let lines = vec![vec![
        Segment { color: Color::Red, start: 0, end: 2 },
        Segment { color: Color::Blue, start: 2, end: 4 },
    ]];
    let blank = || GlyphBitmap { x: 0, y: 0, rows: vec![] };
    let row = |text: &str, bitmaps: usize| LineGlyphs {
        text: chars(text),
        bitmaps: (0..bitmaps).map(|_| blank()).collect(),
    };
    assert!(check_glyphs(src, &lines, &vec![row("a\u{e9}b", 3)]));
    // another text, a bitmap too few, a row too many, no row at all
    assert!(!check_glyphs(src, &lines, &vec![row("aeb", 3)]));
    assert!(!check_glyphs(src, &lines, &vec![row("a\u{e9}", 2)]));
    assert!(!check_glyphs(src, &lines, &vec![row("a\u{e9}b", 2)]));
    assert!(!check_glyphs(src, &lines, &vec![row("a\u{e9}b", 3), row("", 0)]));
    assert!(!check_glyphs(src, &lines, &vec![]));
    assert!(check_glyphs(b"", &vec![], &vec![]));
    assert!(check_glyphs(b"", &vec![vec![]], &vec![row("", 0)]));
}

#[test]
fn characters_are_spelled_as_std_spells_them() {
    for code in (0..=0x10_ffffu32).step_by(7).chain([0x7f, 0x80, 0x7ff, 0x800, 0xffff, 0x1_0000, 0x10_ffff]) {
        if let Some(c) = char::from_u32(code) {
            let mut out = vec![1u8];
            push_utf8(&mut out, c);
            let mut buffer = [0u8; 4];
            assert_eq!(&out[1..], c.encode_utf8(&mut buffer).as_bytes(), "{:x}", code);
        }
    }
    let text = "a\u{e9}\u{20ac}\u{1f600}z";
    assert_eq!(encode_text(&chars(text)), text.as_bytes().to_vec());
    assert_eq!(encode_text(&vec![]), Vec::<u8>::new());
}

#[test]
fn byte_strings_are_compared() {
    assert!(same_bytes(&vec![], &vec![]));
    assert!(same_bytes(&vec![1, 2], &vec![1, 2]));
    assert!(!same_bytes(&vec![1, 2], &vec![1, 3]));
    assert!(!same_bytes(&vec![1, 2], &vec![1]));
}

#[test]
fn encoded_picture_is_within_the_upload_ceiling() {
    let canvas = make_image(&border(), Layout { width: 100, height: 72 });
    assert!(canvas.encode().unwrap().len() <= 8_000_000);
}
