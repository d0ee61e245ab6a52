//! Drawing rasterised glyphs onto the framed canvas.
//!
//! A glyph arrives as a bitmap of coverage values with the place of its
//! top-left corner relative to the cursor. Each covered pixel is blended
//! onto the canvas in the glyph's colour; nothing is drawn outside the text
//! block, so the frame stays as it was made.

use vstd::prelude::*;
use crate::canvas::{blend_pixels, blended, Canvas, Rgba8};
use crate::lines::{line_in_range, line_text, Segment};
use crate::metrics::{floor_pixels, floor_px};
use crate::palette::Color;
use crate::utf8::{char_count, lemma_char_count_append, lemma_utf8_text_count, starts_char, utf8_text};

verus! {

/// A rasterised glyph: coverage values row by row, and where the top-left
/// corner of the bitmap lies, in pixels from the pixel that the cursor
/// stands in and from the top of the glyph's line.
pub struct GlyphBitmap {
    pub x: i32,
    pub y: i32,
    pub rows: Vec<Vec<u8>>,
}

/// The coverage of the bitmap at column `dx` and row `dy`, if it has one.
pub open spec fn coverage_at(glyph: &GlyphBitmap, dx: int, dy: int) -> Option<u8> {
    if 0 <= dy < glyph.rows@.len() && 0 <= dx < glyph.rows@[dy]@.len() {
        Some(glyph.rows@[dy]@[dx])
    } else {
        None
    }
}

/// Whether the pixel lies in the text block of a canvas of the given size:
/// inside the frame on all four sides.
pub open spec fn in_block(width: int, height: int, x: int, y: int) -> bool {
    10 <= x < width - 10 && 10 <= y < height - 10
}

/// The pixel that is blended on: the colour with the coverage as its alpha.
pub open spec fn ink(color: Color, coverage: u8) -> Rgba8 {
    Rgba8 { r: color.rgb_spec().0, g: color.rgb_spec().1, b: color.rgb_spec().2, a: coverage }
}

/// The pixel at `(x, y)` after the glyph has been drawn on line `line` with
/// the cursor at `pen` sixty-fourths of a pixel from the left edge of the
/// text block, `below` being the pixel before.
pub open spec fn glyph_pixel(
    below: Rgba8,
    width: int,
    height: int,
    line: int,
    pen: int,
    glyph: &GlyphBitmap,
    color: Color,
    x: int,
    y: int,
) -> Rgba8 {
    match coverage_at(glyph, x - 10 - floor_px(pen) - glyph.x, y - 10 - 36 * line - glyph.y) {
        Some(a) => if in_block(width, height, x, y) {
            blended(below, ink(color, a))
        } else {
            below
        },
        None => below,
    }
}

/// The pixel at `(x, y)` after the first `n` glyphs of a line have been
/// drawn in order, each at its cursor position and in its colour.
pub open spec fn drawn_pixel(
    below: Rgba8,
    width: int,
    height: int,
    line: int,
    pens: Seq<i128>,
    glyphs: Seq<GlyphBitmap>,
    colors: Seq<Color>,
    n: int,
    x: int,
    y: int,
) -> Rgba8
    decreases n,
{
    if n <= 0 {
        below
    } else {
        glyph_pixel(
            drawn_pixel(below, width, height, line, pens, glyphs, colors, n - 1, x, y),
            width,
            height,
            line,
            pens[n - 1] as int,
            &glyphs[n - 1],
            colors[n - 1],
            x,
            y,
        )
    }
}

/// The smaller of two lengths.
pub open spec fn shorter(a: int, b: int) -> int {
    if a < b {
        a
    } else {
        b
    }
}

/// The smallest of three lengths.
pub open spec fn shortest(a: int, b: int, c: int) -> int {
    shorter(a, shorter(b, c))
}

/// One colour for each character of the text.
pub open spec fn text_colors(text: Seq<u8>, color: Color) -> Seq<Color>
    decreases text.len(),
{
    if text.len() == 0 {
        seq![]
    } else if starts_char(text.last()) {
        text_colors(text.drop_last(), color).push(color)
    } else {
        text_colors(text.drop_last(), color)
    }
}

/// One colour for each character of the line, in order.
pub open spec fn line_colors(src: Seq<u8>, line: Seq<Segment>) -> Seq<Color>
    decreases line.len(),
{
    if line.len() == 0 {
        seq![]
    } else {
        line_colors(src, line.drop_last()) + text_colors(
            line.last().text_of(src),
            line.last().color,
        )
    }
}

proof fn lemma_text_colors_len(text: Seq<u8>, color: Color)
    ensures
        text_colors(text, color).len() == char_count(text),
    decreases text.len(),
{
    if text.len() > 0 {
        lemma_text_colors_len(text.drop_last(), color);
    }
}

proof fn lemma_line_colors_len(src: Seq<u8>, line: Seq<Segment>)
    ensures
        line_colors(src, line).len() == char_count(line_text(src, line)),
    decreases line.len(),
{
    if line.len() > 0 {
        lemma_line_colors_len(src, line.drop_last());
        lemma_text_colors_len(line.last().text_of(src), line.last().color);
        lemma_char_count_append(line_text(src, line.drop_last()), line.last().text_of(src));
    }
}

/// There is one colour for each character of a line: where a text spells
/// the line, the line has as many colours as the text has characters.
pub proof fn lemma_one_colour_per_character(src: Seq<u8>, line: Seq<Segment>, text: Seq<char>)
    requires
        utf8_text(text) == line_text(src, line),
    ensures
        line_colors(src, line).len() == text.len(),
{
    lemma_line_colors_len(src, line);
    lemma_utf8_text_count(text);
}

/// Drawing glyphs changes no pixel outside the text block.
pub proof fn lemma_drawing_keeps_frame(
    below: Rgba8,
    width: int,
    height: int,
    line: int,
    pens: Seq<i128>,
    glyphs: Seq<GlyphBitmap>,
    colors: Seq<Color>,
    n: int,
    x: int,
    y: int,
)
    requires
        !in_block(width, height, x, y),
    ensures
        drawn_pixel(below, width, height, line, pens, glyphs, colors, n, x, y) == below,
    decreases n,
{
    if n > 0 {
        lemma_drawing_keeps_frame(below, width, height, line, pens, glyphs, colors, n - 1, x, y);
    }
}

/// The colour of each character of a line, for the glyphs that are drawn
/// for them.
pub fn char_colors(src: &[u8], line: &Vec<Segment>) -> (colors: Vec<Color>)
    requires
        line_in_range(line@, src@.len()),
    ensures
        colors@ == line_colors(src@, line@),
{
    let mut colors: Vec<Color> = Vec::new();
    let mut k: usize = 0;
    while k < line.len()
        invariant
            0 <= k <= line@.len(),
            line_in_range(line@, src@.len()),
            colors@ == line_colors(src@, line@.take(k as int)),
        decreases line@.len() - k,
    {
        let seg = line[k];
        let ghost done = colors@;
        assert(line@.take(k + 1).drop_last() =~= line@.take(k as int));
        assert(line@.take(k + 1).last() == seg);
        let mut pos: usize = seg.start;
        assert(src@.subrange(seg.start as int, pos as int) =~= Seq::<u8>::empty());
        assert(colors@ =~= done + text_colors(src@.subrange(seg.start as int, pos as int), seg.color));
        while pos < seg.end
            invariant
                seg.start <= pos <= seg.end <= src@.len(),
                colors@ == done + text_colors(
                    src@.subrange(seg.start as int, pos as int),
                    seg.color,
                ),
            decreases seg.end - pos,
        {
            let b = src[pos];
            let ghost upto = src@.subrange(seg.start as int, pos + 1);
            assert(upto.drop_last() =~= src@.subrange(seg.start as int, pos as int));
            assert(upto.last() == b);
            if b < 128 || b >= 192 {
                colors.push(seg.color);
            }
            pos = pos + 1;
            assert(colors@ =~= done + text_colors(upto, seg.color));
        }
        k = k + 1;
    }
    assert(line@.take(k as int) =~= line@);
    colors
}

/// Blends one glyph onto the canvas on line `line`, the cursor standing
/// `pen` sixty-fourths of a pixel from the left edge of the text block.
/// Pixels of the bitmap that fall outside the text block are left out.
pub fn draw_glyph(canvas: &mut Canvas, line: u32, pen: i128, glyph: &GlyphBitmap, color: Color)
    ensures
        final(canvas).spec_width() == old(canvas).spec_width(),
        final(canvas).spec_height() == old(canvas).spec_height(),
        forall|x: int, y: int|
            0 <= x < old(canvas).spec_width() && 0 <= y < old(canvas).spec_height()
                ==> #[trigger] final(canvas).at(x, y) == glyph_pixel(
                old(canvas).at(x, y),
                old(canvas).spec_width() as int,
                old(canvas).spec_height() as int,
                line as int,
                pen as int,
                glyph,
                color,
                x,
                y,
            ),
{
    let width = canvas.width();
    let height = canvas.height();
    let (r, g, b) = color.rgb();
    let left: i128 = 10 + floor_pixels(pen) + (glyph.x as i128);
    let top: i128 = 10 + 36 * (line as i128) + (glyph.y as i128);
    let mut dy: usize = 0;
    while dy < glyph.rows.len()
        invariant
            0 <= dy <= glyph.rows@.len(),
            width == old(canvas).spec_width(),
            height == old(canvas).spec_height(),
            canvas.spec_width() == width,
            canvas.spec_height() == height,
            left == 10 + floor_px(pen as int) + glyph.x,
            top == 10 + 36 * line + glyph.y,
            (r, g, b) == color.rgb_spec(),
            forall|x: int, y: int|
                0 <= x < width && 0 <= y < height ==> #[trigger] canvas.at(x, y) == (if y - top
                    < dy {
                    glyph_pixel(
                        old(canvas).at(x, y),
                        width as int,
                        height as int,
                        line as int,
                        pen as int,
                        glyph,
                        color,
                        x,
                        y,
                    )
                } else {
                    old(canvas).at(x, y)
                }),
        decreases glyph.rows@.len() - dy,
    {
        let row = &glyph.rows[dy];
        let py: i128 = top + (dy as i128);
        let mut dx: usize = 0;
        while dx < row.len()
            invariant
                0 <= dx <= row@.len(),
                0 <= dy < glyph.rows@.len(),
                row@ == glyph.rows@[dy as int]@,
                py == top + dy,
                width == old(canvas).spec_width(),
                height == old(canvas).spec_height(),
                canvas.spec_width() == width,
                canvas.spec_height() == height,
                left == 10 + floor_px(pen as int) + glyph.x,
                top == 10 + 36 * line + glyph.y,
                (r, g, b) == color.rgb_spec(),
                forall|x: int, y: int|
                    0 <= x < width && 0 <= y < height ==> #[trigger] canvas.at(x, y) == (if y
                        - top < dy || (y - top == dy && x - left < dx) {
                        glyph_pixel(
                            old(canvas).at(x, y),
                            width as int,
                            height as int,
                            line as int,
                            pen as int,
                            glyph,
                            color,
                            x,
                            y,
                        )
                    } else {
                        old(canvas).at(x, y)
                    }),
            decreases row@.len() - dx,
        {
            let px: i128 = left + (dx as i128);
            let ghost before = *canvas;
            if 10 <= px && px + 10 < (width as i128) && 10 <= py && py + 10 < (height as i128) {
                let x: u32 = px as u32;
                let y: u32 = py as u32;
                let above = Rgba8 { r, g, b, a: row[dx] };
                assert(above == ink(color, row@[dx as int]));
                match canvas.get(x, y) {
                    Some(below) => {
                        let mixed = blend_pixels(below, above);
                        canvas.put(x, y, mixed);
                    },
                    None => {},
                }
            }
            assert forall|x: int, y: int| 0 <= x < width && 0 <= y < height implies (
            #[trigger] canvas.at(x, y)) == (if y - top < dy || (y - top == dy && x - left < dx
                + 1) {
                glyph_pixel(
                    old(canvas).at(x, y),
                    width as int,
                    height as int,
                    line as int,
                    pen as int,
                    glyph,
                    color,
                    x,
                    y,
                )
            } else {
                old(canvas).at(x, y)
            }) by {
                if x == px && y == py {
                    assert(coverage_at(
                        glyph,
                        x - 10 - floor_px(pen as int) - glyph.x,
                        y - 10 - 36 * line - glyph.y,
                    ) == Some(row@[dx as int]));
                } else {
                    assert((x, y) != (px as int, py as int));
                    assert(canvas.at(x, y) == before.at(x, y));
                }
            }
            dx = dx + 1;
        }
        dy = dy + 1;
    }
}

/// Draws the glyphs of one line in order, each at the cursor position and
/// in the colour at its place; a glyph without a position or a colour is
/// not drawn. Pixels of the frame are left as they are.
pub fn draw_line(
    canvas: &mut Canvas,
    line: u32,
    pens: &Vec<i128>,
    glyphs: &Vec<GlyphBitmap>,
    colors: &Vec<Color>,
)
    ensures
        final(canvas).spec_width() == old(canvas).spec_width(),
        final(canvas).spec_height() == old(canvas).spec_height(),
        forall|x: int, y: int|
            0 <= x < old(canvas).spec_width() && 0 <= y < old(canvas).spec_height()
                ==> #[trigger] final(canvas).at(x, y) == drawn_pixel(
                old(canvas).at(x, y),
                old(canvas).spec_width() as int,
                old(canvas).spec_height() as int,
                line as int,
                pens@,
                glyphs@,
                colors@,
                shortest(pens@.len() as int, glyphs@.len() as int, colors@.len() as int),
                x,
                y,
            ),
        forall|x: int, y: int|
            0 <= x < old(canvas).spec_width() && 0 <= y < old(canvas).spec_height() && !in_block(
                old(canvas).spec_width() as int,
                old(canvas).spec_height() as int,
                x,
                y,
            ) ==> #[trigger] final(canvas).at(x, y) == old(canvas).at(x, y),
{
    let mut k: usize = 0;
    while k < pens.len() && k < glyphs.len() && k < colors.len()
        invariant
            0 <= k <= glyphs@.len(),
            k <= colors@.len(),
            k <= pens@.len(),
            canvas.spec_width() == old(canvas).spec_width(),
            canvas.spec_height() == old(canvas).spec_height(),
            forall|x: int, y: int|
                0 <= x < old(canvas).spec_width() && 0 <= y < old(canvas).spec_height()
                    ==> #[trigger] canvas.at(x, y) == drawn_pixel(
                    old(canvas).at(x, y),
                    old(canvas).spec_width() as int,
                    old(canvas).spec_height() as int,
                    line as int,
                    pens@,
                    glyphs@,
                    colors@,
                    k as int,
                    x,
                    y,
                ),
        decreases glyphs@.len() - k,
    {
        draw_glyph(canvas, line, pens[k], &glyphs[k], colors[k]);
        k = k + 1;
    }
    proof {
        assert forall|x: int, y: int|
            0 <= x < old(canvas).spec_width() && 0 <= y < old(canvas).spec_height() && !in_block(
                old(canvas).spec_width() as int,
                old(canvas).spec_height() as int,
                x,
                y,
            ) implies #[trigger] canvas.at(x, y) == old(canvas).at(x, y) by {
            lemma_drawing_keeps_frame(
                old(canvas).at(x, y),
                old(canvas).spec_width() as int,
                old(canvas).spec_height() as int,
                line as int,
                pens@,
                glyphs@,
                colors@,
                k as int,
                x,
                y,
            );
        }
    }
}

} // verus!
