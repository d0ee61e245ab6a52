//! The picture of a highlighted text: measuring, framing and drawing.

use vstd::prelude::*;
use crate::canvas::{Canvas, Rgba8};
use crate::compose::{
    char_colors,
    draw_line,
    drawn_pixel,
    in_block,
    lemma_drawing_keeps_frame,
    lemma_one_colour_per_character,
    line_colors,
    GlyphBitmap,
};
use crate::error::RenderError;
use crate::font::{pen_positions, pen_positions_spec, text_width, text_width_spec, FontMetrics};
use crate::frame::{make_image, slice_coord, Border};
use crate::lines::{line_bytes, line_in_range, line_text, lines_in_range, lines_view, Segment};
use crate::utf8::{encode_text, same_bytes, utf8_text};
use crate::metrics::{area_ok, max_width, plan_layout};

verus! {

/// The glyphs of one line: the characters that are measured, and the
/// bitmaps that are drawn for them.
pub struct LineGlyphs {
    pub text: Vec<char>,
    pub bitmaps: Vec<GlyphBitmap>,
}

/// The row is that of the line: its text spells the line, and it has one
/// bitmap for each character.
pub open spec fn row_fits(src: Seq<u8>, line: Seq<Segment>, row: &LineGlyphs) -> bool {
    utf8_text(row.text@) == line_text(src, line) && row.bitmaps@.len() == row.text@.len()
}

/// The glyphs are those of the lines: one row for each line, and each row
/// that of its line.
pub open spec fn glyphs_fit(src: Seq<u8>, lines: Seq<Seq<Segment>>, glyphs: Seq<LineGlyphs>) -> bool {
    &&& glyphs.len() == lines.len()
    &&& forall|i: int| 0 <= i < glyphs.len() ==> row_fits(src, lines[i], &#[trigger] glyphs[i])
}

/// The width of each line in pixels.
pub open spec fn line_widths(font: &FontMetrics, glyphs: Seq<LineGlyphs>) -> Seq<u32> {
    Seq::new(glyphs.len(), |i: int| text_width_spec(font, glyphs[i].text@) as u32)
}

/// The pixel at `(x, y)` after the first `n` lines have been drawn, `below`
/// being the pixel of the empty frame: on each line, the glyph of every
/// character at its cursor position and in its colour.
pub open spec fn page_pixel(
    below: Rgba8,
    width: int,
    height: int,
    font: &FontMetrics,
    src: Seq<u8>,
    lines: Seq<Seq<Segment>>,
    glyphs: Seq<LineGlyphs>,
    n: int,
    x: int,
    y: int,
) -> Rgba8
    decreases n,
{
    if n <= 0 {
        below
    } else {
        drawn_pixel(
            page_pixel(below, width, height, font, src, lines, glyphs, n - 1, x, y),
            width,
            height,
            n - 1,
            pen_positions_spec(font, glyphs[n - 1].text@),
            glyphs[n - 1].bitmaps@,
            line_colors(src, lines[n - 1]),
            glyphs[n - 1].text@.len() as int,
            x,
            y,
        )
    }
}

/// Drawing lines changes no pixel outside the text block.
pub proof fn lemma_page_keeps_frame(
    below: Rgba8,
    width: int,
    height: int,
    font: &FontMetrics,
    src: Seq<u8>,
    lines: Seq<Seq<Segment>>,
    glyphs: Seq<LineGlyphs>,
    n: int,
    x: int,
    y: int,
)
    requires
        !in_block(width, height, x, y),
    ensures
        page_pixel(below, width, height, font, src, lines, glyphs, n, x, y) == below,
    decreases n,
{
    if n > 0 {
        lemma_page_keeps_frame(below, width, height, font, src, lines, glyphs, n - 1, x, y);
        lemma_drawing_keeps_frame(
            below,
            width,
            height,
            n - 1,
            pen_positions_spec(font, glyphs[n - 1].text@),
            glyphs[n - 1].bitmaps@,
            line_colors(src, lines[n - 1]),
            glyphs[n - 1].text@.len() as int,
            x,
            y,
        );
    }
}

/// The width of each line in pixels.
pub fn measure(font: &FontMetrics, glyphs: &Vec<LineGlyphs>) -> (widths: Vec<u32>)
    ensures
        widths@ == line_widths(font, glyphs@),
{
    let mut widths: Vec<u32> = Vec::new();
    let mut i: usize = 0;
    while i < glyphs.len()
        invariant
            0 <= i <= glyphs@.len(),
            widths@ == line_widths(font, glyphs@).take(i as int),
        decreases glyphs@.len() - i,
    {
        let w = text_width(font, &glyphs[i].text);
        widths.push(w);
        i = i + 1;
        assert(widths@ =~= line_widths(font, glyphs@).take(i as int));
    }
    assert(line_widths(font, glyphs@).take(i as int) =~= line_widths(font, glyphs@));
    widths
}

/// Whether the glyphs are those of the lines.
pub fn check_glyphs(src: &[u8], lines: &Vec<Vec<Segment>>, glyphs: &Vec<LineGlyphs>) -> (fit: bool)
    requires
        lines_in_range(lines_view(lines@), src@.len()),
    ensures
        fit == glyphs_fit(src@, lines_view(lines@), glyphs@),
{
    if glyphs.len() != lines.len() {
        return false;
    }
    let mut i: usize = 0;
    while i < lines.len()
        invariant
            0 <= i <= lines@.len(),
            glyphs@.len() == lines@.len(),
            lines_in_range(lines_view(lines@), src@.len()),
            forall|k: int|
                0 <= k < i ==> row_fits(src@, lines_view(lines@)[k], &#[trigger] glyphs@[k]),
        decreases lines@.len() - i,
    {
        assert(line_in_range(lines_view(lines@)[i as int], src@.len()));
        let row = &glyphs[i];
        let spelled = encode_text(&row.text);
        let text = line_bytes(src, &lines[i]);
        if !same_bytes(&spelled, &text) || row.bitmaps.len() != row.text.len() {
            assert(!row_fits(src@, lines_view(lines@)[i as int], &glyphs@[i as int]));
            return false;
        }
        i = i + 1;
    }
    true
}

/// Draws the text into a framed picture. The block is as wide as the widest
/// line and one row high for each line; a picture above the area ceiling is
/// refused before anything is allocated. On each line the glyph of every
/// character is drawn in the character's colour, and the frame is left as
/// the border picture gives it.
pub fn render(
    border: &Border,
    font: &FontMetrics,
    src: &[u8],
    lines: &Vec<Vec<Segment>>,
    glyphs: &Vec<LineGlyphs>,
) -> (r: Result<Canvas, RenderError>)
    requires
        border.wf(),
        lines_in_range(lines_view(lines@), src@.len()),
        glyphs_fit(src@, lines_view(lines@), glyphs@),
    ensures
        r.is_ok() == area_ok(max_width(line_widths(font, glyphs@)), lines@.len() as int),
        match r {
            Ok(canvas) => {
                &&& canvas.spec_width() == max_width(line_widths(font, glyphs@)) + 20
                &&& canvas.spec_height() == 36 * lines@.len() + 20
                &&& forall|x: int, y: int|
                    0 <= x < canvas.spec_width() && 0 <= y < canvas.spec_height()
                        ==> #[trigger] canvas.at(x, y) == page_pixel(
                        border.at(
                            slice_coord(x, canvas.spec_width() - 20),
                            slice_coord(y, canvas.spec_height() - 20),
                        ),
                        canvas.spec_width() as int,
                        canvas.spec_height() as int,
                        font,
                        src@,
                        lines_view(lines@),
                        glyphs@,
                        lines@.len() as int,
                        x,
                        y,
                    )
                &&& forall|x: int, y: int|
                    0 <= x < canvas.spec_width() && 0 <= y < canvas.spec_height() && !in_block(
                        canvas.spec_width() as int,
                        canvas.spec_height() as int,
                        x,
                        y,
                    ) ==> #[trigger] canvas.at(x, y) == border.at(
                        slice_coord(x, canvas.spec_width() - 20),
                        slice_coord(y, canvas.spec_height() - 20),
                    )
            },
            Err(e) => e == RenderError::ImageTooLarge,
        },
{
    let widths = measure(font, glyphs);
    let layout = match plan_layout(&widths) {
        Ok(layout) => layout,
        Err(e) => {
            return Err(e);
        },
    };
    assert(glyphs@.len() <= 1388) by (nonlinear_arith)
        requires
            (layout.width + 20) * (layout.height + 20) <= 1_000_000,
            layout.width >= 0,
            layout.height == 36 * glyphs@.len(),
    ;
    let mut canvas = make_image(border, layout);
    let ghost base = canvas;
    let ghost width = base.spec_width() as int;
    let ghost height = base.spec_height() as int;
    let mut i: usize = 0;
    while i < lines.len()
        invariant
            0 <= i <= lines@.len(),
            glyphs@.len() == lines@.len(),
            glyphs_fit(src@, lines_view(lines@), glyphs@),
            glyphs@.len() <= 1388,
            lines_in_range(lines_view(lines@), src@.len()),
            width == base.spec_width(),
            height == base.spec_height(),
            canvas.spec_width() == width,
            canvas.spec_height() == height,
            forall|x: int, y: int|
                0 <= x < width && 0 <= y < height ==> #[trigger] canvas.at(x, y) == page_pixel(
                    base.at(x, y),
                    width,
                    height,
                    font,
                    src@,
                    lines_view(lines@),
                    glyphs@,
                    i as int,
                    x,
                    y,
                ),
        decreases glyphs@.len() - i,
    {
        assert(line_in_range(lines_view(lines@)[i as int], src@.len()));
        let colors = char_colors(src, &lines[i]);
        let pens = pen_positions(font, &glyphs[i].text);
        proof {
            assert(row_fits(src@, lines_view(lines@)[i as int], &glyphs@[i as int]));
            lemma_one_colour_per_character(
                src@,
                lines_view(lines@)[i as int],
                glyphs@[i as int].text@,
            );
        }
        draw_line(&mut canvas, i as u32, &pens, &glyphs[i].bitmaps, &colors);
        i = i + 1;
    }
    proof {
        assert forall|x: int, y: int|
            0 <= x < canvas.spec_width() && 0 <= y < canvas.spec_height() && !in_block(
                canvas.spec_width() as int,
                canvas.spec_height() as int,
                x,
                y,
            ) implies #[trigger] canvas.at(x, y) == border.at(
            slice_coord(x, canvas.spec_width() - 20),
            slice_coord(y, canvas.spec_height() - 20),
        ) by {
            lemma_page_keeps_frame(
                base.at(x, y),
                width,
                height,
                font,
                src@,
                lines_view(lines@),
                glyphs@,
                i as int,
                x,
                y,
            );
        }
    }
    Ok(canvas)
}

} // verus!
