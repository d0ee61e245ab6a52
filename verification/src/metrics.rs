//! Measuring lines of glyphs and planning the size of the picture.
//!
//! Horizontal distances are counted in sixty-fourths of a pixel, so that
//! sums of advances and kerning adjustments are exact.

use vstd::prelude::*;
use crate::error::RenderError;

verus! {

/// How many units of horizontal distance make one pixel.
pub const UNITS_PER_PIXEL: i128 = 64i128;

/// The height of one row of text in pixels.
pub const LINE_HEIGHT: u32 = 36u32;

/// The thickness of the frame round the text in pixels.
pub const FRAME: u32 = 10u32;

/// The most pixels that a picture may have, frame included.
pub const MAX_AREA: u64 = 1_000_000u64;

/// How far one glyph moves the cursor: first by the kerning adjustment
/// against the glyph before it (zero for the first of a line), then by its
/// own advance. Both in sixty-fourths of a pixel.
#[derive(Clone, Copy, Debug, PartialEq, Eq, Structural)]
pub struct GlyphAdvance {
    pub kerning: i32,
    pub advance: i32,
}

/// The size of the text block in pixels, without the frame.
#[derive(Clone, Copy, Debug, PartialEq, Eq, Structural)]
pub struct Layout {
    pub width: u32,
    pub height: u32,
}

impl Layout {
    /// The picture with its frame is within the area ceiling.
    pub open spec fn wf(self) -> bool {
        (self.width + 20) * (self.height + 20) <= 1_000_000
    }
}

/// Where the cursor stands after the glyphs, in sixty-fourths of a pixel.
pub open spec fn cursor_after(glyphs: Seq<GlyphAdvance>) -> int
    decreases glyphs.len(),
{
    if glyphs.len() == 0 {
        0
    } else {
        cursor_after(glyphs.drop_last()) + glyphs.last().kerning + glyphs.last().advance
    }
}

/// A distance in whole pixels, rounded up; nothing for a cursor left of the
/// start, and no more than a `u32` holds.
pub open spec fn pixels_up(units: int) -> int {
    if units <= 0 {
        0
    } else if (units + 63) / 64 > u32::MAX {
        u32::MAX as int
    } else {
        (units + 63) / 64
    }
}

/// The pixel that a distance falls into: the distance in whole pixels,
/// rounded down.
pub open spec fn floor_px(units: int) -> int {
    units / 64
}

/// The width of a line in pixels.
pub open spec fn line_width_spec(glyphs: Seq<GlyphAdvance>) -> int {
    pixels_up(cursor_after(glyphs))
}

/// The greatest of the widths, zero for none.
pub open spec fn max_width(widths: Seq<u32>) -> int
    decreases widths.len(),
{
    if widths.len() == 0 {
        0
    } else if widths.last() > max_width(widths.drop_last()) {
        widths.last() as int
    } else {
        max_width(widths.drop_last())
    }
}

/// Whether a block of the given width and number of lines, with its frame,
/// is within the area ceiling.
pub open spec fn area_ok(width: int, line_count: int) -> bool {
    (width + 20) * (36 * line_count + 20) <= 1_000_000
}

/// The cursor is never further from the start than the glyphs can carry it.
pub proof fn lemma_cursor_bounds(glyphs: Seq<GlyphAdvance>)
    ensures
        -(glyphs.len() * 0x1_0000_0000) <= cursor_after(glyphs) <= glyphs.len() * 0x1_0000_0000,
    decreases glyphs.len(),
{
    if glyphs.len() > 0 {
        lemma_cursor_bounds(glyphs.drop_last());
    }
}

proof fn lemma_cursor_append(line: Seq<GlyphAdvance>, suffix: Seq<GlyphAdvance>)
    requires
        forall|k: int| 0 <= k < suffix.len() ==> (#[trigger] suffix[k]).kerning + suffix[k].advance >= 0,
    ensures
        cursor_after(line + suffix) >= cursor_after(line),
    decreases suffix.len(),
{
    if suffix.len() == 0 {
        assert(line + suffix =~= line);
    } else {
        assert((line + suffix).drop_last() =~= line + suffix.drop_last());
        assert((line + suffix).last() == suffix.last());
        lemma_cursor_append(line, suffix.drop_last());
    }
}

/// Glyphs added at the end of a line do not make it narrower, as long as
/// none of them moves the cursor backwards.
pub proof fn lemma_width_monotone(line: Seq<GlyphAdvance>, suffix: Seq<GlyphAdvance>)
    requires
        forall|k: int| 0 <= k < suffix.len() ==> (#[trigger] suffix[k]).kerning + suffix[k].advance >= 0,
    ensures
        line_width_spec(line + suffix) >= line_width_spec(line),
{
    lemma_cursor_append(line, suffix);
}

/// A block whose own area is above the ceiling is not within it.
pub proof fn lemma_area_guard(width: int, line_count: int)
    requires
        width >= 0,
        line_count >= 0,
        width * (36 * line_count) > 1_000_000,
    ensures
        !area_ok(width, line_count),
{
    assert((width + 20) * (36 * line_count + 20) >= width * (36 * line_count)) by (nonlinear_arith)
        requires
            width >= 0,
            line_count >= 0,
    ;
}

/// The pixel that a distance falls into.
pub fn floor_pixels(units: i128) -> (px: i128)
    ensures
        px == floor_px(units as int),
{
    if units >= 0 {
        units / UNITS_PER_PIXEL
    } else if units < -0x4000_0000_0000_0000_0000_0000_0000_0000i128 {
        let back: i128 = (units + 0x4000_0000_0000_0000_0000_0000_0000_0000i128)
            / UNITS_PER_PIXEL;
        let more: i128 = (units + 0x4000_0000_0000_0000_0000_0000_0000_0000i128)
            - back * UNITS_PER_PIXEL;
        if more < 0 {
            back - 1 - 0x0100_0000_0000_0000_0000_0000_0000_0000i128
        } else {
            back - 0x0100_0000_0000_0000_0000_0000_0000_0000i128
        }
    } else {
        -((63 - units) / UNITS_PER_PIXEL)
    }
}

/// The width of a line in pixels: the cursor after its last glyph, rounded
/// up to a whole pixel.
pub fn line_width(glyphs: &Vec<GlyphAdvance>) -> (w: u32)
    ensures
        w == line_width_spec(glyphs@),
{
    let mut cursor: i128 = 0;
    let mut k: usize = 0;
    while k < glyphs.len()
        invariant
            0 <= k <= glyphs@.len(),
            cursor == cursor_after(glyphs@.take(k as int)),
        decreases glyphs@.len() - k,
    {
        proof {
            lemma_cursor_bounds(glyphs@.take(k as int));
            assert(glyphs@.take(k + 1).drop_last() =~= glyphs@.take(k as int));
        }
        let g = glyphs[k];
        cursor = cursor + (g.kerning as i128) + (g.advance as i128);
        k = k + 1;
    }
    proof {
        assert(glyphs@.take(k as int) =~= glyphs@);
        lemma_cursor_bounds(glyphs@);
    }
    if cursor <= 0 {
        0
    } else {
        let px: i128 = (cursor + 63) / UNITS_PER_PIXEL;
        if px > 0xffff_ffffi128 {
            u32::MAX
        } else {
            px as u32
        }
    }
}

/// The size of the text block: as wide as the widest line, one row high for
/// each line. Refused before anything is allocated if the picture, frame
/// included, would have more pixels than the ceiling allows.
pub fn plan_layout(widths: &Vec<u32>) -> (r: Result<Layout, RenderError>)
    ensures
        r.is_ok() == area_ok(max_width(widths@), widths@.len() as int),
        max_width(widths@) * (36 * widths@.len()) > 1_000_000 ==> r.is_err(),
        match r {
            Ok(layout) => {
                &&& layout.width == max_width(widths@)
                &&& layout.height == 36 * widths@.len()
                &&& layout.wf()
            },
            Err(e) => e == RenderError::ImageTooLarge,
        },
{
    let mut width: u32 = 0;
    let mut k: usize = 0;
    while k < widths.len()
        invariant
            0 <= k <= widths@.len(),
            width == max_width(widths@.take(k as int)),
        decreases widths@.len() - k,
    {
        assert(widths@.take(k + 1).drop_last() =~= widths@.take(k as int));
        if widths[k] > width {
            width = widths[k];
        }
        k = k + 1;
    }
    assert(widths@.take(k as int) =~= widths@);
    proof {
        if width * (36 * widths@.len()) > 1_000_000 {
            lemma_area_guard(width as int, widths@.len() as int);
        }
    }
    let count: usize = widths.len();
    if count > 27_777 || width > 999_980 {
        assert(!area_ok(width as int, count as int)) by (nonlinear_arith)
            requires
                count > 27_777 || width > 999_980,
                width >= 0,
                count >= 0,
        ;
        return Err(RenderError::ImageTooLarge);
    }
    let height: u32 = LINE_HEIGHT * (count as u32);
    assert((width + 20) * (height + 20) <= 1_000_000 * 1_000_020) by (nonlinear_arith)
        requires
            0 <= width <= 999_980,
            0 <= height <= 1_000_000,
    ;
    let area: u64 = ((width + 2 * FRAME) as u64) * ((height + 2 * FRAME) as u64);
    if area > MAX_AREA {
        Err(RenderError::ImageTooLarge)
    } else {
        Ok(Layout { width, height })
    }
}

} // verus!
