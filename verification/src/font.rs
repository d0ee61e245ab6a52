//! What the layout reads of a font: how far each character moves the
//! cursor, and the kerning adjustment between two characters that stand
//! side by side. All distances are in sixty-fourths of a pixel.

use vstd::prelude::*;
use std::collections::HashMap;
use crate::metrics::{
    cursor_after,
    lemma_cursor_bounds,
    lemma_width_monotone,
    line_width,
    line_width_spec,
    GlyphAdvance,
};

verus! {

broadcast use vstd::std_specs::hash::group_hash_axioms;

/// The advance of each character and the kerning of each pair; what is not
/// set is zero.
pub struct FontMetrics {
    advances: HashMap<u32, i32>,
    kerning: HashMap<u64, i32>,
}

/// The number that a pair of characters is filed under.
pub open spec fn pair_key(a: char, b: char) -> u64 {
    ((a as u32) * 0x20_0000 + (b as u32)) as u64
}

/// How far each character of a text moves the cursor: for each, the
/// kerning against the character before it and its own advance.
pub open spec fn glyph_advances(font: &FontMetrics, text: Seq<char>) -> Seq<GlyphAdvance> {
    Seq::new(
        text.len(),
        |i: int|
            GlyphAdvance {
                kerning: if i == 0 {
                    0i32
                } else {
                    font.kerning_of(text[i - 1], text[i])
                },
                advance: font.advance_of(text[i]),
            },
    )
}

/// Where the cursor stands when each character is drawn: after the
/// characters before it and its own kerning adjustment, in sixty-fourths of
/// a pixel from the start of the line.
pub open spec fn pen_positions_spec(font: &FontMetrics, text: Seq<char>) -> Seq<i128> {
    Seq::new(
        text.len(),
        |k: int|
            (cursor_after(glyph_advances(font, text).take(k)) + glyph_advances(
                font,
                text,
            )[k].kerning) as i128,
    )
}

/// The width of a text in pixels.
pub open spec fn text_width_spec(font: &FontMetrics, text: Seq<char>) -> int {
    line_width_spec(glyph_advances(font, text))
}

/// Two characters with the same code are the same character.
pub proof fn lemma_char_code_injective(a: char, b: char)
    ensures
        (a as u32) == (b as u32) ==> a == b,
        (a as u32) < 0x20_0000,
        (b as u32) < 0x20_0000,
{
    assert(((a as u32) as char) == a);
    assert(((b as u32) as char) == b);
}

impl FontMetrics {
    /// The advance of a character.
    pub closed spec fn advance_of(&self, c: char) -> i32 {
        if self.advances@.contains_key(c as u32) {
            self.advances@[c as u32]
        } else {
            0i32
        }
    }

    /// The kerning adjustment of `b` standing after `a`.
    pub closed spec fn kerning_of(&self, a: char, b: char) -> i32 {
        if self.kerning@.contains_key(pair_key(a, b)) {
            self.kerning@[pair_key(a, b)]
        } else {
            0i32
        }
    }

    /// No character moves the cursor backwards, neither alone nor after
    /// another.
    pub open spec fn moves_forward(&self) -> bool {
        forall|a: char, b: char|
            self.advance_of(b) >= 0 && self.advance_of(b) + #[trigger] self.kerning_of(a, b) >= 0
    }

    /// Metrics with nothing set.
    pub fn new() -> (font: FontMetrics)
        ensures
            forall|c: char| #[trigger] font.advance_of(c) == 0,
            forall|a: char, b: char| #[trigger] font.kerning_of(a, b) == 0,
    {
        FontMetrics { advances: HashMap::new(), kerning: HashMap::new() }
    }

    /// Sets the advance of a character.
    pub fn set_advance(&mut self, c: char, units: i32)
        ensures
            forall|d: char| #[trigger]
                final(self).advance_of(d) == if d == c {
                    units
                } else {
                    old(self).advance_of(d)
                },
            forall|a: char, b: char| #[trigger]
                final(self).kerning_of(a, b) == old(self).kerning_of(a, b),
    {
        self.advances.insert(c as u32, units);
        proof {
            assert forall|d: char| #[trigger]
                self.advance_of(d) == if d == c {
                    units
                } else {
                    old(self).advance_of(d)
                } by {
                lemma_char_code_injective(d, c);
            }
        }
    }

    /// Sets the kerning adjustment of `b` standing after `a`.
    pub fn set_kerning(&mut self, a: char, b: char, units: i32)
        ensures
            forall|x: char, y: char| #[trigger]
                final(self).kerning_of(x, y) == if x == a && y == b {
                    units
                } else {
                    old(self).kerning_of(x, y)
                },
            forall|d: char| #[trigger] final(self).advance_of(d) == old(self).advance_of(d),
    {
        let key: u64 = (a as u64) * 0x20_0000 + (b as u64);
        self.kerning.insert(key, units);
        proof {
            assert forall|x: char, y: char| #[trigger]
                self.kerning_of(x, y) == if x == a && y == b {
                    units
                } else {
                    old(self).kerning_of(x, y)
                } by {
                lemma_char_code_injective(x, a);
                lemma_char_code_injective(y, b);
            }
        }
    }

    /// The advance of a character.
    pub fn advance(&self, c: char) -> (units: i32)
        ensures
            units == self.advance_of(c),
    {
        match self.advances.get(&(c as u32)) {
            Some(units) => *units,
            None => 0,
        }
    }

    /// The kerning adjustment of `b` standing after `a`.
    pub fn kerning(&self, a: char, b: char) -> (units: i32)
        ensures
            units == self.kerning_of(a, b),
    {
        let key: u64 = (a as u64) * 0x20_0000 + (b as u64);
        match self.kerning.get(&key) {
            Some(units) => *units,
            None => 0,
        }
    }
}

/// Characters added at the end of a text do not make it narrower, as long
/// as the font moves the cursor forwards only.
pub proof fn lemma_text_width_monotone(font: &FontMetrics, text: Seq<char>, suffix: Seq<char>)
    requires
        font.moves_forward(),
    ensures
        text_width_spec(font, text + suffix) >= text_width_spec(font, text),
{
    let whole = glyph_advances(font, text + suffix);
    let head = glyph_advances(font, text);
    let tail = Seq::new(suffix.len(), |k: int| whole[text.len() + k]);
    assert(whole =~= head + tail);
    assert forall|k: int| 0 <= k < tail.len() implies (#[trigger] tail[k]).kerning
        + tail[k].advance >= 0 by {
        let i = text.len() + k;
        if i > 0 {
            assert(font.advance_of((text + suffix)[i]) + font.kerning_of(
                (text + suffix)[i - 1],
                (text + suffix)[i],
            ) >= 0);
        } else {
            assert(font.advance_of((text + suffix)[i]) + font.kerning_of(
                (text + suffix)[i],
                (text + suffix)[i],
            ) >= 0);
        }
    }
    lemma_width_monotone(head, tail);
}

/// How far each character of a text moves the cursor.
pub fn line_advances(font: &FontMetrics, text: &Vec<char>) -> (glyphs: Vec<GlyphAdvance>)
    ensures
        glyphs@ == glyph_advances(font, text@),
{
    let mut glyphs: Vec<GlyphAdvance> = Vec::new();
    let mut i: usize = 0;
    while i < text.len()
        invariant
            0 <= i <= text@.len(),
            glyphs@ == glyph_advances(font, text@).take(i as int),
        decreases text@.len() - i,
    {
        let kerning = if i == 0 {
            0
        } else {
            font.kerning(text[i - 1], text[i])
        };
        glyphs.push(GlyphAdvance { kerning, advance: font.advance(text[i]) });
        i = i + 1;
        assert(glyphs@ =~= glyph_advances(font, text@).take(i as int));
    }
    assert(glyph_advances(font, text@).take(i as int) =~= glyph_advances(font, text@));
    glyphs
}

/// Walks the cursor along a text: before each character it moves by the
/// kerning against the character before, and there the character is drawn;
/// after it, by the character's advance.
pub fn pen_positions(font: &FontMetrics, text: &Vec<char>) -> (pens: Vec<i128>)
    ensures
        pens@ == pen_positions_spec(font, text@),
{
    let glyphs = line_advances(font, text);
    let mut pens: Vec<i128> = Vec::new();
    let mut cursor: i128 = 0;
    let mut k: usize = 0;
    while k < glyphs.len()
        invariant
            0 <= k <= glyphs@.len(),
            glyphs@ == glyph_advances(font, text@),
            cursor == cursor_after(glyphs@.take(k as int)),
            pens@ == pen_positions_spec(font, text@).take(k as int),
        decreases glyphs@.len() - k,
    {
        proof {
            lemma_cursor_bounds(glyphs@.take(k as int));
            assert(glyphs@.take(k + 1).drop_last() =~= glyphs@.take(k as int));
        }
        let g = glyphs[k];
        let pen: i128 = cursor + (g.kerning as i128);
        pens.push(pen);
        cursor = pen + (g.advance as i128);
        k = k + 1;
        assert(pens@ =~= pen_positions_spec(font, text@).take(k as int));
    }
    assert(pen_positions_spec(font, text@).take(k as int) =~= pen_positions_spec(font, text@));
    pens
}

/// The width of a text in pixels: the advances of its characters and the
/// kerning between neighbours, summed and rounded up to a whole pixel.
pub fn text_width(font: &FontMetrics, text: &Vec<char>) -> (w: u32)
    ensures
        w == text_width_spec(font, text@),
{
    let glyphs = line_advances(font, text);
    line_width(&glyphs)
}

} // verus!
