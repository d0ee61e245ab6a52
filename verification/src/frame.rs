//! The frame round the text: a square border picture cut into three by
//! three tiles, with the corners kept, the edges repeated along each side
//! and the middle pixel filling the inside.

use vstd::prelude::*;
use crate::canvas::{Canvas, Rgba8};
use crate::metrics::Layout;

verus! {

/// The side of the border picture: a frame's thickness, one pixel for the
/// edges, and a frame's thickness again.
pub const BORDER_SIDE: u32 = 21u32;

/// The border picture, row by row.
pub struct Border {
    pixels: Vec<Rgba8>,
}

/// Which column (or row) of the border picture stands at column (or row)
/// `v` of a picture whose text block is `inner` pixels wide (or high).
pub open spec fn slice_coord(v: int, inner: int) -> int {
    if v < 10 {
        v
    } else if v < 10 + inner {
        10
    } else {
        v - inner + 1
    }
}

impl Border {
    /// The picture has all its pixels.
    pub closed spec fn wf(&self) -> bool {
        self.pixels@.len() == 441
    }

    /// The pixel at column `x` and row `y` of the border picture.
    pub closed spec fn at(&self, x: int, y: int) -> Rgba8 {
        self.pixels@[y * 21 + x]
    }

    /// A border picture from its pixels, row by row; `None` unless there
    /// are exactly 21 times 21 of them.
    pub fn new(pixels: Vec<Rgba8>) -> (b: Option<Border>)
        ensures
            b.is_some() == (pixels@.len() == 441),
            b.is_some() ==> b.unwrap().wf() && forall|x: int, y: int|
                0 <= x < 21 && 0 <= y < 21 ==> #[trigger] b.unwrap().at(x, y) == pixels@[y * 21
                    + x],
    {
        if pixels.len() == 441 {
            Some(Border { pixels })
        } else {
            None
        }
    }

    /// The pixel at column `x` and row `y`.
    pub fn get(&self, x: u32, y: u32) -> (p: Rgba8)
        requires
            self.wf(),
            x < 21,
            y < 21,
        ensures
            p == self.at(x as int, y as int),
    {
        self.pixels[(y * BORDER_SIDE + x) as usize]
    }
}

/// The canvas is the frame of `border` round a block of the layout's size:
/// every pixel is the border pixel that its column and row are cut from.
pub open spec fn framed(canvas: &Canvas, border: &Border, layout: Layout) -> bool {
    &&& canvas.spec_width() == layout.width + 20
    &&& canvas.spec_height() == layout.height + 20
    &&& forall|x: int, y: int|
        0 <= x < layout.width + 20 && 0 <= y < layout.height + 20 ==> #[trigger] canvas.at(x, y)
            == border.at(slice_coord(x, layout.width as int), slice_coord(y, layout.height as int))
}

/// The column (or row) of the border picture for column (or row) `v`.
pub fn slice_index(v: u32, inner: u32) -> (s: u32)
    requires
        v < inner + 20,
    ensures
        s == slice_coord(v as int, inner as int),
        s < 21,
{
    if v < 10 {
        v
    } else if v - 10 < inner {
        10
    } else {
        v - inner + 1
    }
}

/// Makes the framed canvas for a text block of the layout's size.
pub fn make_image(border: &Border, layout: Layout) -> (canvas: Canvas)
    requires
        border.wf(),
        layout.wf(),
    ensures
        framed(&canvas, border, layout),
{
    let center = border.get(10, 10);
    assert(layout.width + 20 <= 50_000 && layout.height + 20 <= 50_000) by (nonlinear_arith)
        requires
            (layout.width + 20) * (layout.height + 20) <= 1_000_000,
            layout.width >= 0,
            layout.height >= 0,
    ;
    let width: u32 = layout.width + 20;
    let height: u32 = layout.height + 20;
    assert((4 * width) * height <= 4_000_000) by (nonlinear_arith)
        requires
            width * height <= 1_000_000,
    ;
    let mut canvas = Canvas::filled(width, height, center);
    let mut y: u32 = 0;
    while y < height
        invariant
            0 <= y <= height,
            width == layout.width + 20,
            height == layout.height + 20,
            border.wf(),
            center == border.at(10, 10),
            canvas.spec_width() == width,
            canvas.spec_height() == height,
            forall|px: int, py: int|
                0 <= px < width && 0 <= py < height ==> #[trigger] canvas.at(px, py) == (if py < y {
                    border.at(
                        slice_coord(px, layout.width as int),
                        slice_coord(py, layout.height as int),
                    )
                } else {
                    center
                }),
        decreases height - y,
    {
        let by = slice_index(y, layout.height);
        let mut x: u32 = 0;
        while x < width
            invariant
                0 <= x <= width,
                0 <= y < height,
                width == layout.width + 20,
                height == layout.height + 20,
                border.wf(),
                by == slice_coord(y as int, layout.height as int),
                by < 21,
                center == border.at(10, 10),
                canvas.spec_width() == width,
                canvas.spec_height() == height,
                forall|px: int, py: int|
                    0 <= px < width && 0 <= py < height ==> #[trigger] canvas.at(px, py) == (if py
                        < y || (py == y && px < x) {
                        border.at(
                            slice_coord(px, layout.width as int),
                            slice_coord(py, layout.height as int),
                        )
                    } else {
                        center
                    }),
            decreases width - x,
        {
            let bx = slice_index(x, layout.width);
            let ghost before = canvas;
            if bx != 10 || by != 10 {
                let p = border.get(bx, by);
                canvas.put(x, y, p);
            }
            assert forall|px: int, py: int| 0 <= px < width && 0 <= py < height implies (
            #[trigger] canvas.at(px, py)) == (if py < y || (py == y && px < x + 1) {
                border.at(
                    slice_coord(px, layout.width as int),
                    slice_coord(py, layout.height as int),
                )
            } else {
                center
            }) by {
                if px == x && py == y {
                } else {
                    assert((px, py) != (x as int, y as int));
                    assert(canvas.at(px, py) == before.at(px, py));
                }
            }
            x = x + 1;
        }
        y = y + 1;
    }
    canvas
}

} // verus!
