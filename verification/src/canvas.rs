//! The pixel buffer that the picture is drawn on, and the two operations on
//! pixels that the image crate computes: blending and encoding.

use vstd::prelude::*;
use crate::error::RenderError;

verus! {

/// The most bytes that an encoded picture may have.
pub const MAX_UPLOAD: usize = 8_000_000;

/// One pixel: red, green, blue and alpha.
#[derive(Clone, Copy, Debug, PartialEq, Eq, Structural)]
pub struct Rgba8 {
    pub r: u8,
    pub g: u8,
    pub b: u8,
    pub a: u8,
}

/// A rectangular buffer of pixels, held in an `image::RgbaImage`. Its size
/// and its pixels are known only through the items below.
#[verifier::external_body]
pub struct Canvas {
    img: image::RgbaImage,
}

/// `image::ImageError`: why the image crate could not encode. Nothing is
/// read of it.
#[verifier::external_type_specification]
#[verifier::external_body]
pub struct ExImageError(image::ImageError);

/// The pixels of a canvas, by column and row.
pub uninterp spec fn canvas_pixels(c: Canvas) -> Map<(int, int), Rgba8>;

/// The number of columns of a canvas.
pub uninterp spec fn canvas_width(c: Canvas) -> nat;

/// The number of rows of a canvas.
pub uninterp spec fn canvas_height(c: Canvas) -> nat;

/// What blending the pixel `above` onto the pixel `below` gives.
pub uninterp spec fn blended(below: Rgba8, above: Rgba8) -> Rgba8;

/// The PNG file that encoding the pixels gives, or `None` where the encoder
/// fails.
pub uninterp spec fn png_of(pixels: Map<(int, int), Rgba8>, width: nat, height: nat) -> Option<
    Seq<u8>,
>;

/// `ImageBuffer::from_pixel`: an image of the given size with every pixel
/// set to `p`. It panics if the buffer would be larger than a vector can be.
#[verifier::external_body]
fn canvas_from_pixel(width: u32, height: u32, p: Rgba8) -> (c: Canvas)
    requires
        4 * width * height <= isize::MAX,
    ensures
        canvas_width(c) == width,
        canvas_height(c) == height,
        forall|x: int, y: int|
            0 <= x < width && 0 <= y < height ==> #[trigger] canvas_pixels(c)[(x, y)] == p,
{
    Canvas { img: image::RgbaImage::from_pixel(width, height, image::Rgba([p.r, p.g, p.b, p.a])) }
}

/// `ImageBuffer::width`: the number of columns.
#[verifier::external_body]
fn canvas_get_width(c: &Canvas) -> (w: u32)
    ensures
        w == canvas_width(*c),
{
    c.img.width()
}

/// `ImageBuffer::height`: the number of rows.
#[verifier::external_body]
fn canvas_get_height(c: &Canvas) -> (h: u32)
    ensures
        h == canvas_height(*c),
{
    c.img.height()
}

/// `ImageBuffer::get_pixel`: the pixel at a place inside the image. It
/// panics outside.
#[verifier::external_body]
fn canvas_get_pixel(c: &Canvas, x: u32, y: u32) -> (p: Rgba8)
    requires
        x < canvas_width(*c),
        y < canvas_height(*c),
    ensures
        p == canvas_pixels(*c)[(x as int, y as int)],
{
    let px = c.img.get_pixel(x, y);
    Rgba8 { r: px.0[0], g: px.0[1], b: px.0[2], a: px.0[3] }
}

/// `ImageBuffer::put_pixel`: sets the pixel at a place inside the image and
/// leaves the others and the size as they are. It panics outside.
#[verifier::external_body]
fn canvas_put_pixel(c: &mut Canvas, x: u32, y: u32, p: Rgba8)
    requires
        x < canvas_width(*old(c)),
        y < canvas_height(*old(c)),
    ensures
        canvas_width(*final(c)) == canvas_width(*old(c)),
        canvas_height(*final(c)) == canvas_height(*old(c)),
        canvas_pixels(*final(c)) == canvas_pixels(*old(c)).insert((x as int, y as int), p),
{
    c.img.put_pixel(x, y, image::Rgba([p.r, p.g, p.b, p.a]))
}

/// `Pixel::blend` of `Rgba<u8>`: source-over compositing. A fully
/// transparent pixel changes nothing, a fully opaque one replaces what is
/// below; in between the result is the crate's rounding of the weighted
/// mean, which is given a name here.
#[verifier::external_body]
pub(crate) fn blend_pixels(below: Rgba8, above: Rgba8) -> (out: Rgba8)
    ensures
        out == blended(below, above),
        above.a == 0 ==> out == below,
        above.a == 255 ==> out == above,
{
    let mut px = image::Rgba([below.r, below.g, below.b, below.a]);
    image::Pixel::blend(&mut px, &image::Rgba([above.r, above.g, above.b, above.a]));
    Rgba8 { r: px.0[0], g: px.0[1], b: px.0[2], a: px.0[3] }
}

/// `PngEncoder::write_image` on an encoder made by
/// `PngEncoder::new_with_quality` with run-length compression and the `Up`
/// filter: the PNG file of the canvas, or the encoder's error.
#[verifier::external_body]
fn canvas_encode_png(c: &Canvas) -> (r: Result<Vec<u8>, image::ImageError>)
    ensures
        match r {
            Ok(bytes) => png_of(canvas_pixels(*c), canvas_width(*c), canvas_height(*c)) == Some(
                bytes@,
            ),
            Err(_) => png_of(canvas_pixels(*c), canvas_width(*c), canvas_height(*c)) is None,
        },
{
    let mut bytes = Vec::new();
    let encoder = image::codecs::png::PngEncoder::new_with_quality(
        &mut bytes,
        image::codecs::png::CompressionType::Rle,
        image::codecs::png::FilterType::Up,
    );
    let (w, h) = (c.img.width(), c.img.height());
    image::ImageEncoder::write_image(encoder, c.img.as_raw(), w, h, image::ColorType::Rgba8)?;
    Ok(bytes)
}

/// What becomes of an encoder's output: a failure to encode is reported as
/// such, and a file above the upload ceiling is refused.
pub open spec fn upload_of(encoded: Option<Seq<u8>>) -> Result<Seq<u8>, RenderError> {
    match encoded {
        None => Err(RenderError::EncodingFailed),
        Some(bytes) => if bytes.len() > 8_000_000 {
            Err(RenderError::OutputTooLarge)
        } else {
            Ok(bytes)
        },
    }
}

/// Holds an encoded file to the upload ceiling.
pub fn check_upload(bytes: Vec<u8>) -> (r: Result<Vec<u8>, RenderError>)
    ensures
        match r {
            Ok(out) => out@ == bytes@ && bytes@.len() <= 8_000_000,
            Err(e) => e == RenderError::OutputTooLarge && bytes@.len() > 8_000_000,
        },
{
    if bytes.len() > MAX_UPLOAD {
        Err(RenderError::OutputTooLarge)
    } else {
        Ok(bytes)
    }
}

impl Canvas {
    /// The pixels by column and row.
    pub closed spec fn pixels(&self) -> Map<(int, int), Rgba8> {
        canvas_pixels(*self)
    }

    /// The number of columns.
    pub closed spec fn spec_width(&self) -> nat {
        canvas_width(*self)
    }

    /// The number of rows.
    pub closed spec fn spec_height(&self) -> nat {
        canvas_height(*self)
    }

    /// The pixel at column `x` and row `y`.
    pub open spec fn at(&self, x: int, y: int) -> Rgba8 {
        self.pixels()[(x, y)]
    }

    /// The PNG file that the encoder makes of the canvas, or `None` where it
    /// fails.
    pub open spec fn png(&self) -> Option<Seq<u8>> {
        png_of(canvas_pixels(*self), canvas_width(*self), canvas_height(*self))
    }

    /// What encoding the canvas and holding the file to the upload ceiling
    /// gives.
    pub open spec fn encoded(&self) -> Result<Seq<u8>, RenderError> {
        upload_of(self.png())
    }

    /// A canvas of the given size with every pixel set to `p`.
    pub fn filled(width: u32, height: u32, p: Rgba8) -> (c: Canvas)
        requires
            4 * width * height <= isize::MAX,
        ensures
            c.spec_width() == width,
            c.spec_height() == height,
            forall|x: int, y: int| 0 <= x < width && 0 <= y < height ==> #[trigger] c.at(x, y) == p,
    {
        canvas_from_pixel(width, height, p)
    }

    /// The number of columns.
    pub fn width(&self) -> (w: u32)
        ensures
            w == self.spec_width(),
    {
        canvas_get_width(self)
    }

    /// The number of rows.
    pub fn height(&self) -> (h: u32)
        ensures
            h == self.spec_height(),
    {
        canvas_get_height(self)
    }

    /// The pixel at column `x` and row `y`, or `None` outside the canvas.
    pub fn get(&self, x: u32, y: u32) -> (p: Option<Rgba8>)
        ensures
            p == if x < self.spec_width() && y < self.spec_height() {
                Some(self.at(x as int, y as int))
            } else {
                None
            },
    {
        if x < canvas_get_width(self) && y < canvas_get_height(self) {
            Some(canvas_get_pixel(self, x, y))
        } else {
            None
        }
    }

    /// Sets the pixel at column `x` and row `y`. Outside the canvas nothing
    /// is changed and `false` is returned.
    pub fn put(&mut self, x: u32, y: u32, p: Rgba8) -> (inside: bool)
        ensures
            inside == (x < old(self).spec_width() && y < old(self).spec_height()),
            final(self).spec_width() == old(self).spec_width(),
            final(self).spec_height() == old(self).spec_height(),
            final(self).pixels() == if inside {
                old(self).pixels().insert((x as int, y as int), p)
            } else {
                old(self).pixels()
            },
    {
        if x < canvas_get_width(self) && y < canvas_get_height(self) {
            canvas_put_pixel(self, x, y, p);
            true
        } else {
            false
        }
    }

    /// Encodes the canvas as a PNG file and holds the file to the upload
    /// ceiling.
    pub fn encode(&self) -> (r: Result<Vec<u8>, RenderError>)
        ensures
            match r {
                Ok(bytes) => {
                    &&& self.encoded() == Ok::<Seq<u8>, RenderError>(bytes@)
                    &&& self.png() == Some(bytes@)
                    &&& bytes@.len() <= 8_000_000
                },
                Err(e) => {
                    &&& self.encoded() == Err::<Seq<u8>, RenderError>(e)
                    &&& e == RenderError::EncodingFailed <==> self.png() is None
                    &&& e == RenderError::OutputTooLarge <==> (self.png() is Some
                        && self.png().unwrap().len() > 8_000_000)
                    &&& e == RenderError::EncodingFailed || e == RenderError::OutputTooLarge
                },
            },
    {
        match canvas_encode_png(self) {
            Ok(bytes) => check_upload(bytes),
            Err(_) => Err(RenderError::EncodingFailed),
        }
    }
}

} // verus!
