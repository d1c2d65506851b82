//! The pixel store: `image`'s RGBA buffer, and what this crate takes on trust
//! about the handful of its methods that the renderer calls.

use vstd::prelude::*;
use crate::color::Color;

verus! {

/// An `image::RgbaImage`. Its inside is opaque to the verifier: all that is
/// known of a buffer is what the functions of this module state.
#[verifier::external_body]
pub struct PixelBuffer {
    inner: image::RgbaImage,
}

/// The number of pixel columns of a buffer.
pub uninterp spec fn buffer_width(buf: PixelBuffer) -> u32;

/// The number of pixel rows of a buffer.
pub uninterp spec fn buffer_height(buf: PixelBuffer) -> u32;

/// The colours a buffer holds, keyed by `(x, y)`.
pub uninterp spec fn buffer_pixels(buf: PixelBuffer) -> Map<(int, int), Color>;

/// `ImageBuffer::new`. It panics when the byte count, 4 times the width
/// times the height, computed in that order, overflows `usize`, and the
/// vector it allocates panics above `isize::MAX` bytes. Otherwise it gives a
/// buffer of the given dimensions with every channel of every pixel zero.
#[verifier::external_body]
pub(crate) fn buffer_new(width: u32, height: u32) -> (buf: PixelBuffer)
    requires
        4 * width <= usize::MAX,
        4 * width * height <= isize::MAX,
    ensures
        buffer_width(buf) == width,
        buffer_height(buf) == height,
        forall|x: int, y: int|
            0 <= x < width && 0 <= y < height ==> #[trigger] buffer_pixels(buf)[(x, y)] == (Color {
                r: 0,
                g: 0,
                b: 0,
                a: 0,
            }),
{
    PixelBuffer { inner: image::RgbaImage::new(width, height) }
}

/// `ImageBuffer::width`: the width the buffer was made with.
#[verifier::external_body]
pub(crate) fn buffer_get_width(buf: &PixelBuffer) -> (w: u32)
    ensures
        w == buffer_width(*buf),
{
    buf.inner.width()
}

/// `ImageBuffer::height`: the height the buffer was made with.
#[verifier::external_body]
pub(crate) fn buffer_get_height(buf: &PixelBuffer) -> (h: u32)
    ensures
        h == buffer_height(*buf),
{
    buf.inner.height()
}

/// `ImageBuffer::get_pixel`, which panics outside the buffer's bounds: inside
/// them it hands back the colour stored at `(x, y)`.
#[verifier::external_body]
pub(crate) fn buffer_get(buf: &PixelBuffer, x: u32, y: u32) -> (c: Color)
    requires
        x < buffer_width(*buf),
        y < buffer_height(*buf),
    ensures
        c == buffer_pixels(*buf)[(x as int, y as int)],
{
    let p = buf.inner.get_pixel(x, y);
    Color { r: p.0[0], g: p.0[1], b: p.0[2], a: p.0[3] }
}

/// `ImageBuffer::put_pixel`, which panics outside the buffer's bounds: inside
/// them it stores `c` at `(x, y)` and touches neither another pixel nor the
/// dimensions.
#[verifier::external_body]
pub(crate) fn buffer_put(buf: &mut PixelBuffer, x: u32, y: u32, c: Color)
    requires
        x < buffer_width(*old(buf)),
        y < buffer_height(*old(buf)),
    ensures
        buffer_width(*final(buf)) == buffer_width(*old(buf)),
        buffer_height(*final(buf)) == buffer_height(*old(buf)),
        buffer_pixels(*final(buf)) == buffer_pixels(*old(buf)).insert((x as int, y as int), c),
{
    buf.inner.put_pixel(x, y, image::Rgba([c.r, c.g, c.b, c.a]))
}

/// `ImageBuffer::clone`: a buffer of the same dimensions holding the same
/// colours.
#[verifier::external_body]
pub(crate) fn buffer_clone(buf: &PixelBuffer) -> (out: PixelBuffer)
    ensures
        buffer_width(out) == buffer_width(*buf),
        buffer_height(out) == buffer_height(*buf),
        buffer_pixels(out) == buffer_pixels(*buf),
{
    PixelBuffer { inner: buf.inner.clone() }
}

} // verus!
