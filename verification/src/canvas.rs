//! The raster that the tiling is painted on.

use vstd::prelude::*;

verus! {

/// A raster of RGB pixels, kept in an `image::ImageBuffer` with three `u8`
/// samples per pixel. The buffer's type is bounded by a trait of that crate,
/// which keeps Verus from taking it as it stands, so Verus does not look
/// inside this struct: what it knows of a buffer is what `buffer_size` and
/// `buffer_pixels` say, and those two are only as good as the contracts of
/// the four functions below that call into the crate.
#[verifier::external_body]
pub struct PixelBuffer {
    image: image::ImageBuffer<image::Rgb<u8>, Vec<u8>>,
}

/// The size that the buffer was made with: columns, then rows.
pub uninterp spec fn buffer_size(buf: PixelBuffer) -> (u32, u32);

/// The colour of each pixel, by column and row.
pub uninterp spec fn buffer_pixels(buf: PixelBuffer) -> Map<(u32, u32), [u8; 3]>;

/// `image::ImageBuffer::new`: a buffer of the given size with every sample
/// zero. It panics when the samples, three per pixel, are more than a `Vec`
/// can hold, which the precondition rules out.
#[verifier::external_body]
fn blank_image(width: u32, height: u32) -> (buf: PixelBuffer)
    requires
        3 * width * height <= isize::MAX,
    ensures
        buffer_size(buf) == (width, height),
        forall|x: u32, y: u32|
            x < width && y < height ==> #[trigger] buffer_pixels(buf)[(x, y)] == [0u8, 0u8, 0u8],
{
    PixelBuffer { image: image::ImageBuffer::new(width, height) }
}

/// `image::ImageBuffer::dimensions`: the width and the height that the buffer
/// was made with.
#[verifier::external_body]
fn image_dimensions(buf: &PixelBuffer) -> (size: (u32, u32))
    ensures
        size == buffer_size(*buf),
{
    buf.image.dimensions()
}

/// `image::ImageBuffer::put_pixel`: overwrites the one pixel at `(x, y)` and
/// leaves the size alone. It panics outside the buffer, which the
/// precondition rules out.
#[verifier::external_body]
fn put_pixel(buf: &mut PixelBuffer, x: u32, y: u32, color: [u8; 3])
    requires
        x < buffer_size(*old(buf)).0,
        y < buffer_size(*old(buf)).1,
    ensures
        buffer_size(*final(buf)) == buffer_size(*old(buf)),
        buffer_pixels(*final(buf)) == buffer_pixels(*old(buf)).insert((x, y), color),
{
    buf.image.put_pixel(x, y, image::Rgb(color));
}

/// `image::ImageBuffer::into_raw`: the samples, row after row, three for
/// each pixel.
#[verifier::external_body]
fn raw_samples(buf: PixelBuffer) -> (raw: Vec<u8>)
    ensures
        is_row_major(raw@, buffer_size(buf), buffer_pixels(buf)),
{
    buf.image.into_raw()
}

/// Whether `raw` holds the pixels of a buffer of the given size row after
/// row, each as its three samples.
pub open spec fn is_row_major(
    raw: Seq<u8>,
    size: (u32, u32),
    pixels: Map<(u32, u32), [u8; 3]>,
) -> bool {
    &&& raw.len() == 3 * size.0 * size.1
    &&& forall|x: u32, y: u32, c: int|
        x < size.0 && y < size.1 && 0 <= c < 3 ==> raw[(y * size.0 + x) * 3 + c]
            == #[trigger] pixels[(x, y)][c]
}

impl PixelBuffer {
    /// A buffer of the given size with every pixel `background`.
    pub fn new(width: u32, height: u32, background: [u8; 3]) -> (buf: Self)
        requires
            3 * width * height <= isize::MAX,
        ensures
            buffer_size(buf) == (width, height),
            forall|x: u32, y: u32|
                x < width && y < height ==> #[trigger] buffer_pixels(buf)[(x, y)] == background,
    {
        let mut buf = blank_image(width, height);
        let mut y: u32 = 0;
        while y < height
            invariant
                y <= height,
                buffer_size(buf) == (width, height),
                forall|px: u32, py: u32|
                    px < width && py < y ==> #[trigger] buffer_pixels(buf)[(px, py)] == background,
            decreases height - y,
        {
            let mut x: u32 = 0;
            while x < width
                invariant
                    x <= width,
                    y < height,
                    buffer_size(buf) == (width, height),
                    forall|px: u32, py: u32|
                        px < width && py < y ==> #[trigger] buffer_pixels(buf)[(px, py)]
                            == background,
                    forall|px: u32|
                        px < x ==> #[trigger] buffer_pixels(buf)[(px, y)] == background,
                decreases width - x,
            {
                put_pixel(&mut buf, x, y, background);
                x += 1;
            }
            y += 1;
        }
        buf
    }

    pub fn width(&self) -> (width: u32)
        ensures
            width == buffer_size(*self).0,
    {
        image_dimensions(self).0
    }

    pub fn height(&self) -> (height: u32)
        ensures
            height == buffer_size(*self).1,
    {
        image_dimensions(self).1
    }

    /// Paints the pixel at `(x, y)` if the buffer has one there; a position
    /// outside the buffer is passed over.
    pub fn put(&mut self, x: u32, y: u32, color: [u8; 3]) -> (painted: bool)
        ensures
            painted == (x < buffer_size(*old(self)).0 && y < buffer_size(*old(self)).1),
            buffer_size(*final(self)) == buffer_size(*old(self)),
            painted ==> buffer_pixels(*final(self)) == buffer_pixels(*old(self)).insert(
                (x, y),
                color,
            ),
            !painted ==> *final(self) == *old(self),
    {
        let (width, height) = image_dimensions(self);
        if x < width && y < height {
            put_pixel(self, x, y, color);
            true
        } else {
            false
        }
    }

    /// Gives up the buffer for its samples: row after row, three for each
    /// pixel.
    pub fn into_raw(self) -> (raw: Vec<u8>)
        ensures
            is_row_major(raw@, buffer_size(self), buffer_pixels(self)),
    {
        raw_samples(self)
    }
}

} // verus!
