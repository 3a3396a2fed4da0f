//! The decoded RGBA image of the `image` crate, as the library sees it: a
//! width, a height, and the four channels of each pixel.
use vstd::prelude::*;

verus! {

/// The red, green, blue and alpha channels of one pixel.
pub type Channels = (u8, u8, u8, u8);

/// An RGBA image with eight bits per channel, held in an `image::RgbaImage`.
#[verifier::external_body]
pub struct Image {
    buf: image::RgbaImage,
}

/// Width of an image, in pixels.
pub uninterp spec fn image_width(img: Image) -> u32;

/// Height of an image, in pixels.
pub uninterp spec fn image_height(img: Image) -> u32;

/// The channels of each pixel of an image, keyed by `(x, y)`; meaningful for
/// `x < image_width(img)` and `y < image_height(img)`.
pub uninterp spec fn image_pixels(img: Image) -> Map<(int, int), Channels>;

/// Opaque red, the colour of an outline.
pub open spec fn red() -> Channels {
    (255u8, 0u8, 0u8, 255u8)
}

/// The channels of the pixel at `(x, y)`.
pub open spec fn pixel(img: Image, x: int, y: int) -> Channels {
    image_pixels(img)[(x, y)]
}

/// `(x, y)` lies inside the image.
pub open spec fn in_image(img: Image, x: int, y: int) -> bool {
    0 <= x < image_width(img) && 0 <= y < image_height(img)
}

/// Two images have the same size and the same pixels.
pub open spec fn same_image(a: Image, b: Image) -> bool {
    &&& image_width(a) == image_width(b)
    &&& image_height(a) == image_height(b)
    &&& forall|x: int, y: int| #[trigger] in_image(a, x, y) ==> pixel(a, x, y) == pixel(b, x, y)
}

/// Number of bytes that a `width` by `height` RGBA image takes, four per pixel.
pub open spec fn raw_len(width: int, height: int) -> int {
    4 * (width * height)
}

/// The pixel at `(x, y)` of a row-major RGBA byte sequence whose rows are
/// `width` pixels long.
pub open spec fn raw_pixel(data: Seq<u8>, width: int, x: int, y: int) -> Channels {
    let i = 4 * (y * width + x);
    (data[i], data[i + 1], data[i + 2], data[i + 3])
}

/// Relies on `ImageBuffer::from_raw`: it accepts a row-major buffer of at
/// least four bytes per pixel, pixel `(x, y)` taking the four bytes from
/// `4 * (y * width + x)`, and refuses a shorter one.
#[verifier::external_body]
fn from_raw(width: u32, height: u32, data: Vec<u8>) -> (r: Option<Image>)
    ensures
        r is Some <==> raw_len(width as int, height as int) <= data@.len(),
        r matches Some(img) ==> {
            &&& image_width(img) == width
            &&& image_height(img) == height
            &&& forall|x: int, y: int|
                #![trigger image_pixels(img)[(x, y)]]
                0 <= x < width && 0 <= y < height ==> image_pixels(img)[(x, y)] == raw_pixel(
                    data@,
                    width as int,
                    x,
                    y,
                )
        },
{
    image::RgbaImage::from_raw(width, height, data).map(|buf| Image { buf })
}

/// Relies on `ImageBuffer::into_raw`: the buffer that holds the pixels, in
/// the layout that `from_raw` reads.
#[verifier::external_body]
fn into_raw(img: Image) -> (r: Vec<u8>)
    ensures
        raw_len(image_width(img) as int, image_height(img) as int) <= r@.len(),
        forall|x: int, y: int|
            #![trigger image_pixels(img)[(x, y)]]
            0 <= x < image_width(img) && 0 <= y < image_height(img) ==> raw_pixel(
                r@,
                image_width(img) as int,
                x,
                y,
            ) == image_pixels(img)[(x, y)],
{
    img.buf.into_raw()
}

/// Relies on `ImageBuffer::dimensions`: the stored width and height.
#[verifier::external_body]
fn dimensions(img: &Image) -> (r: (u32, u32))
    ensures
        r.0 == image_width(*img),
        r.1 == image_height(*img),
{
    img.buf.dimensions()
}

/// Relies on `ImageBuffer::get_pixel`: the channels of the pixel at `(x, y)`;
/// it panics outside the image.
#[verifier::external_body]
fn get_pixel(img: &Image, x: u32, y: u32) -> (r: Channels)
    requires
        x < image_width(*img),
        y < image_height(*img),
    ensures
        r == image_pixels(*img)[(x as int, y as int)],
{
    let c = img.buf.get_pixel(x, y).0;
    (c[0], c[1], c[2], c[3])
}

/// Relies on `ImageBuffer::put_pixel`: the pixel at `(x, y)` takes the given
/// channels and every other pixel keeps its own; it panics outside the image.
#[verifier::external_body]
fn put_pixel(img: &mut Image, x: u32, y: u32, p: Channels)
    requires
        x < image_width(*old(img)),
        y < image_height(*old(img)),
    ensures
        image_width(*final(img)) == image_width(*old(img)),
        image_height(*final(img)) == image_height(*old(img)),
        image_pixels(*final(img))[(x as int, y as int)] == p,
        forall|i: int, j: int|
            #![trigger image_pixels(*final(img))[(i, j)]]
            in_image(*old(img), i, j) && (i != x || j != y) ==> image_pixels(*final(img))[(i, j)]
                == image_pixels(*old(img))[(i, j)],
{
    img.buf.put_pixel(x, y, image::Rgba([p.0, p.1, p.2, p.3]))
}

/// Relies on `Clone` for `ImageBuffer`: the copy has the size and the pixel
/// data of the image it copies.
#[verifier::external_body]
fn copy_buffer(img: &Image) -> (r: Image)
    ensures
        image_width(r) == image_width(*img),
        image_height(r) == image_height(*img),
        forall|x: int, y: int|
            #![trigger image_pixels(r)[(x, y)]]
            in_image(*img, x, y) ==> image_pixels(r)[(x, y)] == image_pixels(*img)[(x, y)],
{
    Image { buf: img.buf.clone() }
}

impl Image {
    /// An image of `width` by `height` pixels read from a row-major RGBA byte
    /// buffer, four bytes per pixel; `None` where the buffer is too short.
    pub fn from_rgba(width: u32, height: u32, data: Vec<u8>) -> (r: Option<Image>)
        ensures
            r is Some <==> raw_len(width as int, height as int) <= data@.len(),
            r matches Some(img) ==> {
                &&& image_width(img) == width
                &&& image_height(img) == height
                &&& forall|x: int, y: int|
                    0 <= x < width && 0 <= y < height ==> #[trigger] pixel(img, x, y) == raw_pixel(
                        data@,
                        width as int,
                        x,
                        y,
                    )
            },
    {
        from_raw(width, height, data)
    }

    /// The row-major RGBA bytes of the image, four per pixel.
    pub fn into_rgba(self) -> (r: Vec<u8>)
        ensures
            raw_len(image_width(self) as int, image_height(self) as int) <= r@.len(),
            forall|x: int, y: int|
                #[trigger] in_image(self, x, y) ==> raw_pixel(r@, image_width(self) as int, x, y)
                    == pixel(self, x, y),
    {
        into_raw(self)
    }

    /// Width and height of the image.
    pub fn dimensions(&self) -> (r: (u32, u32))
        ensures
            r.0 == image_width(*self),
            r.1 == image_height(*self),
    {
        dimensions(self)
    }

    /// The channels of the pixel at `(x, y)`.
    pub fn get_pixel(&self, x: u32, y: u32) -> (r: Channels)
        requires
            x < image_width(*self),
            y < image_height(*self),
        ensures
            r == pixel(*self, x as int, y as int),
    {
        get_pixel(self, x, y)
    }

    /// Sets the pixel at `(x, y)`; every other pixel keeps its channels.
    pub fn put_pixel(&mut self, x: u32, y: u32, p: Channels)
        requires
            x < image_width(*old(self)),
            y < image_height(*old(self)),
        ensures
            image_width(*final(self)) == image_width(*old(self)),
            image_height(*final(self)) == image_height(*old(self)),
            pixel(*final(self), x as int, y as int) == p,
            forall|i: int, j: int|
                in_image(*old(self), i, j) && (i != x || j != y) ==> #[trigger] pixel(
                    *final(self),
                    i,
                    j,
                ) == pixel(*old(self), i, j),
    {
        put_pixel(self, x, y, p)
    }

    /// A copy of the image, with the same size and pixels.
    pub fn copy(&self) -> (r: Image)
        ensures
            same_image(*self, r),
    {
        let r = copy_buffer(self);
        assert forall|x: int, y: int| #[trigger] in_image(*self, x, y) implies pixel(*self, x, y)
            == pixel(r, x, y) by {
            assert(image_pixels(r)[(x, y)] == image_pixels(*self)[(x, y)]);
        }
        r
    }
}

} // verus!
