//! Raster images of RGBA pixels, held in the `image` crate's buffer.

use vstd::prelude::*;

verus! {

/// One pixel: red, green, blue and alpha.
#[derive(Clone, Copy, Debug, PartialEq, Eq, Hash, Structural)]
pub struct Color {
    pub r: u8,
    pub g: u8,
    pub b: u8,
    pub a: u8,
}

/// A raster image. The pixels live in an `image::ImageBuffer` of
/// `Rgba<u8>` over a `Vec<u8>`, which the verifier does not look into: what
/// it knows of an image is its view.
#[verifier::external_body]
pub struct Image {
    buffer: image::ImageBuffer<image::Rgba<u8>, Vec<u8>>,
}

/// The number of pixel columns of the buffer.
pub uninterp spec fn image_width(image: Image) -> nat;

/// The number of pixel rows of the buffer.
pub uninterp spec fn image_height(image: Image) -> nat;

/// The pixels of the buffer, by column and row.
pub uninterp spec fn image_pixels(image: Image) -> Map<(int, int), Color>;

/// What an image holds.
pub ghost struct ImageView {
    pub width: nat,
    pub height: nat,
    pub pixels: Map<(int, int), Color>,
}

impl ImageView {
    /// Whether column `x`, row `y` lies on the image.
    pub open spec fn contains(self, x: int, y: int) -> bool {
        0 <= x < self.width && 0 <= y < self.height
    }

    /// The pixel at column `x`, row `y`.
    pub open spec fn pixel(self, x: int, y: int) -> Color {
        self.pixels[(x, y)]
    }

    /// The pixel at column `x`, row `y`, or `fallback` off the image.
    pub open spec fn pixel_or(self, x: int, y: int, fallback: Color) -> Color {
        if self.contains(x, y) {
            self.pixel(x, y)
        } else {
            fallback
        }
    }
}

impl View for Image {
    type V = ImageView;

    open spec fn view(&self) -> ImageView {
        ImageView {
            width: image_width(*self),
            height: image_height(*self),
            pixels: image_pixels(*self),
        }
    }
}

/// The pixel that a fresh image is filled with: all parts zero.
pub open spec fn blank() -> Color {
    Color { r: 0, g: 0, b: 0, a: 0 }
}

/// Whether an image of these dimensions can be allocated: four bytes a
/// pixel, and no more bytes than a vector can hold.
pub open spec fn fits_memory(width: int, height: int) -> bool {
    4 * width * height <= isize::MAX
}

/// `ImageBuffer::new`: allocates a buffer of the given dimensions with every
/// channel zero. It panics when the byte count overflows `usize` or is more
/// than a vector can hold, which the precondition leaves out.
#[verifier::external_body]
fn buffer_new(width: u32, height: u32) -> (image: Image)
    requires
        fits_memory(width as int, height as int),
    ensures
        image_width(image) == width,
        image_height(image) == height,
        forall|x: int, y: int|
            0 <= x < width && 0 <= y < height ==> #[trigger] image_pixels(image)[(x, y)]
                == blank(),
{
    Image { buffer: image::ImageBuffer::new(width, height) }
}

/// `ImageBuffer::dimensions`: the width and the height. Every constructor of
/// the buffer checks that four bytes a pixel fit in its vector, so that
/// holds of the dimensions of any buffer.
#[verifier::external_body]
fn buffer_dimensions(image: &Image) -> (d: (u32, u32))
    ensures
        d.0 == image_width(*image),
        d.1 == image_height(*image),
        fits_memory(d.0 as int, d.1 as int),
{
    image.buffer.dimensions()
}

/// `ImageBuffer::get_pixel`: the pixel at column `x`, row `y`. It panics off
/// the image, which the precondition leaves out.
#[verifier::external_body]
fn buffer_get_pixel(image: &Image, x: u32, y: u32) -> (color: Color)
    requires
        x < image_width(*image),
        y < image_height(*image),
    ensures
        color == image_pixels(*image)[(x as int, y as int)],
{
    let p = image.buffer.get_pixel(x, y);
    Color { r: p.0[0], g: p.0[1], b: p.0[2], a: p.0[3] }
}

/// `ImageBuffer::put_pixel`: overwrites the pixel at column `x`, row `y` and
/// leaves the rest as it was. It panics off the image, which the
/// precondition leaves out.
#[verifier::external_body]
fn buffer_put_pixel(image: &mut Image, x: u32, y: u32, color: Color)
    requires
        x < image_width(*old(image)),
        y < image_height(*old(image)),
    ensures
        image_width(*final(image)) == image_width(*old(image)),
        image_height(*final(image)) == image_height(*old(image)),
        image_pixels(*final(image)) == image_pixels(*old(image)).insert(
            (x as int, y as int),
            color,
        ),
{
    image.buffer.put_pixel(x, y, image::Rgba([color.r, color.g, color.b, color.a]));
}

/// Tells whether an image of these dimensions can be allocated.
pub fn fits(width: u32, height: u32) -> (ok: bool)
    ensures
        ok == fits_memory(width as int, height as int),
{
    proof {
        assert(width * height <= 0xffff_ffff * 0xffff_ffff) by (nonlinear_arith)
            requires
                width <= 0xffff_ffff,
                height <= 0xffff_ffff,
        ;
        assert(4 * width * height == 4 * (width * height)) by (nonlinear_arith);
    }
    let bytes: u128 = 4 * (width as u128 * height as u128);
    bytes <= isize::MAX as u128
}

impl Image {
    /// A blank image of the given dimensions.
    pub fn new(width: u32, height: u32) -> (image: Image)
        requires
            fits_memory(width as int, height as int),
        ensures
            image@.width == width,
            image@.height == height,
            forall|x: int, y: int| image@.contains(x, y) ==> #[trigger] image@.pixel(x, y) == blank(),
    {
        buffer_new(width, height)
    }

    /// The width and the height.
    pub fn dimensions(&self) -> (d: (u32, u32))
        ensures
            d.0 == self@.width,
            d.1 == self@.height,
            fits_memory(d.0 as int, d.1 as int),
    {
        buffer_dimensions(self)
    }

    /// The number of pixel columns.
    pub fn width(&self) -> (w: u32)
        ensures
            w == self@.width,
    {
        buffer_dimensions(self).0
    }

    /// The number of pixel rows.
    pub fn height(&self) -> (h: u32)
        ensures
            h == self@.height,
    {
        buffer_dimensions(self).1
    }

    /// The pixel at column `x`, row `y` of the image.
    pub fn get_pixel(&self, x: u32, y: u32) -> (color: Color)
        requires
            self@.contains(x as int, y as int),
        ensures
            color == self@.pixel(x as int, y as int),
    {
        buffer_get_pixel(self, x, y)
    }

    /// The pixel at column `x`, row `y`, or nothing off the image.
    pub fn get_pixel_checked(&self, x: u32, y: u32) -> (color: Option<Color>)
        ensures
            color == if self@.contains(x as int, y as int) {
                Some(self@.pixel(x as int, y as int))
            } else {
                None
            },
    {
        let (width, height) = buffer_dimensions(self);
        if x < width && y < height {
            Some(buffer_get_pixel(self, x, y))
        } else {
            None
        }
    }

    /// Overwrites the pixel at column `x`, row `y`.
    pub fn put_pixel(&mut self, x: u32, y: u32, color: Color)
        requires
            old(self)@.contains(x as int, y as int),
        ensures
            final(self)@.width == old(self)@.width,
            final(self)@.height == old(self)@.height,
            final(self)@.pixels == old(self)@.pixels.insert((x as int, y as int), color),
    {
        buffer_put_pixel(self, x, y, color);
    }
}

/// The colour of the outline that sprites are drawn with: opaque black.
pub open spec fn outline_color() -> Color {
    Color { r: 0, g: 0, b: 0, a: 255 }
}

/// Whether the pixel at column `x`, row `y` belongs to the outline that is
/// cleared: it has the outline colour, and on one of its four sides lies
/// the key colour or the edge of the image. The key is the pixel at the
/// origin.
pub open spec fn is_outline(image: ImageView, x: int, y: int) -> bool {
    let key = image.pixel(0, 0);
    &&& image.contains(x, y)
    &&& image.pixel(x, y) == outline_color()
    &&& (image.pixel_or(x - 1, y, key) == key || image.pixel_or(x + 1, y, key) == key
        || image.pixel_or(x, y - 1, key) == key || image.pixel_or(x, y + 1, key) == key)
}

/// What outline clearing leaves at column `x`, row `y` of an image: the key
/// colour in place of the outline, and every other pixel as it was. Every
/// pixel is judged by its neighbours as they were found, so one layer of
/// the outline goes and no more.
pub open spec fn cleared_pixel(image: ImageView, x: int, y: int) -> Color {
    if is_outline(image, x, y) {
        image.pixel(0, 0)
    } else {
        image.pixel(x, y)
    }
}

/// Whether the pixel at column `x`, row `y` comes before the pixel at
/// column `nx`, row `ny` when rows are gone through from the top, each from
/// the left.
pub open spec fn raster_before(x: int, y: int, nx: int, ny: int) -> bool {
    y < ny || (y == ny && x < nx)
}

/// Whether a list of places holds column `x`, row `y`.
pub open spec fn holds_place(places: Seq<(u32, u32)>, x: int, y: int) -> bool {
    exists|i: int| 0 <= i < places.len() && (#[trigger] places[i]).0 == x && places[i].1 == y
}

fn pixel_or_key(image: &Image, x: i64, y: i64, key: Color) -> (color: Color)
    ensures
        color == image@.pixel_or(x as int, y as int, key),
{
    let (width, height) = buffer_dimensions(image);
    if 0 <= x && x < width as i64 && 0 <= y && y < height as i64 {
        buffer_get_pixel(image, x as u32, y as u32)
    } else {
        key
    }
}

/// Finds the outline of an image: the places of its pixels that are to be
/// cleared, row by row.
fn find_outline(image: &Image) -> (places: Vec<(u32, u32)>)
    requires
        image@.width > 0,
        image@.height > 0,
    ensures
        forall|i: int|
            0 <= i < places.len() ==> is_outline(
                image@,
                (#[trigger] places[i]).0 as int,
                places[i].1 as int,
            ),
        forall|x: int, y: int| is_outline(image@, x, y) ==> #[trigger] holds_place(places@, x, y),
{
    let (width, height) = buffer_dimensions(image);
    let color_key = buffer_get_pixel(image, 0, 0);
    let outline = Color { r: 0, g: 0, b: 0, a: 255 };
    let mut places: Vec<(u32, u32)> = Vec::new();
    let mut y: u32 = 0;
    while y < height
        invariant
            y <= height,
            image@.width == width,
            image@.height == height,
            width > 0,
            height > 0,
            color_key == image@.pixel(0, 0),
            outline == outline_color(),
            forall|i: int|
                0 <= i < places.len() ==> is_outline(
                    image@,
                    (#[trigger] places[i]).0 as int,
                    places[i].1 as int,
                ),
            forall|px: int, py: int|
                is_outline(image@, px, py) && py < y ==> #[trigger] holds_place(places@, px, py),
        decreases height - y,
    {
        let mut x: u32 = 0;
        while x < width
            invariant
                y < height,
                x <= width,
                image@.width == width,
                image@.height == height,
                color_key == image@.pixel(0, 0),
                outline == outline_color(),
                forall|i: int|
                    0 <= i < places.len() ==> is_outline(
                        image@,
                        (#[trigger] places[i]).0 as int,
                        places[i].1 as int,
                    ),
                forall|px: int, py: int|
                    is_outline(image@, px, py) && raster_before(px, py, x as int, y as int)
                        ==> #[trigger] holds_place(places@, px, py),
            decreases width - x,
        {
            let here = buffer_get_pixel(image, x, y);
            let left = pixel_or_key(image, x as i64 - 1, y as i64, color_key);
            let right = pixel_or_key(image, x as i64 + 1, y as i64, color_key);
            let up = pixel_or_key(image, x as i64, y as i64 - 1, color_key);
            let down = pixel_or_key(image, x as i64, y as i64 + 1, color_key);
            let ghost before = places@;
            if here == outline && (left == color_key || right == color_key || up == color_key
                || down == color_key) {
                places.push((x, y));
                proof {
                    assert(places@[before.len() as int] == (x, y));
                    assert(holds_place(places@, x as int, y as int));
                }
            }
            proof {
                assert(here == image@.pixel(x as int, y as int));
                assert forall|px: int, py: int|
                    is_outline(image@, px, py) && raster_before(
                        px,
                        py,
                        x + 1,
                        y as int,
                    ) implies #[trigger] holds_place(places@, px, py) by {
                    if px == x && py == y {
                    } else {
                        assert(raster_before(px, py, x as int, y as int));
                        assert(holds_place(before, px, py));
                        let i = choose|i: int|
                            0 <= i < before.len() && (#[trigger] before[i]).0 == px && before[i].1
                                == py;
                        assert(places@[i] == before[i]);
                    }
                }
            }
            x += 1;
        }
        y += 1;
    }
    places
}

/// Removes the black outline of a sprite: every pixel of the outline colour
/// that touches transparency or the edge of the image on one of its four
/// sides becomes transparent. The transparent colour is the one found at
/// the origin. One layer is taken off: a pixel that is laid bare by the
/// clearing of its neighbour stays.
pub fn clear_outline(image: &mut Image)
    requires
        old(image)@.width > 0,
        old(image)@.height > 0,
    ensures
        final(image)@.width == old(image)@.width,
        final(image)@.height == old(image)@.height,
        forall|x: int, y: int|
            old(image)@.contains(x, y) ==> #[trigger] final(image)@.pixel(x, y) == cleared_pixel(
                old(image)@,
                x,
                y,
            ),
{
    let ghost before = image@;
    let color_key = buffer_get_pixel(image, 0, 0);
    let places = find_outline(image);
    let mut i: usize = 0;
    while i < places.len()
        invariant
            i <= places.len(),
            image@.width == before.width,
            image@.height == before.height,
            color_key == before.pixel(0, 0),
            forall|j: int|
                0 <= j < places.len() ==> is_outline(
                    before,
                    (#[trigger] places[j]).0 as int,
                    places[j].1 as int,
                ),
            forall|x: int, y: int|
                before.contains(x, y) ==> #[trigger] image@.pixel(x, y) == if holds_place(
                    places@.subrange(0, i as int),
                    x,
                    y,
                ) {
                    color_key
                } else {
                    before.pixel(x, y)
                },
        decreases places.len() - i,
    {
        let (x, y) = places[i];
        let ghost current = image@;
        let ghost done = places@.subrange(0, i as int);
        let ghost more = places@.subrange(0, i + 1);
        proof {
            assert(is_outline(before, places[i as int].0 as int, places[i as int].1 as int));
        }
        buffer_put_pixel(image, x, y, color_key);
        proof {
            assert(more[i as int] == (x, y));
            assert forall|px: int, py: int| before.contains(px, py) implies #[trigger] image@.pixel(
                px,
                py,
            ) == if holds_place(more, px, py) {
                color_key
            } else {
                before.pixel(px, py)
            } by {
                if px == x && py == y {
                    assert(holds_place(more, px, py));
                } else {
                    assert(image@.pixel(px, py) == current.pixel(px, py));
                    if holds_place(done, px, py) {
                        let j = choose|j: int|
                            0 <= j < done.len() && (#[trigger] done[j]).0 == px && done[j].1 == py;
                        assert(more[j] == done[j]);
                    }
                    if holds_place(more, px, py) {
                        let j = choose|j: int|
                            0 <= j < more.len() && (#[trigger] more[j]).0 == px && more[j].1 == py;
                        assert(j < i);
                        assert(done[j] == more[j]);
                    }
                }
            }
        }
        i += 1;
    }
    proof {
        assert(places@.subrange(0, places.len() as int) == places@);
        assert forall|x: int, y: int| before.contains(x, y) implies #[trigger] image@.pixel(x, y)
            == cleared_pixel(before, x, y) by {
            if holds_place(places@, x, y) {
                let j = choose|j: int|
                    0 <= j < places.len() && (#[trigger] places[j]).0 == x && places[j].1 == y;
                assert(is_outline(before, places[j].0 as int, places[j].1 as int));
            }
        }
    }
}

} // verus!
