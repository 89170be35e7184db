//! Sprites that carry their own centre of projection.
//!
//! The first row and the first column of such a sprite are a ruler: each
//! holds one pixel that differs from the key, the pixel at the origin. The
//! column of the mark on the first row and the row of the mark on the first
//! column are the centre. The picture itself is what is left when the ruler
//! is taken away.

use vstd::prelude::*;
use crate::body::{Body, BoundingBox};
use crate::raster::{Color, Image, ImageView};
use crate::vector::{IVec3, UVec2};

verus! {

/// Why an image cannot be read as a sprite with a centre.
#[derive(Clone, Copy, Debug, PartialEq, Eq, Hash, Structural)]
pub enum FocusError {
    /// The image is narrower or lower than two pixels.
    TooSmall,
    /// The first row or the first column holds no mark.
    MissingMarker,
    /// The first row or the first column holds more than one mark.
    AmbiguousMarker,
}

/// A sprite and the pixel of the source image at which its centre lies.
pub struct FocusImage {
    /// The source image without its first row and its first column.
    pub image: Image,
    /// The centre, in pixels of the source image.
    pub center: UVec2,
    /// The transparent colour: the pixel at the origin of the source image.
    pub key: Color,
}

/// Whether column `x` of the first row holds a mark.
pub open spec fn row_mark(image: ImageView, x: int) -> bool {
    0 <= x < image.width && image.pixel(x, 0) != image.pixel(0, 0)
}

/// Whether row `y` of the first column holds a mark.
pub open spec fn column_mark(image: ImageView, y: int) -> bool {
    0 <= y < image.height && image.pixel(0, y) != image.pixel(0, 0)
}

/// The column of the one mark on the first row, or what is wrong with the
/// row.
pub open spec fn row_center(image: ImageView) -> Result<int, FocusError> {
    if !(exists|x: int| row_mark(image, x)) {
        Err(FocusError::MissingMarker)
    } else if exists|a: int, b: int| a != b && row_mark(image, a) && row_mark(image, b) {
        Err(FocusError::AmbiguousMarker)
    } else {
        Ok(choose|x: int| row_mark(image, x))
    }
}

/// The row of the one mark on the first column, or what is wrong with the
/// column.
pub open spec fn column_center(image: ImageView) -> Result<int, FocusError> {
    if !(exists|y: int| column_mark(image, y)) {
        Err(FocusError::MissingMarker)
    } else if exists|a: int, b: int| a != b && column_mark(image, a) && column_mark(image, b) {
        Err(FocusError::AmbiguousMarker)
    } else {
        Ok(choose|y: int| column_mark(image, y))
    }
}

/// The centre that the ruler of an image gives, or why it gives none. The
/// size is looked at first, then the first row, then the first column.
pub open spec fn focus_center(image: ImageView) -> Result<UVec2, FocusError> {
    if image.width < 2 || image.height < 2 {
        Err(FocusError::TooSmall)
    } else {
        match row_center(image) {
            Err(e) => Err(e),
            Ok(cx) => match column_center(image) {
                Err(e) => Err(e),
                Ok(cy) => Ok(UVec2 { x: cx as u32, y: cy as u32 }),
            },
        }
    }
}

/// Whether `stripped` is `source` without its first row and first column.
pub open spec fn is_stripped(source: ImageView, stripped: ImageView) -> bool {
    &&& stripped.width == source.width - 1
    &&& stripped.height == source.height - 1
    &&& forall|x: int, y: int|
        stripped.contains(x, y) ==> #[trigger] stripped.pixel(x, y) == source.pixel(x + 1, y + 1)
}

fn scan_row(image: &Image) -> (found: Result<u32, FocusError>)
    requires
        image@.width > 0,
        image@.height > 0,
    ensures
        found matches Ok(x) ==> row_center(image@) == Ok::<int, FocusError>(x as int) && x
            < image@.width,
        found matches Err(e) ==> row_center(image@) == Err::<int, FocusError>(e),
{
    let (width, _height) = image.dimensions();
    let key = image.get_pixel(0, 0);
    let mut first: Option<u32> = None;
    let mut x: u32 = 0;
    while x < width
        invariant
            x <= width,
            width == image@.width,
            image@.height > 0,
            key == image@.pixel(0, 0),
            first.is_none() ==> forall|a: int| 0 <= a < x ==> !row_mark(image@, a),
            first matches Some(f) ==> f < x && row_mark(image@, f as int) && forall|a: int|
                0 <= a < x && row_mark(image@, a) ==> a == f,
        decreases width - x,
    {
        if image.get_pixel(x, 0) != key {
            match first {
                Some(f) => {
                    proof {
                        assert(row_mark(image@, f as int) && row_mark(image@, x as int) && f != x);
                    }
                    return Err(FocusError::AmbiguousMarker);
                },
                None => {
                    first = Some(x);
                },
            }
        }
        x += 1;
    }
    match first {
        Some(f) => {
            proof {
                assert(row_mark(image@, f as int));
                let c = choose|c: int| row_mark(image@, c);
                assert(c == f);
            }
            Ok(f)
        },
        None => Err(FocusError::MissingMarker),
    }
}

fn scan_column(image: &Image) -> (found: Result<u32, FocusError>)
    requires
        image@.width > 0,
        image@.height > 0,
    ensures
        found matches Ok(y) ==> column_center(image@) == Ok::<int, FocusError>(y as int) && y
            < image@.height,
        found matches Err(e) ==> column_center(image@) == Err::<int, FocusError>(e),
{
    let (_width, height) = image.dimensions();
    let key = image.get_pixel(0, 0);
    let mut first: Option<u32> = None;
    let mut y: u32 = 0;
    while y < height
        invariant
            y <= height,
            height == image@.height,
            image@.width > 0,
            key == image@.pixel(0, 0),
            first.is_none() ==> forall|a: int| 0 <= a < y ==> !column_mark(image@, a),
            first matches Some(f) ==> f < y && column_mark(image@, f as int) && forall|a: int|
                0 <= a < y && column_mark(image@, a) ==> a == f,
        decreases height - y,
    {
        if image.get_pixel(0, y) != key {
            match first {
                Some(f) => {
                    proof {
                        assert(column_mark(image@, f as int) && column_mark(image@, y as int) && f
                            != y);
                    }
                    return Err(FocusError::AmbiguousMarker);
                },
                None => {
                    first = Some(y);
                },
            }
        }
        y += 1;
    }
    match first {
        Some(f) => {
            proof {
                assert(column_mark(image@, f as int));
                let c = choose|c: int| column_mark(image@, c);
                assert(c == f);
            }
            Ok(f)
        },
        None => Err(FocusError::MissingMarker),
    }
}

fn strip_ruler(source: &Image) -> (stripped: Image)
    requires
        source@.width >= 1,
        source@.height >= 1,
    ensures
        is_stripped(source@, stripped@),
{
    let (width, height) = source.dimensions();
    proof {
        assert(4 * (width - 1) * (height - 1) <= 4 * width * height) by (nonlinear_arith)
            requires
                width >= 1,
                height >= 1,
        ;
    }
    let mut stripped = Image::new(width - 1, height - 1);
    let mut y: u32 = 0;
    while y < height - 1
        invariant
            y <= height - 1,
            width == source@.width,
            height == source@.height,
            width >= 1,
            height >= 1,
            stripped@.width == width - 1,
            stripped@.height == height - 1,
            forall|px: int, py: int|
                stripped@.contains(px, py) && py < y ==> #[trigger] stripped@.pixel(px, py)
                    == source@.pixel(px + 1, py + 1),
        decreases height - 1 - y,
    {
        let mut x: u32 = 0;
        while x < width - 1
            invariant
                y < height - 1,
                x <= width - 1,
                width == source@.width,
                height == source@.height,
                width >= 1,
                height >= 1,
                stripped@.width == width - 1,
                stripped@.height == height - 1,
                forall|px: int, py: int|
                    stripped@.contains(px, py) && (py < y || (py == y && px < x))
                        ==> #[trigger] stripped@.pixel(px, py) == source@.pixel(px + 1, py + 1),
            decreases width - 1 - x,
        {
            let ghost before = stripped@;
            let color = source.get_pixel(x + 1, y + 1);
            stripped.put_pixel(x, y, color);
            proof {
                assert forall|px: int, py: int|
                    stripped@.contains(px, py) && (py < y || (py == y && px < x + 1))
                        implies #[trigger] stripped@.pixel(px, py) == source@.pixel(
                    px + 1,
                    py + 1,
                ) by {
                    if px == x && py == y {
                    } else {
                        assert(stripped@.pixel(px, py) == before.pixel(px, py));
                    }
                }
            }
            x += 1;
        }
        y += 1;
    }
    stripped
}

impl FocusImage {
    /// Reads the centre off the ruler of `source` and keeps the picture
    /// without the ruler.
    pub fn new(source: &Image) -> (focus: Result<FocusImage, FocusError>)
        ensures
            match focus {
                Ok(f) => focus_center(source@) == Ok::<UVec2, FocusError>(f.center) && f.key
                    == source@.pixel(0, 0) && is_stripped(source@, f.image@),
                Err(e) => focus_center(source@) == Err::<UVec2, FocusError>(e),
            },
    {
        let (width, height) = source.dimensions();
        if width < 2 || height < 2 {
            return Err(FocusError::TooSmall);
        }
        let cx: u32 = match scan_row(source) {
            Ok(x) => x,
            Err(e) => {
                return Err(e);
            },
        };
        let cy: u32 = match scan_column(source) {
            Ok(y) => y,
            Err(e) => {
                return Err(e);
            },
        };
        Ok(
            FocusImage {
                image: strip_ruler(source),
                center: UVec2 { x: cx, y: cy },
                key: source.get_pixel(0, 0),
            },
        )
    }

    /// What the sprite shows at `x` across and `y` down from its centre:
    /// the pixel of the source image at the centre moved by `(x, y)`,
    /// unless that pixel is off the picture, on the ruler, or transparent.
    pub open spec fn lookup_spec(&self, x: int, y: int) -> Option<Color> {
        let px = x + self.center.x - 1;
        let py = y + self.center.y - 1;
        if self.image@.contains(px, py) && self.image@.pixel(px, py) != self.key {
            Some(self.image@.pixel(px, py))
        } else {
            None
        }
    }

    /// Looks up the sprite at `x` across and `y` down from its centre.
    pub fn lookup(&self, x: i64, y: i64) -> (color: Option<Color>)
        ensures
            color == self.lookup_spec(x as int, y as int),
    {
        let (width, height) = self.image.dimensions();
        let reach: i64 = 0x100_0000_0000;
        if x < -reach || x > reach || y < -reach || y > reach {
            return None;
        }
        let px: i64 = x + self.center.x as i64 - 1;
        let py: i64 = y + self.center.y as i64 - 1;
        if px < 0 || px >= width as i64 || py < 0 || py >= height as i64 {
            return None;
        }
        let color = self.image.get_pixel(px as u32, py as u32);
        if color == self.key {
            None
        } else {
            Some(color)
        }
    }
}

impl Body for FocusImage {
    type Value = Color;

    /// A sprite is flat: what it holds at a cell depends on the first two
    /// coordinates only.
    open spec fn sample_spec(&self, pos: IVec3) -> Option<Color> {
        self.lookup_spec(pos.x as int, pos.y as int)
    }

    /// A sprite reports no extent.
    open spec fn bounds(&self) -> BoundingBox {
        BoundingBox::empty()
    }

    fn sample(&self, pos: IVec3) -> (value: Option<Color>) {
        self.lookup(pos.x as i64, pos.y as i64)
    }

    fn bounding_box(&self) -> (bounds: BoundingBox) {
        BoundingBox::default()
    }
}

/// An image of at least two by two pixels whose first row holds its one
/// mark at column `cx` and whose first column holds its one mark at row
/// `cy` has its centre at `(cx, cy)`.
pub proof fn lemma_center_at_marks(image: ImageView, cx: int, cy: int)
    requires
        image.width >= 2,
        image.height >= 2,
        row_mark(image, cx),
        column_mark(image, cy),
        forall|x: int| row_mark(image, x) ==> x == cx,
        forall|y: int| column_mark(image, y) ==> y == cy,
    ensures
        focus_center(image) == Ok::<UVec2, FocusError>(UVec2 { x: cx as u32, y: cy as u32 }),
{
    let x = choose|x: int| row_mark(image, x);
    let y = choose|y: int| column_mark(image, y);
    assert(x == cx);
    assert(y == cy);
}

} // verus!
