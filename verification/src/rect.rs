//! Rectangles of pixels, and the mapping between a rectangle and the unit
//! square.

use vstd::prelude::*;
use crate::raster::{Image, ImageView};
use crate::vector::{clamp_i32, floor_div, floor_ratio, lemma_product_bound, saturate, IVec2};

verus! {

/// A rectangle of pixels: `min` is its first pixel, `max` the pixel after
/// its last along each axis.
#[derive(Clone, Copy, Debug, PartialEq, Eq, Hash, Structural)]
pub struct Rect {
    pub min: IVec2,
    pub max: IVec2,
}

/// The componentwise minimum of the points, or the largest point of all
/// where there are none.
pub open spec fn lowest(points: Seq<IVec2>) -> IVec2
    decreases points.len(),
{
    if points.len() == 0 {
        IVec2 { x: i32::MAX, y: i32::MAX }
    } else {
        lowest(points.drop_last()).min_spec(points.last())
    }
}

/// The componentwise maximum of the points, or the smallest point of all
/// where there are none.
pub open spec fn highest(points: Seq<IVec2>) -> IVec2
    decreases points.len(),
{
    if points.len() == 0 {
        IVec2 { x: i32::MIN, y: i32::MIN }
    } else {
        highest(points.drop_last()).max_spec(points.last())
    }
}

/// Whether the pixel at column `x`, row `y` of an image differs from the
/// key, the pixel at the origin.
pub open spec fn is_marked(image: ImageView, x: int, y: int) -> bool {
    image.contains(x, y) && image.pixel(x, y) != image.pixel(0, 0)
}

/// Whether an image has a pixel that differs from the key.
pub open spec fn has_marks(image: ImageView) -> bool {
    exists|x: int, y: int| is_marked(image, x, y)
}

/// Whether `rect` is the tight rectangle of the pixels of an image that
/// differ from the key: it holds them all, and each of its sides holds one.
pub open spec fn frames_marks(image: ImageView, rect: Rect) -> bool {
    &&& forall|x: int, y: int| #[trigger]
        is_marked(image, x, y) ==> rect.min.x <= x < rect.max.x && rect.min.y <= y < rect.max.y
    &&& exists|x: int, y: int| #[trigger] is_marked(image, x, y) && x == rect.min.x
    &&& exists|x: int, y: int| #[trigger] is_marked(image, x, y) && y == rect.min.y
    &&& exists|x: int, y: int| #[trigger] is_marked(image, x, y) && x == rect.max.x - 1
    &&& exists|x: int, y: int| #[trigger] is_marked(image, x, y) && y == rect.max.y - 1
}

/// The tight rectangle of the pixels of an image that differ from the key,
/// or the rectangle that holds nothing where no pixel does.
pub open spec fn mark_frame(image: ImageView) -> Rect {
    if has_marks(image) {
        choose|rect: Rect| frames_marks(image, rect)
    } else {
        Rect::nothing()
    }
}

/// An image has at most one tight rectangle of marks.
pub proof fn lemma_frame_unique(image: ImageView, a: Rect, b: Rect)
    requires
        frames_marks(image, a),
        frames_marks(image, b),
    ensures
        a == b,
{
    assert(a.min.x == b.min.x);
    assert(a.min.y == b.min.y);
    assert(a.max.x == b.max.x);
    assert(a.max.y == b.max.y);
}

/// A part of a whole: the value `num / den`, with `den` above zero.
#[derive(Clone, Copy, Debug, PartialEq, Eq, Hash)]
pub struct Fraction {
    num: i64,
    den: i64,
}

/// A point of the plane given by two fractions.
#[derive(Clone, Copy, Debug, PartialEq, Eq, Hash)]
pub struct Vec2 {
    pub x: Fraction,
    pub y: Fraction,
}

impl Fraction {
    #[verifier::type_invariant]
    spec fn well_formed(self) -> bool {
        &&& 0 < self.den <= 0x1_0000_0000
        &&& -0x1_0000_0000 <= self.num <= 0x1_0000_0000
    }

    /// The numerator.
    pub closed spec fn num_spec(self) -> int {
        self.num as int
    }

    /// The denominator; above zero.
    pub closed spec fn den_spec(self) -> int {
        self.den as int
    }

    /// The fraction `num / den` with a denominator above zero, or nothing
    /// for a denominator of zero.
    pub open spec fn of(num: int, den: int) -> Option<(int, int)> {
        if den > 0 {
            Some((num, den))
        } else if den < 0 {
            Some((-num, -den))
        } else {
            None
        }
    }

    /// The fraction `num / den`, or nothing for a denominator of zero.
    pub fn new(num: i32, den: i32) -> (f: Option<Fraction>)
        ensures
            match f {
                Some(f) => Fraction::of(num as int, den as int) == Some(
                    (f.num_spec(), f.den_spec()),
                ),
                None => den == 0,
            },
    {
        Fraction::from_wide(num as i64, den as i64)
    }

    fn from_wide(num: i64, den: i64) -> (f: Option<Fraction>)
        requires
            -0x1_0000_0000 <= num <= 0x1_0000_0000,
            -0x1_0000_0000 <= den <= 0x1_0000_0000,
        ensures
            match f {
                Some(f) => Fraction::of(num as int, den as int) == Some(
                    (f.num_spec(), f.den_spec()),
                ),
                None => den == 0,
            },
    {
        if den > 0 {
            Some(Fraction { num, den })
        } else if den < 0 {
            Some(Fraction { num: -num, den: -den })
        } else {
            None
        }
    }

    /// The numerator.
    pub fn num(&self) -> (n: i64)
        ensures
            n == self.num_spec(),
    {
        self.num
    }

    /// The denominator.
    pub fn den(&self) -> (d: i64)
        ensures
            d == self.den_spec(),
            d > 0,
    {
        proof {
            use_type_invariant(self);
        }
        self.den
    }

    /// The largest whole number that is at most `self` times `factor`.
    pub open spec fn floor_times_spec(self, factor: int) -> int {
        floor_div(self.num_spec() * factor, self.den_spec())
    }

    fn floor_times(&self, factor: i64) -> (r: i128)
        requires
            -0x1_0000_0000 <= factor <= 0x1_0000_0000,
        ensures
            r == self.floor_times_spec(factor as int),
    {
        proof {
            use_type_invariant(self);
            lemma_product_bound(self.num as int, factor as int, 0x1_0000_0000, 0x1_0000_0000);
        }
        floor_ratio(self.num as i128 * factor as i128, self.den as i128)
    }
}

impl Rect {
    /// The rectangle from `min` up to, and without, `max`.
    pub fn new(min: IVec2, max: IVec2) -> (rect: Rect)
        ensures
            rect == (Rect { min, max }),
    {
        Rect { min, max }
    }

    /// Whether `pos` lies in the rectangle.
    pub open spec fn contains_spec(self, pos: IVec2) -> bool {
        self.min.x <= pos.x < self.max.x && self.min.y <= pos.y < self.max.y
    }

    /// The rectangle around a set of points: from their componentwise
    /// minimum to one past their componentwise maximum.
    pub open spec fn around(points: Seq<IVec2>) -> Rect {
        Rect {
            min: lowest(points),
            max: IVec2 { x: (highest(points).x + 1) as i32, y: (highest(points).y + 1) as i32 },
        }
    }

    /// The smallest rectangle that holds all the points. Without points it
    /// is the rectangle from the largest point of all to one past the
    /// smallest, which holds nothing.
    pub fn from_points(points: &Vec<IVec2>) -> (rect: Rect)
        requires
            forall|i: int|
                0 <= i < points.len() ==> (#[trigger] points[i]).x < i32::MAX && points[i].y
                    < i32::MAX,
        ensures
            rect == Rect::around(points@),
            forall|i: int| 0 <= i < points.len() ==> rect.contains_spec(#[trigger] points[i]),
    {
        let mut min = IVec2 { x: i32::MAX, y: i32::MAX };
        let mut max = IVec2 { x: i32::MIN, y: i32::MIN };
        let mut i: usize = 0;
        while i < points.len()
            invariant
                i <= points.len(),
                min == lowest(points@.subrange(0, i as int)),
                max == highest(points@.subrange(0, i as int)),
                forall|j: int|
                    0 <= j < i ==> min.x <= (#[trigger] points[j]).x <= max.x && min.y
                        <= points[j].y <= max.y,
                forall|j: int|
                    0 <= j < points.len() ==> (#[trigger] points[j]).x < i32::MAX && points[j].y
                        < i32::MAX,
                max.x < i32::MAX,
                max.y < i32::MAX,
            decreases points.len() - i,
        {
            proof {
                let more = points@.subrange(0, i + 1);
                assert(more.drop_last() == points@.subrange(0, i as int));
                assert(more.last() == points[i as int]);
            }
            min = min.min(points[i]);
            max = max.max(points[i]);
            i += 1;
        }
        proof {
            assert(points@.subrange(0, points.len() as int) == points@);
        }
        Rect { min, max: IVec2 { x: max.x + 1, y: max.y + 1 } }
    }

    /// The rectangle that holds nothing: what `from_points` makes of no
    /// points.
    pub open spec fn nothing() -> Rect {
        Rect {
            min: IVec2 { x: i32::MAX, y: i32::MAX },
            max: IVec2 { x: (i32::MIN + 1) as i32, y: (i32::MIN + 1) as i32 },
        }
    }

    /// The smallest rectangle that holds every pixel of the image that
    /// differs from the key, the pixel at the origin.
    pub fn from_image(image: &Image) -> (rect: Rect)
        requires
            0 < image@.width <= i32::MAX,
            0 < image@.height <= i32::MAX,
        ensures
            rect == mark_frame(image@),
            has_marks(image@) ==> frames_marks(image@, rect),
            !has_marks(image@) ==> rect == Rect::nothing(),
    {
        let (width, height) = image.dimensions();
        let color_key = image.get_pixel(0, 0);
        let mut min = IVec2 { x: i32::MAX, y: i32::MAX };
        let mut max = IVec2 { x: i32::MIN, y: i32::MIN };
        let ghost mut found = false;
        let ghost mut at_min_x = (0int, 0int);
        let ghost mut at_min_y = (0int, 0int);
        let ghost mut at_max_x = (0int, 0int);
        let ghost mut at_max_y = (0int, 0int);
        let mut y: u32 = 0;
        while y < height
            invariant
                y <= height,
                width == image@.width,
                height == image@.height,
                0 < width <= i32::MAX,
                0 < height <= i32::MAX,
                color_key == image@.pixel(0, 0),
                forall|px: int, py: int| #[trigger]
                    is_marked(image@, px, py) && py < y ==> min.x <= px <= max.x && min.y <= py
                        <= max.y,
                !found ==> min == (IVec2 { x: i32::MAX, y: i32::MAX }) && max == (IVec2 {
                    x: i32::MIN,
                    y: i32::MIN,
                }),
                !found ==> forall|px: int, py: int| #[trigger]
                    is_marked(image@, px, py) ==> py >= y,
                found ==> is_marked(image@, at_min_x.0, at_min_x.1) && at_min_x.0 == min.x,
                found ==> is_marked(image@, at_min_y.0, at_min_y.1) && at_min_y.1 == min.y,
                found ==> is_marked(image@, at_max_x.0, at_max_x.1) && at_max_x.0 == max.x,
                found ==> is_marked(image@, at_max_y.0, at_max_y.1) && at_max_y.1 == max.y,
                max.x < i32::MAX,
                max.y < i32::MAX,
            decreases height - y,
        {
            let mut x: u32 = 0;
            while x < width
                invariant
                    y < height,
                    x <= width,
                    width == image@.width,
                    height == image@.height,
                    0 < width <= i32::MAX,
                    0 < height <= i32::MAX,
                    color_key == image@.pixel(0, 0),
                    forall|px: int, py: int| #[trigger]
                        is_marked(image@, px, py) && (py < y || (py == y && px < x)) ==> min.x
                            <= px <= max.x && min.y <= py <= max.y,
                    !found ==> min == (IVec2 { x: i32::MAX, y: i32::MAX }) && max == (IVec2 {
                        x: i32::MIN,
                        y: i32::MIN,
                    }),
                    !found ==> forall|px: int, py: int| #[trigger]
                        is_marked(image@, px, py) ==> py > y || (py == y && px >= x),
                    found ==> is_marked(image@, at_min_x.0, at_min_x.1) && at_min_x.0 == min.x,
                    found ==> is_marked(image@, at_min_y.0, at_min_y.1) && at_min_y.1 == min.y,
                    found ==> is_marked(image@, at_max_x.0, at_max_x.1) && at_max_x.0 == max.x,
                    found ==> is_marked(image@, at_max_y.0, at_max_y.1) && at_max_y.1 == max.y,
                    max.x < i32::MAX,
                    max.y < i32::MAX,
                decreases width - x,
            {
                let pixel = image.get_pixel(x, y);
                if pixel != color_key {
                    let p = IVec2 { x: x as i32, y: y as i32 };
                    proof {
                        assert(is_marked(image@, x as int, y as int));
                        if !found || p.x < min.x {
                            at_min_x = (x as int, y as int);
                        }
                        if !found || p.y < min.y {
                            at_min_y = (x as int, y as int);
                        }
                        if !found || p.x > max.x {
                            at_max_x = (x as int, y as int);
                        }
                        if !found || p.y > max.y {
                            at_max_y = (x as int, y as int);
                        }
                        found = true;
                    }
                    min = min.min(p);
                    max = max.max(p);
                }
                x += 1;
            }
            y += 1;
        }
        let rect = Rect { min, max: IVec2 { x: max.x + 1, y: max.y + 1 } };
        proof {
            if found {
                assert(is_marked(image@, at_min_x.0, at_min_x.1) && at_min_x.0 == rect.min.x);
                assert(is_marked(image@, at_min_y.0, at_min_y.1) && at_min_y.1 == rect.min.y);
                assert(is_marked(image@, at_max_x.0, at_max_x.1) && at_max_x.0 == rect.max.x - 1);
                assert(is_marked(image@, at_max_y.0, at_max_y.1) && at_max_y.1 == rect.max.y - 1);
                assert(has_marks(image@));
                assert(frames_marks(image@, rect));
                lemma_frame_unique(image@, rect, mark_frame(image@));
            } else {
                assert forall|px: int, py: int| !is_marked(image@, px, py) by {
                    if is_marked(image@, px, py) {
                        assert(py >= height);
                    }
                }
            }
        }
        rect
    }

    /// The place of `pos` in the rectangle as a part of its width and a
    /// part of its height, or nothing for a rectangle without width or
    /// without height.
    pub open spec fn normalize_spec(self, pos: IVec2) -> Option<((int, int), (int, int))> {
        match (
            Fraction::of(pos.x - self.min.x, self.max.x - self.min.x),
            Fraction::of(pos.y - self.min.y, self.max.y - self.min.y),
        ) {
            (Some(x), Some(y)) => Some((x, y)),
            _ => None,
        }
    }

    /// Maps a point of the rectangle to the unit square: the first pixel
    /// goes to zero, and the pixel after the last would go to one.
    pub fn normalize(&self, pos: IVec2) -> (uv: Option<Vec2>)
        ensures
            match uv {
                Some(uv) => self.normalize_spec(pos) == Some(
                    ((uv.x.num_spec(), uv.x.den_spec()), (uv.y.num_spec(), uv.y.den_spec())),
                ),
                None => self.normalize_spec(pos).is_none(),
            },
    {
        let x = Fraction::from_wide(
            pos.x as i64 - self.min.x as i64,
            self.max.x as i64 - self.min.x as i64,
        );
        let y = Fraction::from_wide(
            pos.y as i64 - self.min.y as i64,
            self.max.y as i64 - self.min.y as i64,
        );
        match (x, y) {
            (Some(x), Some(y)) => Some(Vec2 { x, y }),
            _ => None,
        }
    }

    /// One coordinate of the pixel at part `num / den` of the way from
    /// `min` to `max`: the part of the extent is rounded down, and a value
    /// that `i32` cannot hold is replaced by the nearest that it can.
    pub open spec fn denormalize_axis(min: int, max: int, num: int, den: int) -> i32 {
        clamp_i32(min + clamp_i32(floor_div(num * (max - min), den)))
    }

    /// Maps a point of the unit square to the pixel of the rectangle that
    /// holds it.
    pub fn denormalize(&self, uv: Vec2) -> (pos: IVec2)
        ensures
            pos.x == Rect::denormalize_axis(
                self.min.x as int,
                self.max.x as int,
                uv.x.num_spec(),
                uv.x.den_spec(),
            ),
            pos.y == Rect::denormalize_axis(
                self.min.y as int,
                self.max.y as int,
                uv.y.num_spec(),
                uv.y.den_spec(),
            ),
    {
        let across: i32 = saturate(uv.x.floor_times(self.max.x as i64 - self.min.x as i64));
        let down: i32 = saturate(uv.y.floor_times(self.max.y as i64 - self.min.y as i64));
        IVec2 {
            x: saturate(self.min.x as i128 + across as i128),
            y: saturate(self.min.y as i128 + down as i128),
        }
    }
}

/// Mapping a pixel of a rectangle to the unit square and back gives the
/// pixel again, and its place in the unit square is at least zero and below
/// one on both axes. The rectangle must not be wider or higher than `i32`
/// can count: beyond that the way back is cut short.
pub proof fn lemma_normalize_round_trip(rect: Rect, pos: IVec2)
    requires
        rect.contains_spec(pos),
        rect.max.x - rect.min.x <= i32::MAX,
        rect.max.y - rect.min.y <= i32::MAX,
    ensures
        rect.normalize_spec(pos) matches Some(uv) && {
            &&& 0 <= uv.0.0 < uv.0.1
            &&& 0 <= uv.1.0 < uv.1.1
            &&& Rect::denormalize_axis(rect.min.x as int, rect.max.x as int, uv.0.0, uv.0.1)
                == pos.x
            &&& Rect::denormalize_axis(rect.min.y as int, rect.max.y as int, uv.1.0, uv.1.1)
                == pos.y
        },
{
    let width = rect.max.x - rect.min.x;
    let height = rect.max.y - rect.min.y;
    vstd::arithmetic::div_mod::lemma_div_multiples_vanish(pos.x - rect.min.x, width);
    vstd::arithmetic::div_mod::lemma_div_multiples_vanish(pos.y - rect.min.y, height);
    assert((pos.x - rect.min.x) * width == width * (pos.x - rect.min.x)) by (nonlinear_arith);
    assert((pos.y - rect.min.y) * height == height * (pos.y - rect.min.y)) by (nonlinear_arith);
}

/// The first pixel of a rectangle maps to zero on both axes. Its last
/// pixel maps to one pixel short of the whole on both axes: below one.
pub proof fn lemma_normalize_corners(rect: Rect)
    requires
        rect.min.x < rect.max.x,
        rect.min.y < rect.max.y,
    ensures
        rect.normalize_spec(rect.min) == Some(
            ((0int, rect.max.x - rect.min.x), (0int, rect.max.y - rect.min.y)),
        ),
        rect.normalize_spec(
            IVec2 { x: (rect.max.x - 1) as i32, y: (rect.max.y - 1) as i32 },
        ) == Some(
            (
                (rect.max.x - rect.min.x - 1, rect.max.x - rect.min.x),
                (rect.max.y - rect.min.y - 1, rect.max.y - rect.min.y),
            ),
        ),
{
}

/// The lowest and the highest of a set of points bound every point, and
/// unless there are no points each of their coordinates is that of a point.
pub proof fn lemma_extremes(points: Seq<IVec2>)
    ensures
        forall|i: int|
            0 <= i < points.len() ==> {
                &&& lowest(points).x <= (#[trigger] points[i]).x <= highest(points).x
                &&& lowest(points).y <= points[i].y <= highest(points).y
            },
        points.len() > 0 ==> {
            &&& exists|i: int| 0 <= i < points.len() && (#[trigger] points[i]).x == lowest(points).x
            &&& exists|i: int| 0 <= i < points.len() && (#[trigger] points[i]).y == lowest(points).y
            &&& exists|i: int| 0 <= i < points.len() && (#[trigger] points[i]).x == highest(points).x
            &&& exists|i: int| 0 <= i < points.len() && (#[trigger] points[i]).y == highest(points).y
        },
    decreases points.len(),
{
    if points.len() > 0 {
        let rest = points.drop_last();
        let n = points.len() - 1;
        lemma_extremes(rest);
        assert(points[n] == points.last());
        assert forall|i: int| 0 <= i < points.len() implies {
            &&& lowest(points).x <= (#[trigger] points[i]).x <= highest(points).x
            &&& lowest(points).y <= points[i].y <= highest(points).y
        } by {
            if i < n {
                assert(rest[i] == points[i]);
            }
        }
        if rest.len() > 0 {
            let ax = choose|i: int| 0 <= i < rest.len() && (#[trigger] rest[i]).x == lowest(rest).x;
            let ay = choose|i: int| 0 <= i < rest.len() && (#[trigger] rest[i]).y == lowest(rest).y;
            let bx = choose|i: int| 0 <= i < rest.len() && (#[trigger] rest[i]).x == highest(rest).x;
            let by = choose|i: int| 0 <= i < rest.len() && (#[trigger] rest[i]).y == highest(rest).y;
            assert(points[ax] == rest[ax] && points[ay] == rest[ay]);
            assert(points[bx] == rest[bx] && points[by] == rest[by]);
            let lx = if points[n].x < lowest(rest).x { n } else { ax };
            let ly = if points[n].y < lowest(rest).y { n } else { ay };
            let hx = if points[n].x > highest(rest).x { n } else { bx };
            let hy = if points[n].y > highest(rest).y { n } else { by };
            assert(points[lx].x == lowest(points).x);
            assert(points[ly].y == lowest(points).y);
            assert(points[hx].x == highest(points).x);
            assert(points[hy].y == highest(points).y);
        } else {
            assert(points[n].x == lowest(points).x && points[n].y == lowest(points).y);
            assert(points[n].x == highest(points).x && points[n].y == highest(points).y);
        }
    }
}

/// The rectangle around a set of points is tight: it holds every point, and
/// unless there are no points each of its sides holds one.
pub proof fn lemma_around_is_tight(points: Seq<IVec2>)
    requires
        forall|i: int|
            0 <= i < points.len() ==> (#[trigger] points[i]).x < i32::MAX && points[i].y
                < i32::MAX,
    ensures
        forall|i: int|
            0 <= i < points.len() ==> Rect::around(points).contains_spec(#[trigger] points[i]),
        points.len() > 0 ==> {
            &&& exists|i: int|
                0 <= i < points.len() && (#[trigger] points[i]).x == Rect::around(points).min.x
            &&& exists|i: int|
                0 <= i < points.len() && (#[trigger] points[i]).y == Rect::around(points).min.y
            &&& exists|i: int|
                0 <= i < points.len() && (#[trigger] points[i]).x == Rect::around(points).max.x
                    - 1
            &&& exists|i: int|
                0 <= i < points.len() && (#[trigger] points[i]).y == Rect::around(points).max.y
                    - 1
        },
{
    lemma_extremes(points);
    if points.len() > 0 {
        let bx = choose|i: int| 0 <= i < points.len() && (#[trigger] points[i]).x == highest(points).x;
        let by = choose|i: int| 0 <= i < points.len() && (#[trigger] points[i]).y == highest(points).y;
        assert(points[bx].x == Rect::around(points).max.x - 1);
        assert(points[by].y == Rect::around(points).max.y - 1);
    }
}

/// The frame of a ruler gives the centre back: in an image whose only
/// marks are one on the first row, at column `cx`, and one on the first
/// column, at row `cy`, the frame of the marks starts at the origin and its
/// last pixel is `(cx, cy)`.
pub proof fn lemma_frame_of_ruler(image: ImageView, cx: int, cy: int)
    requires
        1 <= cx < i32::MAX,
        1 <= cy < i32::MAX,
        is_marked(image, cx, 0),
        is_marked(image, 0, cy),
        forall|x: int, y: int| #[trigger]
            is_marked(image, x, y) ==> (x == cx && y == 0) || (x == 0 && y == cy),
    ensures
        mark_frame(image) == (Rect {
            min: IVec2 { x: 0, y: 0 },
            max: IVec2 { x: (cx + 1) as i32, y: (cy + 1) as i32 },
        }),
{
    let rect = Rect {
        min: IVec2 { x: 0, y: 0 },
        max: IVec2 { x: (cx + 1) as i32, y: (cy + 1) as i32 },
    };
    assert(is_marked(image, 0, cy) && 0 == rect.min.x);
    assert(is_marked(image, cx, 0) && 0 == rect.min.y);
    assert(is_marked(image, cx, 0) && cx == rect.max.x - 1);
    assert(is_marked(image, 0, cy) && cy == rect.max.y - 1);
    assert(frames_marks(image, rect));
    assert(has_marks(image));
    lemma_frame_unique(image, rect, mark_frame(image));
}

} // verus!
