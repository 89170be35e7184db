//! Bodies that can be sampled cell by cell, and their bounding boxes.

use vstd::prelude::*;
use crate::camera::Viewpoint;
use crate::vector::{
    clamp_i32, floor_div, floor_ratio, max_int, min_int, saturate, IVec2, IVec3,
};

verus! {

/// An axis-aligned box of cells, from its lowest corner to its highest.
#[derive(Clone, Copy, Debug, PartialEq, Eq, Hash, Structural)]
pub struct BoundingBox {
    pub min: IVec3,
    pub max: IVec3,
}

impl Default for BoundingBox {
    /// The empty box at the origin.
    fn default() -> (bounds: BoundingBox)
        ensures
            bounds == BoundingBox::empty(),
    {
        BoundingBox { min: IVec3 { x: 0, y: 0, z: 0 }, max: IVec3 { x: 0, y: 0, z: 0 } }
    }
}

impl BoundingBox {
    /// The empty box at the origin.
    pub open spec fn empty() -> BoundingBox {
        BoundingBox { min: IVec3 { x: 0, y: 0, z: 0 }, max: IVec3 { x: 0, y: 0, z: 0 } }
    }

    /// The box from `min` to `max`.
    pub fn new(min: IVec3, max: IVec3) -> (bounds: BoundingBox)
        ensures
            bounds == (BoundingBox { min, max }),
    {
        BoundingBox { min, max }
    }

    /// Whether `pos` is at or above the lowest corner and below the highest
    /// on every axis.
    pub open spec fn contains_spec(self, pos: IVec3) -> bool {
        &&& self.min.x <= pos.x < self.max.x
        &&& self.min.y <= pos.y < self.max.y
        &&& self.min.z <= pos.z < self.max.z
    }

    /// Whether the box contains `pos`; its highest corner is outside.
    pub fn contains(&self, pos: IVec3) -> (inside: bool)
        ensures
            inside == self.contains_spec(pos),
    {
        self.min.x <= pos.x && pos.x < self.max.x && self.min.y <= pos.y && pos.y < self.max.y
            && self.min.z <= pos.z && pos.z < self.max.z
    }

    /// Corner `i` of the box, for `i` from 0 to 7: the three lowest bits of
    /// `i` pick the high end along x, y and z.
    pub open spec fn corner(self, i: int) -> IVec3 {
        IVec3 {
            x: if i % 2 == 1 { self.max.x } else { self.min.x },
            y: if (i / 2) % 2 == 1 { self.max.y } else { self.min.y },
            z: if (i / 4) % 2 == 1 { self.max.z } else { self.min.z },
        }
    }

    /// The eight corners of the box.
    pub fn corners(&self) -> (corners: Vec<IVec3>)
        ensures
            corners.len() == 8,
            forall|i: int| 0 <= i < 8 ==> #[trigger] corners[i] == self.corner(i),
    {
        let mut corners: Vec<IVec3> = Vec::new();
        let mut bits: u8 = 0;
        while bits < 8
            invariant
                bits <= 8,
                corners.len() == bits,
                forall|i: int| 0 <= i < bits ==> #[trigger] corners[i] == self.corner(i),
            decreases 8 - bits,
        {
            corners.push(
                IVec3 {
                    x: if bits % 2 == 1 { self.max.x } else { self.min.x },
                    y: if (bits / 2) % 2 == 1 { self.max.y } else { self.min.y },
                    z: if (bits / 4) % 2 == 1 { self.max.z } else { self.min.z },
                },
            );
            bits += 1;
        }
        corners
    }

    /// Where corner `i` is drawn, across and up, in the parts of a pixel in
    /// which the camera measures.
    pub open spec fn corner_on_screen(self, camera: Viewpoint, i: int) -> (int, int) {
        let s = camera.project_spec(self.corner(i));
        (s.0, s.1)
    }

    /// The lowest place across and the lowest place up at which one of the
    /// corners 0 to `n` is drawn.
    pub open spec fn screen_min(self, camera: Viewpoint, n: int) -> (int, int)
        decreases n,
    {
        if n <= 0 {
            self.corner_on_screen(camera, 0)
        } else {
            let rest = self.screen_min(camera, n - 1);
            let c = self.corner_on_screen(camera, n);
            (min_int(rest.0, c.0), min_int(rest.1, c.1))
        }
    }

    /// The highest place across and the highest place up at which one of
    /// the corners 0 to `n` is drawn.
    pub open spec fn screen_max(self, camera: Viewpoint, n: int) -> (int, int)
        decreases n,
    {
        if n <= 0 {
            self.corner_on_screen(camera, 0)
        } else {
            let rest = self.screen_max(camera, n - 1);
            let c = self.corner_on_screen(camera, n);
            (max_int(rest.0, c.0), max_int(rest.1, c.1))
        }
    }

    /// The pixel rectangle that holds the picture of the box: the whole
    /// pixels from the one that holds the lowest drawn corner to the one
    /// that holds the highest, on each axis. Its origin is the first of
    /// them, its size their number. A value that `i32` cannot hold is
    /// replaced by the nearest that it can.
    pub open spec fn screen_bounds_spec(self, camera: Viewpoint) -> (IVec2, IVec2) {
        let low = self.screen_min(camera, 7);
        let high = self.screen_max(camera, 7);
        let grain = camera.grain_spec();
        (
            IVec2 { x: clamp_i32(floor_div(low.0, grain)), y: clamp_i32(floor_div(low.1, grain)) },
            IVec2 {
                x: clamp_i32(floor_div(high.0, grain) - floor_div(low.0, grain) + 1),
                y: clamp_i32(floor_div(high.1, grain) - floor_div(low.1, grain) + 1),
            },
        )
    }

    /// Whether the pixel rectangle of the box can be written in `i32`
    /// without a value being replaced.
    pub open spec fn frame_fits(self, camera: Viewpoint) -> bool {
        let low = self.screen_min(camera, 7);
        let high = self.screen_max(camera, 7);
        let grain = camera.grain_spec();
        &&& i32::MIN <= floor_div(low.0, grain) <= i32::MAX
        &&& i32::MIN <= floor_div(low.1, grain) <= i32::MAX
        &&& floor_div(high.0, grain) - floor_div(low.0, grain) + 1 <= i32::MAX
        &&& floor_div(high.1, grain) - floor_div(low.1, grain) + 1 <= i32::MAX
    }

    /// The origin and the size of the pixel rectangle that holds the
    /// picture of the box.
    pub fn screen_bounds(&self, camera: &Viewpoint) -> (bounds: (IVec2, IVec2))
        ensures
            bounds == self.screen_bounds_spec(*camera),
    {
        let corners = self.corners();
        let first = camera.project(corners[0]);
        let mut low_x: i64 = first.x;
        let mut low_y: i64 = first.y;
        let mut high_x: i64 = first.x;
        let mut high_y: i64 = first.y;
        let grain: i128 = first.unit as i128;
        let mut i: usize = 1;
        while i < 8
            invariant
                1 <= i <= 8,
                corners.len() == 8,
                forall|j: int| 0 <= j < 8 ==> #[trigger] corners[j] == self.corner(j),
                (low_x as int, low_y as int) == self.screen_min(*camera, i - 1),
                (high_x as int, high_y as int) == self.screen_max(*camera, i - 1),
                -0x2_0000_0000_0000 <= low_x <= 0x2_0000_0000_0000,
                -0x2_0000_0000_0000 <= low_y <= 0x2_0000_0000_0000,
                -0x2_0000_0000_0000 <= high_x <= 0x2_0000_0000_0000,
                -0x2_0000_0000_0000 <= high_y <= 0x2_0000_0000_0000,
            decreases 8 - i,
        {
            let s = camera.project(corners[i]);
            if s.x < low_x {
                low_x = s.x;
            }
            if s.y < low_y {
                low_y = s.y;
            }
            if s.x > high_x {
                high_x = s.x;
            }
            if s.y > high_y {
                high_y = s.y;
            }
            i += 1;
        }
        (
            IVec2 {
                x: saturate(floor_ratio(low_x as i128, grain)),
                y: saturate(floor_ratio(low_y as i128, grain)),
            },
            IVec2 {
                x: saturate(
                    floor_ratio(high_x as i128, grain) - floor_ratio(low_x as i128, grain) + 1,
                ),
                y: saturate(
                    floor_ratio(high_y as i128, grain) - floor_ratio(low_y as i128, grain) + 1,
                ),
            },
        )
    }
}

/// Each of the corners 0 to `n` is drawn between the lowest and the highest
/// place at which one of them is drawn.
pub proof fn lemma_screen_extremes(bounds: BoundingBox, camera: Viewpoint, n: int, i: int)
    requires
        0 <= i <= n,
    ensures
        bounds.screen_min(camera, n).0 <= bounds.corner_on_screen(camera, i).0
            <= bounds.screen_max(camera, n).0,
        bounds.screen_min(camera, n).1 <= bounds.corner_on_screen(camera, i).1
            <= bounds.screen_max(camera, n).1,
        bounds.screen_min(camera, n).0 <= bounds.screen_max(camera, n).0,
        bounds.screen_min(camera, n).1 <= bounds.screen_max(camera, n).1,
    decreases n,
{
    if n > 0 {
        if i < n {
            lemma_screen_extremes(bounds, camera, n - 1, i);
        } else {
            lemma_screen_extremes(bounds, camera, n - 1, 0);
        }
    }
}

/// A number lies in the whole part of its size in which flooring puts it.
proof fn lemma_floor_bounds(n: int, d: int)
    requires
        d > 0,
    ensures
        d * floor_div(n, d) <= n < d * (floor_div(n, d) + 1),
{
    vstd::arithmetic::div_mod::lemma_fundamental_div_mod(n, d);
    vstd::arithmetic::div_mod::lemma_mod_bound(n, d);
    assert(d * (n / d + 1) == d * (n / d) + d) by (nonlinear_arith);
}

/// A place between the lowest and the highest place of a picture lies on
/// one of the pixels from the one that holds the lowest to the one that
/// holds the highest.
proof fn lemma_between_pixels(low: int, at: int, high: int, grain: int)
    requires
        grain > 0,
        low <= at <= high,
    ensures
        grain * floor_div(low, grain) <= at < grain * (floor_div(high, grain) + 1),
        floor_div(low, grain) <= floor_div(high, grain),
{
    lemma_floor_bounds(low, grain);
    lemma_floor_bounds(high, grain);
    vstd::arithmetic::div_mod::lemma_div_is_ordered(low, high, grain);
}

/// The frame of a box holds every corner of the box as it is drawn: each
/// drawn corner lies at or after the origin of the frame and before its
/// end, across and up. Places are in the parts of a pixel in which the
/// camera measures.
pub proof fn lemma_frame_holds_corners(bounds: BoundingBox, camera: Viewpoint, i: int)
    requires
        0 <= i < 8,
        camera.is_valid(),
        bounds.frame_fits(camera),
    ensures
        ({
            let (origin, size) = bounds.screen_bounds_spec(camera);
            let drawn = bounds.corner_on_screen(camera, i);
            let grain = camera.grain_spec();
            &&& size.x >= 1
            &&& size.y >= 1
            &&& grain * origin.x <= drawn.0 < grain * (origin.x + size.x)
            &&& grain * origin.y <= drawn.1 < grain * (origin.y + size.y)
        }),
{
    lemma_screen_extremes(bounds, camera, 7, i);
    let low = bounds.screen_min(camera, 7);
    let high = bounds.screen_max(camera, 7);
    let drawn = bounds.corner_on_screen(camera, i);
    lemma_between_pixels(low.0, drawn.0, high.0, camera.grain_spec());
    lemma_between_pixels(low.1, drawn.1, high.1, camera.grain_spec());
}

/// Whether `pos` lies in the box when both its corners count: at or above
/// the lowest and at or below the highest on every axis.
pub open spec fn within(bounds: BoundingBox, pos: IVec3) -> bool {
    &&& bounds.min.x <= pos.x <= bounds.max.x
    &&& bounds.min.y <= pos.y <= bounds.max.y
    &&& bounds.min.z <= pos.z <= bounds.max.z
}

/// A larger number times a scale of at least one is larger.
proof fn lemma_scaled_order(scale: int, a: int, b: int)
    requires
        scale >= 1,
        a <= b,
    ensures
        scale * a <= scale * b,
{
    assert(scale * a <= scale * b) by (nonlinear_arith)
        requires
            scale >= 1,
            a <= b,
    ;
}

/// A cell of a box is drawn between the lowest and the highest place at
/// which a corner of the box is drawn.
pub proof fn lemma_box_is_drawn_between_corners(bounds: BoundingBox, camera: Viewpoint, p: IVec3)
    requires
        camera.is_valid(),
        within(bounds, p),
    ensures
        bounds.screen_min(camera, 7).0 <= camera.project_spec(p).0 <= bounds.screen_max(
            camera,
            7,
        ).0,
        bounds.screen_min(camera, 7).1 <= camera.project_spec(p).1 <= bounds.screen_max(
            camera,
            7,
        ).1,
{
    let s = camera.scale_spec();
    let t = camera.heading_spec().turns();
    let r = crate::camera::rotate(t, p.x as int, p.y as int);
    let across = 2 * r.0 - p.z;
    let up = 2 * r.1 + p.z;
    // The corners at which the place across is lowest and highest, and
    // those at which the place up is.
    let (left, right, bottom, top): (int, int, int, int) = if t == 0 {
        (4, 1, 0, 6)
    } else if t == 1 {
        (6, 0, 0, 5)
    } else if t == 2 {
        (5, 0, 2, 4)
    } else {
        (4, 2, 1, 4)
    };
    lemma_screen_extremes(bounds, camera, 7, left);
    lemma_screen_extremes(bounds, camera, 7, right);
    lemma_screen_extremes(bounds, camera, 7, bottom);
    lemma_screen_extremes(bounds, camera, 7, top);
    let cl = bounds.corner(left);
    let cr = bounds.corner(right);
    let cb = bounds.corner(bottom);
    let ct = bounds.corner(top);
    lemma_scaled_order(s, 2 * crate::camera::rotate(t, cl.x as int, cl.y as int).0 - cl.z, across);
    lemma_scaled_order(s, across, 2 * crate::camera::rotate(t, cr.x as int, cr.y as int).0 - cr.z);
    lemma_scaled_order(s, 2 * crate::camera::rotate(t, cb.x as int, cb.y as int).1 + cb.z, up);
    lemma_scaled_order(s, up, 2 * crate::camera::rotate(t, ct.x as int, ct.y as int).1 + ct.z);
}

/// The frame of a box holds every cell of the box as it is drawn: each lies
/// at or after the origin of the frame and before its end, across and up.
/// Places are in the parts of a pixel in which the camera measures.
pub proof fn lemma_frame_holds_box(bounds: BoundingBox, camera: Viewpoint, p: IVec3)
    requires
        camera.is_valid(),
        within(bounds, p),
        bounds.frame_fits(camera),
    ensures
        ({
            let (origin, size) = bounds.screen_bounds_spec(camera);
            let drawn = camera.project_spec(p);
            let grain = camera.grain_spec();
            &&& grain * origin.x <= drawn.0 < grain * (origin.x + size.x)
            &&& grain * origin.y <= drawn.1 < grain * (origin.y + size.y)
        }),
{
    lemma_box_is_drawn_between_corners(bounds, camera, p);
    let low = bounds.screen_min(camera, 7);
    let high = bounds.screen_max(camera, 7);
    let drawn = camera.project_spec(p);
    lemma_between_pixels(low.0, drawn.0, high.0, camera.grain_spec());
    lemma_between_pixels(low.1, drawn.1, high.1, camera.grain_spec());
}

/// The cell one step from `pos` along each axis by `dx`, `dy` and `dz`.
pub open spec fn neighbour(pos: IVec3, dx: int, dy: int, dz: int) -> IVec3 {
    IVec3 { x: (pos.x + dx) as i32, y: (pos.y + dy) as i32, z: (pos.z + dz) as i32 }
}

/// Whether every neighbour of a cell can be written with `i32` coordinates.
pub open spec fn has_neighbours(pos: IVec3) -> bool {
    &&& i32::MIN < pos.x < i32::MAX
    &&& i32::MIN < pos.y < i32::MAX
    &&& i32::MIN < pos.z < i32::MAX
}

/// One for nothing, zero for a value: how much an empty neighbour adds to
/// the normal.
pub open spec fn vacancy<V>(value: Option<V>) -> int {
    if value.is_none() {
        1
    } else {
        0
    }
}

/// A volume that holds a value at some cells of the lattice and nothing at
/// the others.
pub trait Body {
    /// What the body holds at a cell.
    type Value;

    /// What the body holds at `pos`, if anything.
    spec fn sample_spec(&self, pos: IVec3) -> Option<Self::Value>;

    /// The box that the body reports as its extent.
    spec fn bounds(&self) -> BoundingBox;

    /// Looks up the cell at `pos`.
    fn sample(&self, pos: IVec3) -> (value: Option<Self::Value>)
        ensures
            value == self.sample_spec(pos),
    ;

    /// The extent of the body.
    fn bounding_box(&self) -> (bounds: BoundingBox)
        ensures
            bounds == self.bounds(),
    ;

    /// The direction in which the body is open at `pos`: the sum of the
    /// steps to the empty ones among the six neighbours of `pos`.
    fn normal(&self, pos: IVec3) -> (n: IVec3)
        requires
            has_neighbours(pos),
        ensures
            n.x == vacancy(self.sample_spec(neighbour(pos, 1, 0, 0))) - vacancy(
                self.sample_spec(neighbour(pos, -1, 0, 0)),
            ),
            n.y == vacancy(self.sample_spec(neighbour(pos, 0, 1, 0))) - vacancy(
                self.sample_spec(neighbour(pos, 0, -1, 0)),
            ),
            n.z == vacancy(self.sample_spec(neighbour(pos, 0, 0, 1))) - vacancy(
                self.sample_spec(neighbour(pos, 0, 0, -1)),
            ),
    {
        let east = self.sample(IVec3 { x: pos.x + 1, y: pos.y, z: pos.z }).is_none();
        let west = self.sample(IVec3 { x: pos.x - 1, y: pos.y, z: pos.z }).is_none();
        let north = self.sample(IVec3 { x: pos.x, y: pos.y + 1, z: pos.z }).is_none();
        let south = self.sample(IVec3 { x: pos.x, y: pos.y - 1, z: pos.z }).is_none();
        let up = self.sample(IVec3 { x: pos.x, y: pos.y, z: pos.z + 1 }).is_none();
        let down = self.sample(IVec3 { x: pos.x, y: pos.y, z: pos.z - 1 }).is_none();
        IVec3 {
            x: (if east { 1i32 } else { 0i32 }) - (if west { 1i32 } else { 0i32 }),
            y: (if north { 1i32 } else { 0i32 }) - (if south { 1i32 } else { 0i32 }),
            z: (if up { 1i32 } else { 0i32 }) - (if down { 1i32 } else { 0i32 }),
        }
    }
}

/// Whether `k` is the first of the cells at which the body holds a value.
pub open spec fn is_first_hit<B: Body + ?Sized>(body: &B, cells: Seq<IVec3>, k: int) -> bool {
    &&& 0 <= k < cells.len()
    &&& body.sample_spec(cells[k]).is_some()
    &&& forall|j: int| 0 <= j < k ==> body.sample_spec(#[trigger] cells[j]).is_none()
}

/// The first of the cells at which the body holds a value, with that value.
pub fn first_hit<B: Body>(body: &B, cells: &Vec<IVec3>) -> (hit: Option<(usize, B::Value)>)
    ensures
        match hit {
            Some((k, value)) => is_first_hit(body, cells@, k as int) && body.sample_spec(
                cells[k as int],
            ) == Some(value),
            None => forall|j: int|
                0 <= j < cells.len() ==> body.sample_spec(#[trigger] cells[j]).is_none(),
        },
{
    let mut k: usize = 0;
    while k < cells.len()
        invariant
            k <= cells.len(),
            forall|j: int| 0 <= j < k ==> body.sample_spec(#[trigger] cells[j]).is_none(),
        decreases cells.len() - k,
    {
        match body.sample(cells[k]) {
            Some(value) => {
                return Some((k, value));
            },
            None => {},
        }
        k += 1;
    }
    None
}

} // verus!
