//! The four oblique cameras and the exact arithmetic of their projection.
//!
//! An oblique camera turns the model about the vertical axis by a multiple
//! of a quarter turn and then slants it: a cell one step higher is drawn
//! half a pixel to the left and half a pixel up. A viewpoint adds to this
//! how far the camera is pulled back along the depth axis and by how much
//! the picture is enlarged or reduced.

use vstd::prelude::*;
use crate::vector::{lemma_product_bound, Fixed3, IVec3};

verus! {

/// The heading of an oblique camera.
#[derive(Clone, Copy, Debug, PartialEq, Eq, Hash, Structural)]
pub enum Camera {
    ObliqueNorth,
    ObliqueEast,
    ObliqueSouth,
    ObliqueWest,
}

/// A point of the plane turned counter-clockwise by `turns` quarter turns.
pub open spec fn rotate(turns: int, x: int, y: int) -> (int, int) {
    if turns == 0 {
        (x, y)
    } else if turns == 1 {
        (-y, x)
    } else if turns == 2 {
        (-x, -y)
    } else {
        (y, -x)
    }
}

/// A point of the plane turned clockwise by `turns` quarter turns.
pub open spec fn unrotate(turns: int, x: int, y: int) -> (int, int) {
    if turns == 0 {
        (x, y)
    } else if turns == 1 {
        (y, -x)
    } else if turns == 2 {
        (-x, -y)
    } else {
        (-y, x)
    }
}

/// Turning back undoes turning, and turning undoes turning back.
pub proof fn lemma_rotate_inverse(turns: int, x: int, y: int)
    ensures
        unrotate(turns, rotate(turns, x, y).0, rotate(turns, x, y).1) == (x, y),
        rotate(turns, unrotate(turns, x, y).0, unrotate(turns, x, y).1) == (x, y),
{
}

impl Camera {
    /// The quarter turns about the vertical axis that the heading stands
    /// for: none for north, then one more for each of east, south and west.
    pub open spec fn turns(self) -> int {
        match self {
            Camera::ObliqueNorth => 0,
            Camera::ObliqueEast => 1,
            Camera::ObliqueSouth => 2,
            Camera::ObliqueWest => 3,
        }
    }

    /// The number of quarter turns of the heading.
    pub fn quarter_turns(self) -> (turns: u8)
        ensures
            turns == self.turns(),
    {
        match self {
            Camera::ObliqueNorth => 0,
            Camera::ObliqueEast => 1,
            Camera::ObliqueSouth => 2,
            Camera::ObliqueWest => 3,
        }
    }
}

fn turn(turns: u8, x: i64, y: i64) -> (r: (i64, i64))
    requires
        x > i64::MIN,
        y > i64::MIN,
    ensures
        (r.0 as int, r.1 as int) == rotate(turns as int, x as int, y as int),
{
    if turns == 0 {
        (x, y)
    } else if turns == 1 {
        (-y, x)
    } else if turns == 2 {
        (-x, -y)
    } else {
        (y, -x)
    }
}

fn turn_back(turns: u8, x: i64, y: i64) -> (r: (i64, i64))
    requires
        x > i64::MIN,
        y > i64::MIN,
    ensures
        (r.0 as int, r.1 as int) == unrotate(turns as int, x as int, y as int),
{
    if turns == 0 {
        (x, y)
    } else if turns == 1 {
        (y, -x)
    } else if turns == 2 {
        (-x, -y)
    } else {
        (-y, x)
    }
}

/// An oblique camera in place: its heading, how far it is pulled back from
/// the model along the depth axis, in cells, and the size of its picture,
/// which is `scale / divisor` pixels to the cell. A cell `p` is drawn at
/// `scale / divisor` times the slanted and turned `p`, moved `distance`
/// cells away from the viewer.
#[derive(Clone, Copy, Debug, PartialEq, Eq, Hash)]
pub struct Viewpoint {
    heading: Camera,
    scale: u16,
    divisor: u16,
    distance: u16,
}

impl Viewpoint {
    #[verifier::type_invariant]
    spec fn well_formed(self) -> bool {
        self.scale >= 1 && self.divisor >= 1
    }

    /// The heading of the camera.
    pub closed spec fn heading_spec(self) -> Camera {
        self.heading
    }

    /// The factor by which the picture is enlarged; at least one.
    pub closed spec fn scale_spec(self) -> int {
        self.scale as int
    }

    /// The factor by which the picture is reduced; at least one.
    pub closed spec fn divisor_spec(self) -> int {
        self.divisor as int
    }

    /// Whether the scale and the divisor are at least one, as they are of
    /// every viewpoint that was made.
    pub open spec fn is_valid(self) -> bool {
        self.scale_spec() >= 1 && self.divisor_spec() >= 1
    }

    /// How far the camera is pulled back, in cells.
    pub closed spec fn distance_spec(self) -> int {
        self.distance as int
    }

    /// A viewpoint with a whole scale, or nothing for a scale of zero,
    /// which would draw every cell on one point.
    pub fn new(heading: Camera, scale: u16, distance: u16) -> (view: Option<Viewpoint>)
        ensures
            view.is_some() == (scale >= 1),
            view matches Some(v) ==> v.heading_spec() == heading && v.scale_spec() == scale
                && v.divisor_spec() == 1 && v.distance_spec() == distance,
    {
        Viewpoint::with_scale(heading, scale, 1, distance)
    }

    /// A viewpoint whose picture is `scale / divisor` pixels to the cell, or
    /// nothing where one of the two is zero.
    pub fn with_scale(heading: Camera, scale: u16, divisor: u16, distance: u16) -> (view: Option<
        Viewpoint,
    >)
        ensures
            view.is_some() == (scale >= 1 && divisor >= 1),
            view matches Some(v) ==> v.heading_spec() == heading && v.scale_spec() == scale
                && v.divisor_spec() == divisor && v.distance_spec() == distance,
    {
        if scale >= 1 && divisor >= 1 {
            Some(Viewpoint { heading, scale, divisor, distance })
        } else {
            None
        }
    }

    /// The heading of the camera.
    pub fn heading(&self) -> (heading: Camera)
        ensures
            heading == self.heading_spec(),
    {
        self.heading
    }

    /// The factor by which the picture is enlarged.
    pub fn scale(&self) -> (scale: u16)
        ensures
            scale == self.scale_spec(),
            scale >= 1,
    {
        proof {
            use_type_invariant(self);
        }
        self.scale
    }

    /// The factor by which the picture is reduced.
    pub fn divisor(&self) -> (divisor: u16)
        ensures
            divisor == self.divisor_spec(),
            divisor >= 1,
    {
        proof {
            use_type_invariant(self);
        }
        self.divisor
    }

    /// How far the camera is pulled back, in cells.
    pub fn distance(&self) -> (distance: u16)
        ensures
            distance == self.distance_spec(),
    {
        self.distance
    }

    /// The same camera pulled back to `distance` cells from the model.
    pub fn pulled_back(self, distance: u16) -> (view: Viewpoint)
        ensures
            view.heading_spec() == self.heading_spec(),
            view.scale_spec() == self.scale_spec(),
            view.divisor_spec() == self.divisor_spec(),
            view.distance_spec() == distance,
    {
        proof {
            use_type_invariant(&self);
        }
        Viewpoint { heading: self.heading, scale: self.scale, divisor: self.divisor, distance }
    }

    /// The number of parts of a pixel in which `project_spec` is measured:
    /// two for each step of the divisor. At a whole scale they are half
    /// pixels.
    pub open spec fn grain_spec(self) -> int {
        2 * self.divisor_spec()
    }

    /// Where cell `p` is drawn, in `grain_spec` parts of a pixel: across,
    /// up, and toward the viewer.
    pub open spec fn project_spec(self, p: IVec3) -> (int, int, int) {
        let r = rotate(self.heading_spec().turns(), p.x as int, p.y as int);
        (
            self.scale_spec() * (2 * r.0 - p.z),
            self.scale_spec() * (2 * r.1 + p.z),
            2 * self.scale_spec() * (p.z - self.distance_spec()),
        )
    }

    /// The number of parts of a cell in which `unproject_spec` and the rays
    /// of the camera are measured: two for each step of the scale.
    pub open spec fn unit_spec(self) -> int {
        2 * self.scale_spec()
    }

    /// The point of space that is drawn at pixel `(x, y)` at depth zero, in
    /// `unit_spec` parts of a cell: where the ray of that pixel starts.
    pub open spec fn unproject_spec(self, x: int, y: int) -> (int, int, int) {
        let lift = self.scale_spec() * self.distance_spec();
        let r = unrotate(
            self.heading_spec().turns(),
            self.grain_spec() * x + lift,
            self.grain_spec() * y - lift,
        );
        (r.0, r.1, 2 * lift)
    }

    /// The direction in which the camera looks, away from the viewer: two
    /// cells down for each cell of slant.
    pub open spec fn forward_spec(self) -> (int, int, int) {
        let r = unrotate(self.heading_spec().turns(), -1, 1);
        (r.0, r.1, -2)
    }

    /// Where a cell is drawn, in parts of a pixel.
    pub fn project(&self, p: IVec3) -> (s: Fixed3)
        ensures
            s.unit == self.grain_spec(),
            s.unit >= 2,
            (s.x as int, s.y as int, s.z as int) == self.project_spec(p),
            -0x2_0000_0000_0000 <= s.x <= 0x2_0000_0000_0000,
            -0x2_0000_0000_0000 <= s.y <= 0x2_0000_0000_0000,
    {
        proof {
            use_type_invariant(self);
        }
        let (rx, ry) = turn(self.heading.quarter_turns(), p.x as i64, p.y as i64);
        let scale: i64 = self.scale as i64;
        let across: i64 = 2 * rx - p.z as i64;
        let up: i64 = 2 * ry + p.z as i64;
        let depth: i64 = p.z as i64 - self.distance as i64;
        proof {
            lemma_product_bound(scale as int, across as int, 0xffff, 0x2_0000_0000);
            lemma_product_bound(scale as int, up as int, 0xffff, 0x2_0000_0000);
            lemma_product_bound(2 * scale as int, depth as int, 0x1_ffff, 0x1_0000_0000);
        }
        Fixed3 { x: scale * across, y: scale * up, z: 2 * scale * depth, unit: 2 * self.divisor as u32 }
    }

    /// Where the ray of pixel `(x, y)` starts.
    pub fn unproject(&self, x: i64, y: i64) -> (o: Fixed3)
        requires
            -0x1000_0000_0000 <= x <= 0x1000_0000_0000,
            -0x1000_0000_0000 <= y <= 0x1000_0000_0000,
        ensures
            o.unit == self.unit_spec(),
            (o.x as int, o.y as int, o.z as int) == self.unproject_spec(x as int, y as int),
    {
        proof {
            use_type_invariant(self);
            lemma_product_bound(self.scale as int, self.distance as int, 0xffff, 0xffff);
            lemma_product_bound(2 * self.divisor as int, x as int, 0x1_fffe, 0x1000_0000_0000);
            lemma_product_bound(2 * self.divisor as int, y as int, 0x1_fffe, 0x1000_0000_0000);
        }
        let lift: i64 = self.scale as i64 * self.distance as i64;
        let grain: i64 = 2 * self.divisor as i64;
        let (ox, oy) = turn_back(self.heading.quarter_turns(), grain * x + lift, grain * y - lift);
        Fixed3 { x: ox, y: oy, z: 2 * lift, unit: 2 * self.scale as u32 }
    }

    /// The direction of the camera's rays.
    pub fn forward(&self) -> (d: IVec3)
        ensures
            (d.x as int, d.y as int, d.z as int) == self.forward_spec(),
    {
        let (dx, dy) = turn_back(self.heading.quarter_turns(), -1, 1);
        IVec3 { x: dx as i32, y: dy as i32, z: -2 }
    }
}

impl From<Camera> for Viewpoint {
    /// The camera of the given heading in its plain place: not pulled back
    /// and not enlarged.
    fn from(heading: Camera) -> (view: Viewpoint) {
        Viewpoint { heading, scale: 1, divisor: 1, distance: 0 }
    }
}

impl vstd::std_specs::convert::FromSpecImpl<Camera> for Viewpoint {
    open spec fn obeys_from_spec() -> bool {
        true
    }

    closed spec fn from_spec(heading: Camera) -> Viewpoint {
        Viewpoint { heading, scale: 1, divisor: 1, distance: 0 }
    }
}

/// The viewpoint made from a heading has that heading, a scale of one, a
/// divisor of one and a distance of zero.
pub proof fn lemma_plain_viewpoint(heading: Camera)
    ensures
        <Viewpoint as vstd::std_specs::convert::FromSpec<Camera>>::from_spec(heading).heading_spec()
            == heading,
        <Viewpoint as vstd::std_specs::convert::FromSpec<Camera>>::from_spec(heading).scale_spec()
            == 1,
        <Viewpoint as vstd::std_specs::convert::FromSpec<Camera>>::from_spec(
            heading,
        ).divisor_spec() == 1,
        <Viewpoint as vstd::std_specs::convert::FromSpec<Camera>>::from_spec(
            heading,
        ).distance_spec() == 0,
{
}

/// The scale, the divisor and the distance of a viewpoint are at most
/// 65535.
pub proof fn lemma_viewpoint_ranges(camera: Viewpoint)
    ensures
        0 <= camera.scale_spec() <= 0xffff,
        0 <= camera.divisor_spec() <= 0xffff,
        0 <= camera.distance_spec() <= 0xffff,
{
}

} // verus!
