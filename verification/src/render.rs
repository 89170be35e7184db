//! Drawing a body as a camera sees it.

use vstd::prelude::*;
use crate::body::{first_hit, is_first_hit, Body};
use crate::camera::Viewpoint;
use crate::raster::raster_before;
use crate::ray::{
    cell_coordinate, coordinates, longest_axis, ray_cell, representable, trace, RayError,
};
use crate::vector::{Fixed3, IVec2, IVec3};

verus! {

/// How many cells a ray is followed before it is given up.
pub const TRACE_LIMIT: u32 = 256;

/// What one pixel of a picture shows: the cell that the ray of the pixel
/// met first, and what the body holds there.
#[derive(Debug, PartialEq, Eq)]
pub struct Hit<T> {
    pub pixel: IVec2,
    pub cell: IVec3,
    pub value: T,
}

/// The cell with the given coordinates.
pub open spec fn cell_of(c: (int, int, int)) -> IVec3 {
    IVec3 { x: c.0 as i32, y: c.1 as i32, z: c.2 as i32 }
}

/// Whether step `k` is where the ray from `origin` along `dir` first meets
/// the body: it comes before the limit, the ray has not left the range of
/// `i32` by then, the body holds a value at the cell of step `k`, and
/// nothing at the cells before it.
pub open spec fn ray_hits_at<B: Body>(
    body: &B,
    origin: Fixed3,
    dir: IVec3,
    limit: int,
    k: int,
) -> bool {
    &&& 0 <= k < limit
    &&& forall|j: int| 0 <= j <= k ==> representable(#[trigger] ray_cell(origin, dir, j))
    &&& body.sample_spec(cell_of(ray_cell(origin, dir, k))).is_some()
    &&& forall|j: int|
        0 <= j < k ==> body.sample_spec(cell_of(#[trigger] ray_cell(origin, dir, j))).is_none()
}

/// Whether the ray meets the body before the limit.
pub open spec fn ray_hits<B: Body>(body: &B, origin: Fixed3, dir: IVec3, limit: int) -> bool {
    exists|k: int| ray_hits_at(body, origin, dir, limit, k)
}

/// A ray meets the body first at one step only.
pub proof fn lemma_ray_hit_unique<B: Body>(
    body: &B,
    origin: Fixed3,
    dir: IVec3,
    limit: int,
    a: int,
    b: int,
)
    requires
        ray_hits_at(body, origin, dir, limit, a),
        ray_hits_at(body, origin, dir, limit, b),
    ensures
        a == b,
{
    if a < b {
        assert(body.sample_spec(cell_of(ray_cell(origin, dir, a))).is_none());
    } else if b < a {
        assert(body.sample_spec(cell_of(ray_cell(origin, dir, b))).is_none());
    }
}

/// Follows the ray from `origin` along `dir` for at most `limit` cells and
/// returns the first cell at which the body holds a value, with the value.
/// A direction of zero is refused.
pub fn cast_ray<B: Body>(body: &B, origin: Fixed3, dir: IVec3, limit: u32) -> (hit: Result<
    Option<(IVec3, B::Value)>,
    RayError,
>)
    requires
        origin.unit > 0,
    ensures
        match hit {
            Ok(Some((cell, value))) => longest_axis(dir) > 0 && body.sample_spec(cell) == Some(
                value,
            ) && exists|k: int|
                #[trigger] ray_hits_at(body, origin, dir, limit as int, k) && coordinates(cell)
                    == ray_cell(origin, dir, k),
            Ok(None) => longest_axis(dir) > 0 && !ray_hits(body, origin, dir, limit as int),
            Err(RayError::ZeroDirection) => longest_axis(dir) == 0,
        },
{
    let cells = match trace(origin, dir, limit) {
        Ok(cells) => cells,
        Err(e) => {
            return Err(e);
        },
    };
    proof {
        assert forall|j: int| 0 <= j < cells.len() implies cell_of(
            #[trigger] ray_cell(origin, dir, j),
        ) == cells[j] && representable(ray_cell(origin, dir, j)) by {
            assert(coordinates(cells[j]) == ray_cell(origin, dir, j));
        }
    }
    match first_hit(body, &cells) {
        Some((k, value)) => {
            proof {
                assert(is_first_hit(body, cells@, k as int));
                assert(coordinates(cells[k as int]) == ray_cell(origin, dir, k as int));
                assert forall|j: int| 0 <= j < k implies body.sample_spec(
                    cell_of(#[trigger] ray_cell(origin, dir, j)),
                ).is_none() by {
                    assert(body.sample_spec(cells[j]).is_none());
                }
                assert(ray_hits_at(body, origin, dir, limit as int, k as int));
            }
            Ok(Some((cells[k], value)))
        },
        None => {
            proof {
                assert forall|k: int| !ray_hits_at(body, origin, dir, limit as int, k) by {
                    if ray_hits_at(body, origin, dir, limit as int, k) {
                        if k < cells.len() {
                            assert(body.sample_spec(cells[k]).is_none());
                        } else {
                            assert(representable(ray_cell(origin, dir, cells.len() as int)));
                        }
                    }
                }
            }
            Ok(None)
        },
    }
}

/// Whether `pixel` lies on a picture of the given size.
pub open spec fn in_frame(size: IVec2, pixel: IVec2) -> bool {
    0 <= pixel.x < size.x && 0 <= pixel.y < size.y
}

/// Where the ray of a pixel starts. `frame` is the origin and the size of
/// the picture on the screen. Rows of the picture count downward and the
/// screen counts upward, so the top row of the picture is the highest row
/// of the frame.
pub open spec fn pixel_origin(camera: Viewpoint, frame: (IVec2, IVec2), pixel: IVec2) -> Fixed3 {
    let o = camera.unproject_spec(
        pixel.x + frame.0.x,
        frame.1.y - pixel.y - 1 + frame.0.y,
    );
    Fixed3 { x: o.0 as i64, y: o.1 as i64, z: o.2 as i64, unit: camera.unit_spec() as u32 }
}

/// The direction of the rays of a camera.
pub open spec fn ray_direction(camera: Viewpoint) -> IVec3 {
    cell_of(camera.forward_spec())
}

/// Whether a picture lists `pixel`.
pub open spec fn lists<T>(view: Seq<Hit<T>>, pixel: IVec2) -> bool {
    exists|i: int| 0 <= i < view.len() && (#[trigger] view[i]).pixel == pixel
}

/// Whether `hit` is what its pixel shows of the body: the first cell on the
/// ray of the pixel at which the body holds a value.
pub open spec fn shows<B: Body>(
    body: &B,
    camera: Viewpoint,
    frame: (IVec2, IVec2),
    hit: Hit<B::Value>,
) -> bool {
    &&& in_frame(frame.1, hit.pixel)
    &&& body.sample_spec(hit.cell) == Some(hit.value)
    &&& exists|k: int|
        #[trigger] ray_hits_at(
            body,
            pixel_origin(camera, frame, hit.pixel),
            ray_direction(camera),
            TRACE_LIMIT as int,
            k,
        ) && coordinates(hit.cell) == ray_cell(
            pixel_origin(camera, frame, hit.pixel),
            ray_direction(camera),
            k,
        )
}

/// Draws the body as the camera sees it. The picture covers the screen
/// bounds of the body's bounding box. It lists, row by row from the top and
/// each row from the left, the pixels whose ray meets the body within
/// `TRACE_LIMIT` cells, each with the first cell that its ray meets. Pixels
/// that see nothing are left out.
pub fn build_view<B: Body>(model: &B, camera: &Viewpoint) -> (view: Vec<Hit<B::Value>>)
    ensures
        forall|i: int|
            0 <= i < view.len() ==> shows(
                model,
                *camera,
                model.bounds().screen_bounds_spec(*camera),
                #[trigger] view[i],
            ),
        forall|pixel: IVec2|
            #![trigger lists(view@, pixel)]
            in_frame(model.bounds().screen_bounds_spec(*camera).1, pixel) && ray_hits(
                model,
                pixel_origin(*camera, model.bounds().screen_bounds_spec(*camera), pixel),
                ray_direction(*camera),
                TRACE_LIMIT as int,
            ) ==> lists(view@, pixel),
        forall|i: int, j: int|
            0 <= i < j < view.len() ==> raster_before(
                (#[trigger] view[i]).pixel.x as int,
                view[i].pixel.y as int,
                (#[trigger] view[j]).pixel.x as int,
                view[j].pixel.y as int,
            ),
{
    let aabb = model.bounding_box();
    let frame = aabb.screen_bounds(camera);
    let (origin, size) = frame;
    let dir = camera.forward();
    let _scale: u16 = camera.scale();
    let mut view: Vec<Hit<B::Value>> = Vec::new();
    let mut y: i32 = 0;
    while y < size.y
        invariant
            0 <= y,
            y <= size.y || size.y < 0,
            frame == model.bounds().screen_bounds_spec(*camera),
            frame == (origin, size),
            dir == ray_direction(*camera),
            camera.scale_spec() >= 1,
            camera.scale_spec() <= 0xffff,
            forall|i: int| 0 <= i < view.len() ==> shows(model, *camera, frame, #[trigger] view[i]),
            forall|i: int| 0 <= i < view.len() ==> (#[trigger] view[i]).pixel.y < y,
            forall|pixel: IVec2|
                #![trigger lists(view@, pixel)]
                in_frame(size, pixel) && pixel.y < y && ray_hits(
                    model,
                    pixel_origin(*camera, frame, pixel),
                    dir,
                    TRACE_LIMIT as int,
                ) ==> lists(view@, pixel),
            forall|i: int, j: int|
                0 <= i < j < view.len() ==> raster_before(
                    (#[trigger] view[i]).pixel.x as int,
                    view[i].pixel.y as int,
                    (#[trigger] view[j]).pixel.x as int,
                    view[j].pixel.y as int,
                ),
        decreases size.y - y,
    {
        let mut x: i32 = 0;
        while x < size.x
            invariant
                0 <= y < size.y,
                0 <= x,
                x <= size.x || size.x < 0,
                frame == model.bounds().screen_bounds_spec(*camera),
                frame == (origin, size),
                dir == ray_direction(*camera),
                camera.scale_spec() >= 1,
                camera.scale_spec() <= 0xffff,
                forall|i: int|
                    0 <= i < view.len() ==> shows(model, *camera, frame, #[trigger] view[i]),
                forall|i: int|
                    0 <= i < view.len() ==> raster_before(
                        (#[trigger] view[i]).pixel.x as int,
                        view[i].pixel.y as int,
                        x as int,
                        y as int,
                    ),
                forall|pixel: IVec2|
                    #![trigger lists(view@, pixel)]
                    in_frame(size, pixel) && raster_before(
                        pixel.x as int,
                        pixel.y as int,
                        x as int,
                        y as int,
                    ) && ray_hits(model, pixel_origin(*camera, frame, pixel), dir, TRACE_LIMIT as int)
                        ==> lists(view@, pixel),
                forall|i: int, j: int|
                    0 <= i < j < view.len() ==> raster_before(
                        (#[trigger] view[i]).pixel.x as int,
                        view[i].pixel.y as int,
                        (#[trigger] view[j]).pixel.x as int,
                        view[j].pixel.y as int,
                    ),
            decreases size.x - x,
        {
            let pixel = IVec2 { x, y };
            let across: i64 = x as i64 + origin.x as i64;
            let up: i64 = size.y as i64 - y as i64 - 1 + origin.y as i64;
            let start = camera.unproject(across, up);
            proof {
                assert(start == pixel_origin(*camera, frame, pixel));
                assert(longest_axis(dir) == 2);
            }
            let ghost before = view@;
            match cast_ray(model, start, dir, TRACE_LIMIT) {
                Ok(Some((cell, value))) => {
                    let hit = Hit { pixel, cell, value };
                    proof {
                        assert(shows(model, *camera, frame, hit));
                    }
                    view.push(hit);
                    proof {
                        assert(view@[before.len() as int].pixel == pixel);
                        assert(lists(view@, pixel));
                    }
                },
                Ok(None) => {},
                Err(_) => {
                    // The rays of a camera point downward: their direction
                    // is never zero.
                    assert(false);
                },
            }
            proof {
                assert forall|p: IVec2|
                    #![trigger lists(view@, p)]
                    in_frame(size, p) && raster_before(
                        p.x as int,
                        p.y as int,
                        x + 1,
                        y as int,
                    ) && ray_hits(
                        model,
                        pixel_origin(*camera, frame, p),
                        dir,
                        TRACE_LIMIT as int,
                    ) implies lists(view@, p) by {
                    if p == pixel {
                    } else {
                        assert(raster_before(p.x as int, p.y as int, x as int, y as int));
                        assert(lists(before, p));
                        let i = choose|i: int| 0 <= i < before.len() && (#[trigger] before[i]).pixel == p;
                        assert(view@[i] == before[i]);
                    }
                }
            }
            x += 1;
        }
        proof {
            assert forall|p: IVec2|
                #![trigger lists(view@, p)]
                in_frame(size, p) && p.y < y + 1 && ray_hits(
                    model,
                    pixel_origin(*camera, frame, p),
                    dir,
                    TRACE_LIMIT as int,
                ) implies lists(view@, p) by {
                assert(raster_before(p.x as int, p.y as int, x as int, y as int));
            }
        }
        y += 1;
    }
    view
}

/// Whether cell `p` is drawn on a whole pixel, not between two.
pub open spec fn on_a_pixel(camera: Viewpoint, p: IVec3) -> bool {
    &&& camera.project_spec(p).0 % camera.grain_spec() == 0
    &&& camera.project_spec(p).1 % camera.grain_spec() == 0
}

/// The pixel of the screen on which cell `p` is drawn, for a cell that is
/// drawn on a whole pixel.
pub open spec fn drawn_on(camera: Viewpoint, p: IVec3) -> (int, int) {
    (
        camera.project_spec(p).0 / camera.grain_spec(),
        camera.project_spec(p).1 / camera.grain_spec(),
    )
}

/// Where the ray of the pixel on which cell `p` is drawn starts.
pub open spec fn ray_start(camera: Viewpoint, p: IVec3) -> Fixed3 {
    let start = camera.unproject_spec(drawn_on(camera, p).0, drawn_on(camera, p).1);
    Fixed3 {
        x: start.0 as i64,
        y: start.1 as i64,
        z: start.2 as i64,
        unit: camera.unit_spec() as u32,
    }
}

/// Where the ray of the pixel on which cell `p` is drawn is after
/// `distance - p.z` steps, before rounding: on `p`, along each axis. The
/// place is written as the numerator over four times the scale that
/// `cell_coordinate` rounds.
proof fn lemma_ray_reaches_cell(camera: Viewpoint, p: IVec3)
    requires
        camera.is_valid(),
        on_a_pixel(camera, p),
    ensures
        ({
            let start = camera.unproject_spec(drawn_on(camera, p).0, drawn_on(camera, p).1);
            let dir = camera.forward_spec();
            let k = camera.distance_spec() - p.z;
            let unit = camera.unit_spec();
            &&& start.0 * 2 + k * dir.0 * unit == p.x * (unit * 2)
            &&& start.1 * 2 + k * dir.1 * unit == p.y * (unit * 2)
            &&& start.2 * 2 + k * dir.2 * unit == p.z * (unit * 2)
        }),
{
    let s = camera.scale_spec();
    let d = camera.distance_spec();
    let g = camera.grain_spec();
    let t = camera.heading_spec().turns();
    let k = d - p.z;
    let r = crate::camera::rotate(t, p.x as int, p.y as int);
    let drawn = camera.project_spec(p);
    let qx = drawn.0 / g;
    let qy = drawn.1 / g;
    let lift = s * d;
    let start = camera.unproject_spec(qx, qy);
    let dir = camera.forward_spec();
    vstd::arithmetic::div_mod::lemma_fundamental_div_mod(drawn.0, g);
    vstd::arithmetic::div_mod::lemma_fundamental_div_mod(drawn.1, g);
    assert(g * qx == s * (2 * r.0 - p.z));
    assert(g * qy == s * (2 * r.1 + p.z));
    // Before the turn is undone, the ray is at `(across, up)` parts of a
    // cell after `k` steps, which is the turned cell.
    let across = g * qx + lift - s * k;
    let up = g * qy - lift + s * k;
    assert(across == 2 * s * r.0) by (nonlinear_arith)
        requires
            across == g * qx + s * d - s * k,
            g * qx == s * (2 * r.0 - p.z),
            k == d - p.z,
    ;
    assert(up == 2 * s * r.1) by (nonlinear_arith)
        requires
            up == g * qy - s * d + s * k,
            g * qy == s * (2 * r.1 + p.z),
            k == d - p.z,
    ;
    let unit = 2 * s;
    let whole = unit * 2;
    assert(start.0 * 2 + k * dir.0 * unit == p.x * whole && start.1 * 2 + k * dir.1 * unit == p.y
        * whole) by (nonlinear_arith)
        requires
            0 <= t <= 3,
            start.0 == crate::camera::unrotate(t, g * qx + lift, g * qy - lift).0,
            start.1 == crate::camera::unrotate(t, g * qx + lift, g * qy - lift).1,
            dir.0 == crate::camera::unrotate(t, -1, 1).0,
            dir.1 == crate::camera::unrotate(t, -1, 1).1,
            r == crate::camera::rotate(t, p.x as int, p.y as int),
            across == g * qx + lift - s * k,
            up == g * qy - lift + s * k,
            across == 2 * s * r.0,
            up == 2 * s * r.1,
            unit == 2 * s,
            whole == unit * 2,
    ;
    assert(start.2 * 2 + k * dir.2 * unit == p.z * whole) by (nonlinear_arith)
        requires
            start.2 == 2 * (s * d),
            dir.2 == -2,
            k == d - p.z,
            unit == 2 * s,
            whole == unit * 2,
    ;
}

/// The start of the ray of the pixel on which a cell is drawn can be
/// written in `i64`, as `ray_start` writes it.
proof fn lemma_ray_start_fits(camera: Viewpoint, p: IVec3)
    requires
        camera.is_valid(),
        on_a_pixel(camera, p),
    ensures
        ({
            let start = camera.unproject_spec(drawn_on(camera, p).0, drawn_on(camera, p).1);
            &&& ray_start(camera, p).x == start.0
            &&& ray_start(camera, p).y == start.1
            &&& ray_start(camera, p).z == start.2
            &&& ray_start(camera, p).unit == camera.unit_spec()
            &&& ray_start(camera, p).unit > 0
        }),
{
    crate::camera::lemma_viewpoint_ranges(camera);
    let s = camera.scale_spec();
    let g = camera.grain_spec();
    let r = crate::camera::rotate(camera.heading_spec().turns(), p.x as int, p.y as int);
    let drawn = camera.project_spec(p);
    crate::vector::lemma_product_bound(s, 2 * r.0 - p.z, 0xffff, 0x2_0000_0000);
    crate::vector::lemma_product_bound(s, 2 * r.1 + p.z, 0xffff, 0x2_0000_0000);
    crate::vector::lemma_product_bound(s, camera.distance_spec(), 0xffff, 0xffff);
    vstd::arithmetic::div_mod::lemma_fundamental_div_mod(drawn.0, g);
    vstd::arithmetic::div_mod::lemma_fundamental_div_mod(drawn.1, g);
    assert(g * (drawn.0 / g) == drawn.0);
    assert(g * (drawn.1 / g) == drawn.1);
}

/// The ray of a pixel passes through every cell that is drawn on the
/// pixel: a cell `p` that is drawn on a whole pixel, and that the camera is
/// pulled back far enough to have in front of it, is the cell at step
/// `distance - p.z` of the ray of that pixel.
pub proof fn lemma_ray_through_cell(camera: Viewpoint, p: IVec3)
    requires
        camera.is_valid(),
        on_a_pixel(camera, p),
        camera.distance_spec() >= p.z,
    ensures
        ray_cell(ray_start(camera, p), ray_direction(camera), camera.distance_spec() - p.z)
            == coordinates(p),
{
    lemma_ray_reaches_cell(camera, p);
    lemma_ray_start_fits(camera, p);
    let whole = camera.unit_spec() * 2;
    assert(longest_axis(ray_direction(camera)) == 2);
    crate::ray::lemma_round_whole(p.x as int, whole);
    crate::ray::lemma_round_whole(p.y as int, whole);
    crate::ray::lemma_round_whole(p.z as int, whole);
}

/// A ray that holds something at step `k`, and has stayed within the range
/// of `i32` until then, meets the body at step `k` or before.
pub proof fn lemma_first_hit_exists<B: Body>(
    body: &B,
    origin: Fixed3,
    dir: IVec3,
    limit: int,
    k: int,
)
    requires
        0 <= k < limit,
        forall|j: int| 0 <= j <= k ==> representable(#[trigger] ray_cell(origin, dir, j)),
        body.sample_spec(cell_of(ray_cell(origin, dir, k))).is_some(),
    ensures
        ray_hits(body, origin, dir, limit),
    decreases k,
{
    if exists|j: int|
        0 <= j < k && body.sample_spec(cell_of(#[trigger] ray_cell(origin, dir, j))).is_some() {
        let j = choose|j: int|
            0 <= j < k && body.sample_spec(cell_of(#[trigger] ray_cell(origin, dir, j))).is_some();
        lemma_first_hit_exists(body, origin, dir, limit, j);
    } else {
        assert(ray_hits_at(body, origin, dir, limit, k));
    }
}

/// A picture leaves out no cell that lies open to the camera: the ray of
/// the pixel on which a cell of the body is drawn meets the body, at that
/// cell or in front of it. The cell must be drawn on a whole pixel, lie
/// less than `TRACE_LIMIT` steps in front of the camera, and lie at least
/// that far from the ends of `i32`.
pub proof fn lemma_drawn_cell_is_seen<B: Body>(body: &B, camera: Viewpoint, p: IVec3)
    requires
        camera.is_valid(),
        body.sample_spec(p).is_some(),
        on_a_pixel(camera, p),
        0 <= camera.distance_spec() - p.z < TRACE_LIMIT,
        i32::MIN + TRACE_LIMIT <= p.x <= i32::MAX - TRACE_LIMIT,
        i32::MIN + TRACE_LIMIT <= p.y <= i32::MAX - TRACE_LIMIT,
        i32::MIN + TRACE_LIMIT <= p.z <= i32::MAX - TRACE_LIMIT,
    ensures
        ray_hits(body, ray_start(camera, p), ray_direction(camera), TRACE_LIMIT as int),
{
    lemma_ray_through_cell(camera, p);
    lemma_ray_reaches_cell(camera, p);
    lemma_ray_start_fits(camera, p);
    let k = camera.distance_spec() - p.z;
    let origin = ray_start(camera, p);
    let dir = ray_direction(camera);
    let unit = camera.unit_spec();
    assert(longest_axis(dir) == 2);
    assert(cell_of(ray_cell(origin, dir, k)) == p);
    assert forall|j: int| 0 <= j <= k implies representable(#[trigger] ray_cell(origin, dir, j)) by {
        lemma_step_is_near(origin.x as int, unit, dir.x as int, p.x as int, k, j);
        lemma_step_is_near(origin.y as int, unit, dir.y as int, p.y as int, k, j);
        lemma_step_is_near(origin.z as int, unit, dir.z as int, p.z as int, k, j);
    }
    lemma_first_hit_exists(body, origin, dir, TRACE_LIMIT as int, k);
}

/// Along an axis a ray moves at most one cell a step: if step `k` of a ray
/// whose longest component is two lies on the whole number `at`, step `j`
/// before it lies within `k - j` of `at`.
proof fn lemma_step_is_near(origin: int, unit: int, dir: int, at: int, k: int, j: int)
    requires
        unit > 0,
        -2 <= dir <= 2,
        0 <= j <= k,
        cell_coordinate(origin, unit, dir, 2, k) == at,
        origin * 2 + k * dir * unit == at * (unit * 2),
    ensures
        at - (k - j) <= cell_coordinate(origin, unit, dir, 2, j) <= at + (k - j),
{
    let whole = unit * 2;
    let n = origin * 2 + j * dir * unit;
    assert((at - (k - j)) * whole <= n <= (at + (k - j)) * whole) by (nonlinear_arith)
        requires
            n == origin * 2 + j * dir * unit,
            origin * 2 + k * dir * unit == at * (unit * 2),
            whole == unit * 2,
            unit > 0,
            -2 <= dir <= 2,
            0 <= j <= k,
    ;
    crate::ray::lemma_round_is_ordered((at - (k - j)) * whole, n, whole);
    crate::ray::lemma_round_is_ordered(n, (at + (k - j)) * whole, whole);
    crate::ray::lemma_round_whole(at - (k - j), whole);
    crate::ray::lemma_round_whole(at + (k - j), whole);
}

/// The pixel of a picture on which cell `p` is drawn, for a cell that is
/// drawn on a whole pixel. `frame` is the origin and the size of the
/// picture on the screen.
pub open spec fn pixel_of(camera: Viewpoint, frame: (IVec2, IVec2), p: IVec3) -> IVec2 {
    IVec2 {
        x: (drawn_on(camera, p).0 - frame.0.x) as i32,
        y: (frame.1.y - 1 - (drawn_on(camera, p).1 - frame.0.y)) as i32,
    }
}

/// A picture shows what lies open to the camera: for a cell of the body
/// within its bounding box, the pixel on which the cell is drawn lies in
/// the frame of the picture, and its ray meets the body, at that cell or in
/// front of it. So `build_view` lists that pixel. The cell must be drawn on
/// a whole pixel, lie less than `TRACE_LIMIT` steps in front of the camera
/// and at least that far from the ends of `i32`, and the frame must be one
/// that `i32` can hold.
pub proof fn lemma_picture_shows_cell<B: Body>(body: &B, camera: Viewpoint, p: IVec3)
    requires
        camera.is_valid(),
        body.sample_spec(p).is_some(),
        crate::body::within(body.bounds(), p),
        body.bounds().frame_fits(camera),
        on_a_pixel(camera, p),
        0 <= camera.distance_spec() - p.z < TRACE_LIMIT,
        i32::MIN + TRACE_LIMIT <= p.x <= i32::MAX - TRACE_LIMIT,
        i32::MIN + TRACE_LIMIT <= p.y <= i32::MAX - TRACE_LIMIT,
        i32::MIN + TRACE_LIMIT <= p.z <= i32::MAX - TRACE_LIMIT,
    ensures
        ({
            let frame = body.bounds().screen_bounds_spec(camera);
            let pixel = pixel_of(camera, frame, p);
            &&& in_frame(frame.1, pixel)
            &&& ray_hits(
                body,
                pixel_origin(camera, frame, pixel),
                ray_direction(camera),
                TRACE_LIMIT as int,
            )
        }),
{
    crate::body::lemma_frame_holds_box(body.bounds(), camera, p);
    lemma_drawn_cell_is_seen(body, camera, p);
    let frame = body.bounds().screen_bounds_spec(camera);
    let pixel = pixel_of(camera, frame, p);
    let drawn = camera.project_spec(p);
    let g = camera.grain_spec();
    let q = drawn_on(camera, p);
    vstd::arithmetic::div_mod::lemma_fundamental_div_mod(drawn.0, g);
    vstd::arithmetic::div_mod::lemma_fundamental_div_mod(drawn.1, g);
    assert(frame.0.x <= q.0 < frame.0.x + frame.1.x && frame.0.y <= q.1 < frame.0.y + frame.1.y)
        by (nonlinear_arith)
        requires
            g > 0,
            drawn.0 == g * q.0,
            drawn.1 == g * q.1,
            g * frame.0.x <= drawn.0 < g * (frame.0.x + frame.1.x),
            g * frame.0.y <= drawn.1 < g * (frame.0.y + frame.1.y),
    ;
    assert(pixel.x + frame.0.x == q.0);
    assert(frame.1.y - pixel.y - 1 + frame.0.y == q.1);
}

} // verus!
