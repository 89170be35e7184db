//! Rebuilding a voxel model from sprites of it.
//!
//! Each sprite is a silhouette seen through one camera. A cell belongs to
//! the model when every sprite shows something where the cell would be
//! drawn. Its colour comes from the sprite whose camera faces the surface
//! at that cell most squarely.

use vstd::prelude::*;
use crate::body::{neighbour, Body, BoundingBox};
use crate::camera::Viewpoint;
use crate::focus::FocusImage;
use crate::raster::Color;
use crate::render::cell_of;
use crate::vector::{lemma_product_bound, round_div, round_ratio, IVec3};

verus! {

/// The half width of the cube of cells that `build_model` goes through.
pub const RADIUS: u16 = 64;

/// Why no model can be rebuilt.
#[derive(Clone, Copy, Debug, PartialEq, Eq, Hash, Structural)]
pub enum ModelError {
    /// There is no view to rebuild the model from.
    NoViews,
}

/// A sprite seen through a camera: one view of the model.
pub struct Prism {
    pub image: FocusImage,
    pub camera: Viewpoint,
}

/// What one view says of a cell: the colour it shows there and the
/// direction from which it looks.
#[derive(Clone, Copy, Debug, PartialEq, Eq, Hash, Structural)]
pub struct VoxelMatch {
    pub color: Color,
    pub normal: IVec3,
}

/// A cell of a rebuilt model and its colour.
#[derive(Clone, Copy, Debug, PartialEq, Eq, Hash, Structural)]
pub struct ColorVoxel {
    pub pos: IVec3,
    pub color: Color,
}

impl Prism {
    /// A view from a sprite and its camera.
    pub fn new(image: FocusImage, camera: Viewpoint) -> (prism: Prism)
        ensures
            prism.image == image,
            prism.camera == camera,
    {
        Prism { image, camera }
    }

    /// The direction from the model toward the viewer: against the rays of
    /// the camera.
    pub open spec fn facing_spec(&self) -> IVec3 {
        let f = self.camera.forward_spec();
        cell_of((-f.0, -f.1, -f.2))
    }

    /// The direction from the model toward the viewer.
    pub fn facing(&self) -> (n: IVec3)
        ensures
            n == self.facing_spec(),
    {
        let f = self.camera.forward();
        IVec3 { x: -f.x, y: -f.y, z: -f.z }
    }
}

impl Body for Prism {
    type Value = Color;

    /// What the view shows of a cell: the pixel of the sprite nearest to
    /// where the camera draws the cell. Half a pixel goes to the higher
    /// pixel.
    open spec fn sample_spec(&self, pos: IVec3) -> Option<Color> {
        let s = self.camera.project_spec(pos);
        self.image.lookup_spec(
            round_div(s.0, self.camera.grain_spec()),
            round_div(s.1, self.camera.grain_spec()),
        )
    }

    /// A view reports no extent.
    open spec fn bounds(&self) -> BoundingBox {
        BoundingBox::empty()
    }

    fn sample(&self, pos: IVec3) -> (value: Option<Color>) {
        let s = self.camera.project(pos);
        let x: i128 = round_ratio(s.x as i128, s.unit as i128);
        let y: i128 = round_ratio(s.y as i128, s.unit as i128);
        self.image.lookup(x as i64, y as i64)
    }

    fn bounding_box(&self) -> (bounds: BoundingBox) {
        BoundingBox::default()
    }
}

/// The inner product of two vectors.
pub open spec fn dot(a: IVec3, b: IVec3) -> int {
    a.x * b.x + a.y * b.y + a.z * b.z
}

/// Whether candidate `w` is the best match for a surface that faces along
/// `normal`: no candidate looks more squarely at the surface, and every
/// earlier one looks less squarely.
pub open spec fn is_best(matches: Seq<VoxelMatch>, normal: IVec3, w: int) -> bool {
    &&& 0 <= w < matches.len()
    &&& forall|v: int|
        0 <= v < matches.len() ==> dot((#[trigger] matches[v]).normal, normal) <= dot(
            matches[w].normal,
            normal,
        )
    &&& forall|v: int|
        0 <= v < w ==> dot((#[trigger] matches[v]).normal, normal) < dot(matches[w].normal, normal)
}

/// The index of the best match.
pub open spec fn best_index(matches: Seq<VoxelMatch>, normal: IVec3) -> int {
    choose|w: int| is_best(matches, normal, w)
}

/// At most one candidate is the best match.
pub proof fn lemma_best_unique(matches: Seq<VoxelMatch>, normal: IVec3, a: int, b: int)
    requires
        is_best(matches, normal, a),
        is_best(matches, normal, b),
    ensures
        a == b,
{
    if a < b {
        assert(dot(matches[a].normal, normal) < dot(matches[b].normal, normal));
        assert(dot(matches[b].normal, normal) <= dot(matches[a].normal, normal));
    } else if b < a {
        assert(dot(matches[b].normal, normal) < dot(matches[a].normal, normal));
        assert(dot(matches[a].normal, normal) <= dot(matches[b].normal, normal));
    }
}

fn inner_product(a: IVec3, b: IVec3) -> (d: i128)
    ensures
        d == dot(a, b),
{
    proof {
        lemma_product_bound(a.x as int, b.x as int, 0x8000_0000, 0x8000_0000);
        lemma_product_bound(a.y as int, b.y as int, 0x8000_0000, 0x8000_0000);
        lemma_product_bound(a.z as int, b.z as int, 0x8000_0000, 0x8000_0000);
    }
    a.x as i128 * b.x as i128 + a.y as i128 * b.y as i128 + a.z as i128 * b.z as i128
}

/// Picks the candidate whose view looks most squarely at a surface that
/// faces along `normal`: the one with the largest inner product of its
/// direction and `normal`. Among equals the first wins; so it does when
/// `normal` is zero. Of no candidates none is picked.
pub fn best_match(matches: &Vec<VoxelMatch>, normal: IVec3) -> (winner: Option<usize>)
    ensures
        match winner {
            Some(w) => is_best(matches@, normal, w as int) && w == best_index(matches@, normal),
            None => matches.len() == 0,
        },
{
    if matches.len() == 0 {
        return None;
    }
    let mut best: usize = 0;
    let mut best_score: i128 = inner_product(matches[0].normal, normal);
    let mut v: usize = 1;
    while v < matches.len()
        invariant
            1 <= v <= matches.len(),
            best < v,
            best_score == dot(matches[best as int].normal, normal),
            forall|u: int|
                0 <= u < v ==> dot((#[trigger] matches[u]).normal, normal) <= best_score,
            forall|u: int|
                0 <= u < best ==> dot((#[trigger] matches[u]).normal, normal) < best_score,
        decreases matches.len() - v,
    {
        let score: i128 = inner_product(matches[v].normal, normal);
        if score > best_score {
            best = v;
            best_score = score;
        }
        v += 1;
    }
    proof {
        assert(is_best(matches@, normal, best as int));
        lemma_best_unique(matches@, normal, best as int, best_index(matches@, normal));
    }
    Some(best)
}

/// Whether `pos` lies in the cube of half width `radius` about the origin.
pub open spec fn in_cube(pos: IVec3, radius: int) -> bool {
    &&& -radius <= pos.x <= radius
    &&& -radius <= pos.y <= radius
    &&& -radius <= pos.z <= radius
}

/// Whether every view shows something at `pos`.
#[verifier::opaque]
pub open spec fn all_see(views: Seq<Prism>, pos: IVec3) -> bool {
    forall|v: int| 0 <= v < views.len() ==> (#[trigger] views[v]).sample_spec(pos).is_some()
}

/// Whether `pos` belongs to the model that the views give: it lies in the
/// cube, and every view shows something there.
pub open spec fn is_solid(views: Seq<Prism>, radius: int, pos: IVec3) -> bool {
    in_cube(pos, radius) && all_see(views, pos)
}

/// One if the neighbour of `pos` in the given direction is not part of the
/// model, so that the face of `pos` on that side lies open; else zero.
pub open spec fn open_face(
    views: Seq<Prism>,
    radius: int,
    pos: IVec3,
    dx: int,
    dy: int,
    dz: int,
) -> int {
    if is_solid(views, radius, neighbour(pos, dx, dy, dz)) {
        0
    } else {
        1
    }
}

/// The sum of the steps from `pos` through its open faces: a rough normal
/// of the surface at `pos`. It is zero for a cell without an open face, and
/// for one whose open faces cancel.
pub open spec fn surface_normal(views: Seq<Prism>, radius: int, pos: IVec3) -> IVec3 {
    IVec3 {
        x: (open_face(views, radius, pos, 1, 0, 0) - open_face(views, radius, pos, -1, 0, 0)) as i32,
        y: (open_face(views, radius, pos, 0, 1, 0) - open_face(views, radius, pos, 0, -1, 0)) as i32,
        z: (open_face(views, radius, pos, 0, 0, 1) - open_face(views, radius, pos, 0, 0, -1)) as i32,
    }
}

/// What view `v` says of `pos`.
pub open spec fn candidate(views: Seq<Prism>, pos: IVec3, v: int) -> VoxelMatch {
    VoxelMatch { color: views[v].sample_spec(pos).unwrap(), normal: views[v].facing_spec() }
}

/// What the views say of `pos`, in their order.
pub open spec fn candidates(views: Seq<Prism>, pos: IVec3) -> Seq<VoxelMatch> {
    Seq::new(views.len(), |v: int| candidate(views, pos, v))
}

/// The colour of `pos` in the model: that of the best match for its
/// surface normal.
pub open spec fn resolved_color(views: Seq<Prism>, radius: int, pos: IVec3) -> Color {
    let matches = candidates(views, pos);
    matches[best_index(matches, surface_normal(views, radius, pos))].color
}

/// Whether cell `a` comes before cell `b` when the cube is gone through
/// layer by layer from the bottom, each layer row by row, each row along x.
pub open spec fn scan_before(a: IVec3, b: IVec3) -> bool {
    a.z < b.z || (a.z == b.z && (a.y < b.y || (a.y == b.y && a.x < b.x)))
}

/// Whether a model lists `pos`.
pub open spec fn has_voxel(model: Seq<ColorVoxel>, pos: IVec3) -> bool {
    exists|i: int| 0 <= i < model.len() && (#[trigger] model[i]).pos == pos
}

/// Asks every view about `pos`. The answer holds what each view shows
/// there, or nothing if one of them shows nothing.
pub fn collect_matches(views: &Vec<Prism>, pos: IVec3) -> (matches: Option<Vec<VoxelMatch>>)
    ensures
        matches.is_some() == all_see(views@, pos),
        matches matches Some(m) ==> m@ == candidates(views@, pos),
{
    let mut matches: Vec<VoxelMatch> = Vec::new();
    let mut v: usize = 0;
    while v < views.len()
        invariant
            v <= views.len(),
            matches.len() == v,
            forall|u: int| 0 <= u < v ==> (#[trigger] views[u]).sample_spec(pos).is_some(),
            forall|u: int| 0 <= u < v ==> #[trigger] matches[u] == candidate(views@, pos, u),
        decreases views.len() - v,
    {
        match views[v].sample(pos) {
            Some(color) => {
                matches.push(VoxelMatch { color, normal: views[v].facing() });
            },
            None => {
                proof {
                    reveal(all_see);
                }
                return None;
            },
        }
        v += 1;
    }
    proof {
        reveal(all_see);
        assert(matches@ =~= candidates(views@, pos));
    }
    Some(matches)
}

fn solid(views: &Vec<Prism>, radius: u16, pos: IVec3) -> (inside: bool)
    ensures
        inside == is_solid(views@, radius as int, pos),
{
    let r: i32 = radius as i32;
    if pos.x < -r || pos.x > r || pos.y < -r || pos.y > r || pos.z < -r || pos.z > r {
        return false;
    }
    collect_matches(views, pos).is_some()
}

fn face(views: &Vec<Prism>, radius: u16, pos: IVec3) -> (open: i32)
    ensures
        open == if is_solid(views@, radius as int, pos) {
            0int
        } else {
            1int
        },
{
    if solid(views, radius, pos) {
        0
    } else {
        1
    }
}

fn surface(views: &Vec<Prism>, radius: u16, pos: IVec3) -> (n: IVec3)
    requires
        in_cube(pos, radius as int),
    ensures
        n == surface_normal(views@, radius as int, pos),
{
    let east: i32 = face(views, radius, IVec3 { x: pos.x + 1, y: pos.y, z: pos.z });
    let west: i32 = face(views, radius, IVec3 { x: pos.x - 1, y: pos.y, z: pos.z });
    let north: i32 = face(views, radius, IVec3 { x: pos.x, y: pos.y + 1, z: pos.z });
    let south: i32 = face(views, radius, IVec3 { x: pos.x, y: pos.y - 1, z: pos.z });
    let up: i32 = face(views, radius, IVec3 { x: pos.x, y: pos.y, z: pos.z + 1 });
    let down: i32 = face(views, radius, IVec3 { x: pos.x, y: pos.y, z: pos.z - 1 });
    IVec3 { x: east - west, y: north - south, z: up - down }
}

/// Whether `model` is the model that the views give within the cube of
/// half width `radius`: it lists, in the order of `scan_before`, each cell
/// of the cube at which every view shows something, with its resolved
/// colour.
pub open spec fn is_model_of(model: Seq<ColorVoxel>, views: Seq<Prism>, radius: int) -> bool {
    &&& forall|i: int|
        0 <= i < model.len() ==> is_solid(views, radius, (#[trigger] model[i]).pos)
            && model[i].color == resolved_color(views, radius, model[i].pos)
    &&& forall|pos: IVec3| is_solid(views, radius, pos) ==> #[trigger] has_voxel(model, pos)
    &&& forall|i: int, j: int|
        0 <= i < j < model.len() ==> scan_before(
            (#[trigger] model[i]).pos,
            (#[trigger] model[j]).pos,
        )
}

/// Rebuilds the model that the views agree on within the cube of half
/// width `radius` about the origin. Without a view there is nothing to
/// agree on, and the request is refused.
pub fn build_model_within(views: &Vec<Prism>, radius: u16) -> (model: Result<
    Vec<ColorVoxel>,
    ModelError,
>)
    ensures
        match model {
            Ok(model) => views.len() > 0 && is_model_of(model@, views@, radius as int),
            Err(ModelError::NoViews) => views.len() == 0,
        },
{
    if views.len() == 0 {
        return Err(ModelError::NoViews);
    }
    let r: i32 = radius as i32;
    let mut model: Vec<ColorVoxel> = Vec::new();
    let mut pos = IVec3 { x: -r, y: -r, z: -r };
    while pos.z <= r
        invariant
            r == radius,
            views.len() > 0,
            -r <= pos.x <= r,
            -r <= pos.y <= r,
            -r <= pos.z <= r + 1,
            forall|i: int|
                0 <= i < model.len() ==> is_solid(views@, r as int, (#[trigger] model[i]).pos)
                    && model[i].color == resolved_color(views@, r as int, model[i].pos),
            forall|i: int| 0 <= i < model.len() ==> scan_before((#[trigger] model[i]).pos, pos),
            forall|p: IVec3|
                is_solid(views@, r as int, p) && scan_before(p, pos) ==> #[trigger] has_voxel(
                    model@,
                    p,
                ),
            forall|i: int, j: int|
                0 <= i < j < model.len() ==> scan_before(
                    (#[trigger] model[i]).pos,
                    (#[trigger] model[j]).pos,
                ),
        decreases r + 1 - pos.z, r - pos.y, r - pos.x,
    {
        let ghost before = model@;
        let here = pos;
        match collect_matches(views, here) {
            Some(matches) => {
                let normal = surface(views, radius, here);
                match best_match(&matches, normal) {
                    Some(w) => {
                        model.push(ColorVoxel { pos: here, color: matches[w].color });
                    },
                    None => {
                        // Every view has its say, and there is a view.
                        assert(false);
                    },
                }
                proof {
                    assert(model@[before.len() as int].pos == here);
                    assert(has_voxel(model@, here));
                }
            },
            None => {},
        }
        if pos.x < r {
            pos.x = pos.x + 1;
        } else if pos.y < r {
            pos.x = -r;
            pos.y = pos.y + 1;
        } else {
            pos.x = -r;
            pos.y = -r;
            pos.z = pos.z + 1;
        }
        proof {
            assert forall|p: IVec3|
                is_solid(views@, r as int, p) && scan_before(p, pos) implies #[trigger] has_voxel(
                model@,
                p,
            ) by {
                if p == here {
                } else {
                    assert(scan_before(p, here));
                    assert(has_voxel(before, p));
                    let i = choose|i: int| 0 <= i < before.len() && (#[trigger] before[i]).pos == p;
                    assert(model@[i] == before[i]);
                }
            }
        }
    }
    proof {
        assert forall|p: IVec3| is_solid(views@, r as int, p) implies #[trigger] has_voxel(
            model@,
            p,
        ) by {
            assert(scan_before(p, pos));
        }
    }
    Ok(model)
}

/// Rebuilds the model that the views agree on within `RADIUS` cells of the
/// origin along each axis. Without a view the request is refused.
pub fn build_model(views: &Vec<Prism>) -> (model: Result<Vec<ColorVoxel>, ModelError>)
    ensures
        match model {
            Ok(model) => views.len() > 0 && is_model_of(model@, views@, RADIUS as int),
            Err(ModelError::NoViews) => views.len() == 0,
        },
{
    build_model_within(views, RADIUS)
}

/// A cell that one view shows nothing of is no part of the model, whatever
/// the other views show.
pub proof fn lemma_one_view_excludes(views: Seq<Prism>, radius: int, pos: IVec3, v: int)
    requires
        0 <= v < views.len(),
        views[v].sample_spec(pos).is_none(),
    ensures
        !is_solid(views, radius, pos),
{
    reveal(all_see);
}

/// Where every view shows something at every cell of the cube, the model
/// is the whole cube.
pub proof fn lemma_full_cube(views: Seq<Prism>, radius: int)
    requires
        forall|pos: IVec3| in_cube(pos, radius) ==> #[trigger] all_see(views, pos),
    ensures
        forall|pos: IVec3| #[trigger] is_solid(views, radius, pos) == in_cube(pos, radius),
{
}

} // verus!
