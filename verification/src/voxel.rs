//! Sparse voxel models with an indexed colour palette.

use vstd::prelude::*;
use crate::body::{Body, BoundingBox};
use crate::raster::Color;
use crate::vector::{abs_int, min_int, IVec3};

verus! {

/// One occupied cell of a model and its palette index.
#[derive(Clone, Copy, Debug, PartialEq, Eq, Hash, Structural)]
pub struct Voxel {
    pub x: u8,
    pub y: u8,
    pub z: u8,
    pub i: u8,
}

/// The extent of a model along each axis.
#[derive(Clone, Copy, Debug, PartialEq, Eq, Hash, Structural)]
pub struct Size {
    pub x: u32,
    pub y: u32,
    pub z: u32,
}

/// A sparse voxel model: its extent and its occupied cells.
pub struct Model {
    pub size: Size,
    pub voxels: Vec<Voxel>,
}

/// A voxel scene: models that share one palette.
pub struct DotVoxData {
    pub models: Vec<Model>,
    pub palette: Vec<Color>,
}

/// Whether `v` sits at cell `(x, y, z)`.
pub open spec fn occupies(v: Voxel, x: int, y: int, z: int) -> bool {
    v.x == x && v.y == y && v.z == z
}

/// Whether `j` is the first voxel of the list that sits at `(x, y, z)`.
pub open spec fn first_at(voxels: Seq<Voxel>, x: int, y: int, z: int, j: int) -> bool {
    &&& 0 <= j < voxels.len()
    &&& occupies(voxels[j], x, y, z)
    &&& forall|k: int| 0 <= k < j ==> !occupies(#[trigger] voxels[k], x, y, z)
}

/// The index of the first voxel at `(x, y, z)`, if the cell is occupied.
pub open spec fn find_voxel(voxels: Seq<Voxel>, x: int, y: int, z: int) -> Option<int> {
    if exists|j: int| first_at(voxels, x, y, z, j) {
        Some(choose|j: int| first_at(voxels, x, y, z, j))
    } else {
        None
    }
}

/// At most one index is the first voxel at a cell.
pub proof fn lemma_first_at_unique(voxels: Seq<Voxel>, x: int, y: int, z: int, a: int, b: int)
    requires
        first_at(voxels, x, y, z, a),
        first_at(voxels, x, y, z, b),
    ensures
        a == b,
{
    if a < b {
        assert(!occupies(voxels[a], x, y, z));
    } else if b < a {
        assert(!occupies(voxels[b], x, y, z));
    }
}

/// Finds the first voxel at `(x, y, z)`.
pub fn voxel_position(voxels: &Vec<Voxel>, x: u8, y: u8, z: u8) -> (found: Option<usize>)
    ensures
        match found {
            Some(j) => find_voxel(voxels@, x as int, y as int, z as int) == Some(j as int),
            None => find_voxel(voxels@, x as int, y as int, z as int).is_none(),
        },
        found matches Some(j) ==> first_at(voxels@, x as int, y as int, z as int, j as int),
        found.is_none() ==> forall|k: int|
            0 <= k < voxels.len() ==> !occupies(#[trigger] voxels[k], x as int, y as int, z as int),
{
    let mut j: usize = 0;
    while j < voxels.len()
        invariant
            j <= voxels.len(),
            forall|k: int| 0 <= k < j ==> !occupies(#[trigger] voxels[k], x as int, y as int, z as int),
        decreases voxels.len() - j,
    {
        let v = voxels[j];
        if v.x == x && v.y == y && v.z == z {
            proof {
                assert(first_at(voxels@, x as int, y as int, z as int, j as int));
                let c = choose|c: int| first_at(voxels@, x as int, y as int, z as int, c);
                lemma_first_at_unique(voxels@, x as int, y as int, z as int, c, j as int);
            }
            return Some(j);
        }
        j += 1;
    }
    proof {
        assert forall|c: int| !first_at(voxels@, x as int, y as int, z as int, c) by {
            if 0 <= c < voxels.len() {
                assert(!occupies(voxels[c], x as int, y as int, z as int));
            }
        }
    }
    None
}

/// How far apart two colours are: the sum of the differences of their red,
/// green and blue parts. Alpha does not count.
pub open spec fn color_distance(p: Color, c: Color) -> int {
    abs_int(p.r - c.r) + abs_int(p.g - c.g) + abs_int(p.b - c.b)
}

/// Whether entry `k` is the palette's nearest colour to `color`: none is
/// nearer, and every earlier one is farther.
pub open spec fn is_nearest(palette: Seq<Color>, color: Color, k: int) -> bool {
    &&& 0 <= k < palette.len()
    &&& forall|j: int|
        0 <= j < palette.len() ==> color_distance(palette[k], color) <= color_distance(
            #[trigger] palette[j],
            color,
        )
    &&& forall|j: int|
        0 <= j < k ==> color_distance(#[trigger] palette[j], color) > color_distance(
            palette[k],
            color,
        )
}

/// The index of the palette's nearest colour to `color`.
pub open spec fn nearest_index(palette: Seq<Color>, color: Color) -> int {
    choose|k: int| is_nearest(palette, color, k)
}

/// At most one entry is the nearest.
pub proof fn lemma_nearest_unique(palette: Seq<Color>, color: Color, a: int, b: int)
    requires
        is_nearest(palette, color, a),
        is_nearest(palette, color, b),
    ensures
        a == b,
{
    if a < b {
        assert(color_distance(palette[a], color) > color_distance(palette[b], color));
        assert(color_distance(palette[a], color) <= color_distance(palette[b], color));
    } else if b < a {
        assert(color_distance(palette[b], color) > color_distance(palette[a], color));
        assert(color_distance(palette[b], color) <= color_distance(palette[a], color));
    }
}

fn distance(p: Color, c: Color) -> (d: u32)
    ensures
        d == color_distance(p, c),
{
    let dr: u32 = if p.r >= c.r { (p.r - c.r) as u32 } else { (c.r - p.r) as u32 };
    let dg: u32 = if p.g >= c.g { (p.g - c.g) as u32 } else { (c.g - p.g) as u32 };
    let db: u32 = if p.b >= c.b { (p.b - c.b) as u32 } else { (c.b - p.b) as u32 };
    dr + dg + db
}

/// Finds the palette entry nearest to `color`; among equally near ones, the
/// first.
pub fn nearest_color(palette: &Vec<Color>, color: Color) -> (k: usize)
    requires
        palette.len() > 0,
    ensures
        is_nearest(palette@, color, k as int),
        k == nearest_index(palette@, color),
{
    let mut best: usize = 0;
    let mut best_distance: u32 = distance(palette[0], color);
    let mut j: usize = 1;
    while j < palette.len()
        invariant
            1 <= j <= palette.len(),
            best < j,
            best_distance == color_distance(palette[best as int], color),
            forall|m: int|
                0 <= m < j ==> best_distance <= color_distance(#[trigger] palette[m], color),
            forall|m: int|
                0 <= m < best ==> color_distance(#[trigger] palette[m], color) > best_distance,
        decreases palette.len() - j,
    {
        let d: u32 = distance(palette[j], color);
        if d < best_distance {
            best = j;
            best_distance = d;
        }
        j += 1;
    }
    proof {
        assert(is_nearest(palette@, color, best as int));
        lemma_nearest_unique(palette@, color, best as int, nearest_index(palette@, color));
    }
    best
}

/// The low eight bits of a whole number.
pub open spec fn low_byte(v: int) -> u8 {
    (v % 256) as u8
}

fn low_byte_of(v: i32) -> (b: u8)
    ensures
        b == low_byte(v as int),
{
    let r: i32 = v % 256;
    if r < 0 {
        (r + 256) as u8
    } else {
        r as u8
    }
}

/// The voxel that painting cell `pos` with `color` puts into a model: the
/// cell's coordinates and the nearest palette index, each cut to a byte.
pub open spec fn painted_voxel(palette: Seq<Color>, pos: IVec3, color: Color) -> Voxel {
    Voxel {
        x: low_byte(pos.x as int),
        y: low_byte(pos.y as int),
        z: low_byte(pos.z as int),
        i: low_byte(nearest_index(palette, color)),
    }
}

/// A voxel list after `v` is set: the first voxel at `v`'s cell takes `v`'s
/// palette index, or, if the cell is empty, `v` is added at the end.
pub open spec fn with_voxel(voxels: Seq<Voxel>, v: Voxel) -> Seq<Voxel> {
    match find_voxel(voxels, v.x as int, v.y as int, v.z as int) {
        Some(j) => voxels.update(j, v),
        None => voxels.push(v),
    }
}

/// Painting single voxels of a scene.
pub trait DotVoxExt {
    /// Whether a voxel of model `model_idx` can be set: the model exists and
    /// there is a palette to pick from.
    spec fn accepts_voxel(&self, model_idx: usize) -> bool;

    /// Sets the voxel at `pos` of model `model_idx` to the palette colour
    /// nearest to `color`.
    fn set_voxel(&mut self, model_idx: usize, pos: IVec3, color: Color)
        requires
            old(self).accepts_voxel(model_idx),
    ;
}

impl DotVoxExt for DotVoxData {
    open spec fn accepts_voxel(&self, model_idx: usize) -> bool {
        model_idx < self.models.len() && self.palette.len() > 0
    }

    fn set_voxel(&mut self, model_idx: usize, pos: IVec3, color: Color)
        ensures
            final(self).palette == old(self).palette,
            final(self).models@ == old(self).models@.update(
                model_idx as int,
                final(self).models[model_idx as int],
            ),
            final(self).models[model_idx as int].size == old(self).models[model_idx as int].size,
            final(self).models[model_idx as int].voxels@ == with_voxel(
                old(self).models[model_idx as int].voxels@,
                painted_voxel(old(self).palette@, pos, color),
            ),
    {
        let palette_idx: usize = nearest_color(&self.palette, color);
        let voxel = Voxel {
            x: low_byte_of(pos.x),
            y: low_byte_of(pos.y),
            z: low_byte_of(pos.z),
            i: (palette_idx % 256) as u8,
        };
        match voxel_position(&self.models[model_idx].voxels, voxel.x, voxel.y, voxel.z) {
            Some(j) => {
                self.models[model_idx].voxels[j].i = voxel.i;
            },
            None => {
                self.models[model_idx].voxels.push(voxel);
            },
        }
    }
}

/// Whether `bounds` is the tight box of the voxels: every voxel lies
/// between its corners, and each face of it is touched by some voxel. Both
/// corners belong to the box: the highest corner is the highest occupied
/// cell, not the one after it.
pub open spec fn is_tight(voxels: Seq<Voxel>, bounds: BoundingBox) -> bool {
    &&& forall|j: int|
        0 <= j < voxels.len() ==> {
            &&& bounds.min.x <= (#[trigger] voxels[j]).x <= bounds.max.x
            &&& bounds.min.y <= voxels[j].y <= bounds.max.y
            &&& bounds.min.z <= voxels[j].z <= bounds.max.z
        }
    &&& exists|j: int| 0 <= j < voxels.len() && (#[trigger] voxels[j]).x == bounds.min.x
    &&& exists|j: int| 0 <= j < voxels.len() && (#[trigger] voxels[j]).y == bounds.min.y
    &&& exists|j: int| 0 <= j < voxels.len() && (#[trigger] voxels[j]).z == bounds.min.z
    &&& exists|j: int| 0 <= j < voxels.len() && (#[trigger] voxels[j]).x == bounds.max.x
    &&& exists|j: int| 0 <= j < voxels.len() && (#[trigger] voxels[j]).y == bounds.max.y
    &&& exists|j: int| 0 <= j < voxels.len() && (#[trigger] voxels[j]).z == bounds.max.z
}

/// The tight box of the voxels, or the empty box where there are none.
pub open spec fn tight_bounds(voxels: Seq<Voxel>) -> BoundingBox {
    if voxels.len() == 0 {
        BoundingBox::empty()
    } else {
        choose|bounds: BoundingBox| is_tight(voxels, bounds)
    }
}

/// A voxel list has at most one tight box.
pub proof fn lemma_tight_unique(voxels: Seq<Voxel>, a: BoundingBox, b: BoundingBox)
    requires
        is_tight(voxels, a),
        is_tight(voxels, b),
    ensures
        a == b,
{
    assert(a.min.x == b.min.x);
    assert(a.min.y == b.min.y);
    assert(a.min.z == b.min.z);
    assert(a.max.x == b.max.x);
    assert(a.max.y == b.max.y);
    assert(a.max.z == b.max.z);
}

impl Model {
    /// Whether `pos` lies within the extent of the model.
    pub open spec fn in_bounds(&self, pos: IVec3) -> bool {
        &&& 0 <= pos.x < self.size.x
        &&& 0 <= pos.y < self.size.y
        &&& 0 <= pos.z < self.size.z
    }
}

impl Body for Model {
    type Value = u8;

    /// The palette index of the first voxel listed at `pos`, for a `pos`
    /// within the extent of the model. Voxels have byte coordinates: in a
    /// model that extends beyond 256 cells, the cells from 255 on along an
    /// axis all read the voxels at 255.
    open spec fn sample_spec(&self, pos: IVec3) -> Option<u8> {
        if self.in_bounds(pos) {
            match find_voxel(
                self.voxels@,
                min_int(pos.x as int, 255),
                min_int(pos.y as int, 255),
                min_int(pos.z as int, 255),
            ) {
                Some(j) => Some(self.voxels[j].i),
                None => None,
            }
        } else {
            None
        }
    }

    open spec fn bounds(&self) -> BoundingBox {
        tight_bounds(self.voxels@)
    }

    fn sample(&self, pos: IVec3) -> (value: Option<u8>) {
        if pos.x < 0 || pos.y < 0 || pos.z < 0 {
            return None;
        }
        if pos.x as u32 >= self.size.x || pos.y as u32 >= self.size.y || pos.z as u32
            >= self.size.z {
            return None;
        }
        let x: u8 = if pos.x > 255 { 255 } else { pos.x as u8 };
        let y: u8 = if pos.y > 255 { 255 } else { pos.y as u8 };
        let z: u8 = if pos.z > 255 { 255 } else { pos.z as u8 };
        match voxel_position(&self.voxels, x, y, z) {
            Some(j) => Some(self.voxels[j].i),
            None => None,
        }
    }

    fn bounding_box(&self) -> (bounds: BoundingBox)
        ensures
            self.voxels.len() > 0 ==> is_tight(self.voxels@, bounds),
    {
        if self.voxels.len() == 0 {
            return BoundingBox::default();
        }
        let first = self.voxels[0];
        let mut min_x: u8 = first.x;
        let mut min_y: u8 = first.y;
        let mut min_z: u8 = first.z;
        let mut max_x: u8 = first.x;
        let mut max_y: u8 = first.y;
        let mut max_z: u8 = first.z;
        let mut k: usize = 1;
        proof {
            assert(self.voxels@.subrange(0, 1)[0] == first);
        }
        while k < self.voxels.len()
            invariant
                1 <= k <= self.voxels.len(),
                is_tight(
                    self.voxels@.subrange(0, k as int),
                    BoundingBox {
                        min: IVec3 { x: min_x as i32, y: min_y as i32, z: min_z as i32 },
                        max: IVec3 { x: max_x as i32, y: max_y as i32, z: max_z as i32 },
                    },
                ),
            decreases self.voxels.len() - k,
        {
            let v = self.voxels[k];
            let ghost seen = self.voxels@.subrange(0, k as int);
            let ghost more = self.voxels@.subrange(0, k + 1);
            let ghost old_bounds = BoundingBox {
                min: IVec3 { x: min_x as i32, y: min_y as i32, z: min_z as i32 },
                max: IVec3 { x: max_x as i32, y: max_y as i32, z: max_z as i32 },
            };
            proof {
                let ax = choose|j: int| 0 <= j < seen.len() && (#[trigger] seen[j]).x == old_bounds.min.x;
                let ay = choose|j: int| 0 <= j < seen.len() && (#[trigger] seen[j]).y == old_bounds.min.y;
                let az = choose|j: int| 0 <= j < seen.len() && (#[trigger] seen[j]).z == old_bounds.min.z;
                let bx = choose|j: int| 0 <= j < seen.len() && (#[trigger] seen[j]).x == old_bounds.max.x;
                let by = choose|j: int| 0 <= j < seen.len() && (#[trigger] seen[j]).y == old_bounds.max.y;
                let bz = choose|j: int| 0 <= j < seen.len() && (#[trigger] seen[j]).z == old_bounds.max.z;
                assert(more[ax] == seen[ax] && more[ay] == seen[ay] && more[az] == seen[az]);
                assert(more[bx] == seen[bx] && more[by] == seen[by] && more[bz] == seen[bz]);
                assert(more[k as int] == v);
                assert forall|j: int| 0 <= j < k implies #[trigger] more[j] == seen[j] by {}
            }
            if v.x < min_x {
                min_x = v.x;
            }
            if v.y < min_y {
                min_y = v.y;
            }
            if v.z < min_z {
                min_z = v.z;
            }
            if v.x > max_x {
                max_x = v.x;
            }
            if v.y > max_y {
                max_y = v.y;
            }
            if v.z > max_z {
                max_z = v.z;
            }
            k += 1;
        }
        let bounds = BoundingBox {
            min: IVec3 { x: min_x as i32, y: min_y as i32, z: min_z as i32 },
            max: IVec3 { x: max_x as i32, y: max_y as i32, z: max_z as i32 },
        };
        proof {
            assert(self.voxels@.subrange(0, self.voxels.len() as int) == self.voxels@);
            lemma_tight_unique(self.voxels@, bounds, tight_bounds(self.voxels@));
        }
        bounds
    }
}

/// A voxel that was set is the one that its cell reads: after `v` is set in
/// a voxel list, the first voxel at the cell of `v` carries the palette
/// index of `v`.
pub proof fn lemma_set_voxel_is_found(voxels: Seq<Voxel>, v: Voxel)
    ensures
        find_voxel(with_voxel(voxels, v), v.x as int, v.y as int, v.z as int) matches Some(j)
            && with_voxel(voxels, v)[j] == v,
{
    let (x, y, z) = (v.x as int, v.y as int, v.z as int);
    let after = with_voxel(voxels, v);
    let j = match find_voxel(voxels, x, y, z) {
        Some(j) => {
            assert(first_at(voxels, x, y, z, j));
            j
        },
        None => {
            assert forall|k: int| 0 <= k < voxels.len() implies !occupies(
                #[trigger] voxels[k],
                x,
                y,
                z,
            ) by {
                if occupies(voxels[k], x, y, z) {
                    lemma_first_exists(voxels, x, y, z, k);
                }
            }
            voxels.len() as int
        },
    };
    assert(after[j] == v);
    assert forall|k: int| 0 <= k < j implies !occupies(#[trigger] after[k], x, y, z) by {
        assert(after[k] == voxels[k]);
    }
    assert(first_at(after, x, y, z, j));
    lemma_first_at_unique(after, x, y, z, j, choose|c: int| first_at(after, x, y, z, c));
}

/// Where some voxel of a list sits at a cell, one of them is the first.
pub proof fn lemma_first_exists(voxels: Seq<Voxel>, x: int, y: int, z: int, k: int)
    requires
        0 <= k < voxels.len(),
        occupies(voxels[k], x, y, z),
    ensures
        exists|j: int| first_at(voxels, x, y, z, j),
    decreases k,
{
    if exists|m: int| 0 <= m < k && occupies(#[trigger] voxels[m], x, y, z) {
        let m = choose|m: int| 0 <= m < k && occupies(#[trigger] voxels[m], x, y, z);
        lemma_first_exists(voxels, x, y, z, m);
    } else {
        assert(first_at(voxels, x, y, z, k));
    }
}

/// Painting a cell of a model and then looking the cell up gives the
/// palette colour that was painted: for a cell within the model and within
/// byte range, `sample` after `set_voxel` returns the index of the palette
/// colour nearest to the colour that was set.
pub proof fn lemma_sample_after_set_voxel(
    size: Size,
    voxels: Seq<Voxel>,
    after: Model,
    palette: Seq<Color>,
    pos: IVec3,
    color: Color,
)
    requires
        after.size == size,
        after.voxels@ == with_voxel(voxels, painted_voxel(palette, pos, color)),
        after.in_bounds(pos),
        pos.x <= 255,
        pos.y <= 255,
        pos.z <= 255,
    ensures
        after.sample_spec(pos) == Some(low_byte(nearest_index(palette, color))),
{
    let v = painted_voxel(palette, pos, color);
    assert(v.x == pos.x && v.y == pos.y && v.z == pos.z);
    lemma_set_voxel_is_found(voxels, v);
}

/// A cell at which a model holds something lies within the bounding box of
/// the model, where the cell is within byte range.
pub proof fn lemma_sampled_cell_is_bounded(model: Model, pos: IVec3)
    requires
        model.sample_spec(pos).is_some(),
        pos.x <= 255,
        pos.y <= 255,
        pos.z <= 255,
    ensures
        crate::body::within(model.bounds(), pos),
{
    let j = choose|j: int| first_at(model.voxels@, pos.x as int, pos.y as int, pos.z as int, j);
    assert(first_at(model.voxels@, pos.x as int, pos.y as int, pos.z as int, j));
    let v = model.voxels@[j];
    assert(v.x == pos.x && v.y == pos.y && v.z == pos.z);
    lemma_tight_exists(model.voxels@, model.voxels@.len() as int);
    assert(model.voxels@.subrange(0, model.voxels@.len() as int) == model.voxels@);
}

/// The voxels up to `n` of a list that is not empty have a tight box.
pub proof fn lemma_tight_exists(voxels: Seq<Voxel>, n: int)
    requires
        1 <= n <= voxels.len(),
    ensures
        exists|bounds: BoundingBox| is_tight(voxels.subrange(0, n), bounds),
    decreases n,
{
    let part = voxels.subrange(0, n);
    let last = voxels[n - 1];
    if n == 1 {
        let b = BoundingBox {
            min: IVec3 { x: last.x as i32, y: last.y as i32, z: last.z as i32 },
            max: IVec3 { x: last.x as i32, y: last.y as i32, z: last.z as i32 },
        };
        assert(part[0] == last);
        assert(is_tight(part, b));
    } else {
        lemma_tight_exists(voxels, n - 1);
        let seen = voxels.subrange(0, n - 1);
        let old = choose|bounds: BoundingBox| is_tight(seen, bounds);
        let b = BoundingBox {
            min: IVec3 {
                x: min_int(old.min.x as int, last.x as int) as i32,
                y: min_int(old.min.y as int, last.y as int) as i32,
                z: min_int(old.min.z as int, last.z as int) as i32,
            },
            max: IVec3 {
                x: crate::vector::max_int(old.max.x as int, last.x as int) as i32,
                y: crate::vector::max_int(old.max.y as int, last.y as int) as i32,
                z: crate::vector::max_int(old.max.z as int, last.z as int) as i32,
            },
        };
        let ax = choose|j: int| 0 <= j < seen.len() && (#[trigger] seen[j]).x == old.min.x;
        let ay = choose|j: int| 0 <= j < seen.len() && (#[trigger] seen[j]).y == old.min.y;
        let az = choose|j: int| 0 <= j < seen.len() && (#[trigger] seen[j]).z == old.min.z;
        let bx = choose|j: int| 0 <= j < seen.len() && (#[trigger] seen[j]).x == old.max.x;
        let by = choose|j: int| 0 <= j < seen.len() && (#[trigger] seen[j]).y == old.max.y;
        let bz = choose|j: int| 0 <= j < seen.len() && (#[trigger] seen[j]).z == old.max.z;
        assert(part[ax] == seen[ax] && part[ay] == seen[ay] && part[az] == seen[az]);
        assert(part[bx] == seen[bx] && part[by] == seen[by] && part[bz] == seen[bz]);
        assert(part[n - 1] == last);
        assert forall|j: int| 0 <= j < n - 1 implies #[trigger] part[j] == seen[j] by {}
        let lx = if last.x < old.min.x { n - 1 } else { ax };
        let ly = if last.y < old.min.y { n - 1 } else { ay };
        let lz = if last.z < old.min.z { n - 1 } else { az };
        let hx = if last.x > old.max.x { n - 1 } else { bx };
        let hy = if last.y > old.max.y { n - 1 } else { by };
        let hz = if last.z > old.max.z { n - 1 } else { bz };
        assert(part[lx].x == b.min.x && part[ly].y == b.min.y && part[lz].z == b.min.z);
        assert(part[hx].x == b.max.x && part[hy].y == b.max.y && part[hz].z == b.max.z);
        assert(is_tight(part, b));
    }
}

/// The palette index that a voxel list gives for cell `(x, y, z)`: that of
/// the first voxel listed there, if any.
pub open spec fn index_at(voxels: Seq<Voxel>, x: int, y: int, z: int) -> Option<u8> {
    match find_voxel(voxels, x, y, z) {
        Some(j) => Some(voxels[j].i),
        None => None,
    }
}

/// A voxel list without the voxels at cell `(x, y, z)`; the others keep
/// their order.
pub open spec fn without_cell(voxels: Seq<Voxel>, x: int, y: int, z: int) -> Seq<Voxel>
    decreases voxels.len(),
{
    if voxels.len() == 0 {
        voxels
    } else {
        let rest = without_cell(voxels.drop_last(), x, y, z);
        if occupies(voxels.last(), x, y, z) {
            rest
        } else {
            rest.push(voxels.last())
        }
    }
}

/// A voxel added at the end of a list is read only where the list held
/// nothing.
pub proof fn lemma_index_at_push(voxels: Seq<Voxel>, last: Voxel, x: int, y: int, z: int)
    ensures
        index_at(voxels.push(last), x, y, z) == if index_at(voxels, x, y, z).is_some() {
            index_at(voxels, x, y, z)
        } else if occupies(last, x, y, z) {
            Some(last.i)
        } else {
            None
        },
{
    let more = voxels.push(last);
    if exists|j: int| first_at(voxels, x, y, z, j) {
        let j = choose|j: int| first_at(voxels, x, y, z, j);
        assert(more[j] == voxels[j]);
        assert forall|k: int| 0 <= k < j implies !occupies(#[trigger] more[k], x, y, z) by {
            assert(more[k] == voxels[k]);
        }
        assert(first_at(more, x, y, z, j));
        lemma_first_at_unique(more, x, y, z, j, choose|c: int| first_at(more, x, y, z, c));
    } else {
        assert forall|k: int| 0 <= k < voxels.len() implies !occupies(
            #[trigger] voxels[k],
            x,
            y,
            z,
        ) by {
            if occupies(voxels[k], x, y, z) {
                lemma_first_exists(voxels, x, y, z, k);
            }
        }
        let n = voxels.len() as int;
        assert(more[n] == last);
        if occupies(last, x, y, z) {
            assert forall|k: int| 0 <= k < n implies !occupies(#[trigger] more[k], x, y, z) by {
                assert(more[k] == voxels[k]);
            }
            assert(first_at(more, x, y, z, n));
            lemma_first_at_unique(more, x, y, z, n, choose|c: int| first_at(more, x, y, z, c));
        } else {
            assert forall|c: int| !first_at(more, x, y, z, c) by {
                if 0 <= c < n {
                    assert(more[c] == voxels[c]);
                }
            }
        }
    }
}

/// Taking the voxels of one cell out of a list empties that cell and
/// disturbs no other: the cell reads nothing, and every other cell reads
/// what it read before.
pub proof fn lemma_without_cell(voxels: Seq<Voxel>, x: int, y: int, z: int, a: int, b: int, c: int)
    ensures
        index_at(without_cell(voxels, x, y, z), x, y, z).is_none(),
        (a, b, c) != (x, y, z) ==> index_at(without_cell(voxels, x, y, z), a, b, c) == index_at(
            voxels,
            a,
            b,
            c,
        ),
    decreases voxels.len(),
{
    if voxels.len() == 0 {
        assert forall|j: int| !first_at(voxels, x, y, z, j) by {}
        assert forall|j: int| !first_at(voxels, a, b, c, j) by {}
    } else {
        let rest = voxels.drop_last();
        let last = voxels.last();
        assert(voxels == rest.push(last));
        lemma_without_cell(rest, x, y, z, a, b, c);
        lemma_index_at_push(rest, last, a, b, c);
        if !occupies(last, x, y, z) {
            lemma_index_at_push(without_cell(rest, x, y, z), last, x, y, z);
            lemma_index_at_push(without_cell(rest, x, y, z), last, a, b, c);
        }
    }
}

/// A cell whose voxels are taken out of a model holds nothing afterwards,
/// whatever its neighbours hold, and every other cell holds what it held
/// before. `q` is the emptied cell, within byte range; `after` is the model
/// without the voxels at `q`.
pub proof fn lemma_sample_without_cell(model: Model, after: Model, q: IVec3, p: IVec3)
    requires
        after.size == model.size,
        0 <= q.x <= 255,
        0 <= q.y <= 255,
        0 <= q.z <= 255,
        after.voxels@ == without_cell(model.voxels@, q.x as int, q.y as int, q.z as int),
    ensures
        after.sample_spec(q).is_none(),
        (min_int(p.x as int, 255), min_int(p.y as int, 255), min_int(p.z as int, 255)) != (
            q.x as int,
            q.y as int,
            q.z as int,
        ) ==> after.sample_spec(p) == model.sample_spec(p),
{
    lemma_without_cell(
        model.voxels@,
        q.x as int,
        q.y as int,
        q.z as int,
        min_int(p.x as int, 255),
        min_int(p.y as int, 255),
        min_int(p.z as int, 255),
    );
}

} // verus!
