//! Turning a rebuilt model into a voxel scene with an indexed palette.

use vstd::prelude::*;
use crate::raster::Color;
use crate::reconstruct::ColorVoxel;
use crate::vector::IVec3;
use crate::voxel::{DotVoxData, Model, Size, Voxel};

verus! {

/// The most colours that a palette holds.
pub const PALETTE_LIMIT: usize = 256;

/// The most cells along an axis that voxel coordinates of one byte reach.
pub const EXTENT_LIMIT: i64 = 256;

/// Why a model cannot be stored as a voxel scene.
#[derive(Clone, Copy, Debug, PartialEq, Eq, Hash, Structural)]
pub enum ExportError {
    /// The model has more different colours than a palette holds.
    PaletteOverflow,
    /// The model is longer along some axis than voxel coordinates reach.
    ExtentOverflow,
}

/// The different colours of a list in the order in which each turns up
/// first.
pub open spec fn distinct_colors(colors: Seq<Color>) -> Seq<Color>
    decreases colors.len(),
{
    if colors.len() == 0 {
        Seq::empty()
    } else {
        let seen = distinct_colors(colors.drop_last());
        if seen.contains(colors.last()) {
            seen
        } else {
            seen.push(colors.last())
        }
    }
}

/// The colours of the cells of a model, in the order of the cells.
pub open spec fn colors_of(model: Seq<ColorVoxel>) -> Seq<Color> {
    Seq::new(model.len(), |i: int| model[i].color)
}

/// Whether `low` and `high` are the lowest and the highest corner of the
/// tight box of the cells: every cell lies between them, and each of their
/// coordinates is that of some cell.
pub open spec fn is_extent(model: Seq<ColorVoxel>, low: IVec3, high: IVec3) -> bool {
    &&& forall|i: int|
        0 <= i < model.len() ==> {
            &&& low.x <= (#[trigger] model[i]).pos.x <= high.x
            &&& low.y <= model[i].pos.y <= high.y
            &&& low.z <= model[i].pos.z <= high.z
        }
    &&& exists|i: int| 0 <= i < model.len() && (#[trigger] model[i]).pos.x == low.x
    &&& exists|i: int| 0 <= i < model.len() && (#[trigger] model[i]).pos.y == low.y
    &&& exists|i: int| 0 <= i < model.len() && (#[trigger] model[i]).pos.z == low.z
    &&& exists|i: int| 0 <= i < model.len() && (#[trigger] model[i]).pos.x == high.x
    &&& exists|i: int| 0 <= i < model.len() && (#[trigger] model[i]).pos.y == high.y
    &&& exists|i: int| 0 <= i < model.len() && (#[trigger] model[i]).pos.z == high.z
}

/// The corners of the tight box of a model that has cells.
pub open spec fn extent(model: Seq<ColorVoxel>) -> (IVec3, IVec3) {
    choose|e: (IVec3, IVec3)| is_extent(model, e.0, e.1)
}

/// A model has at most one tight box.
pub proof fn lemma_extent_unique(model: Seq<ColorVoxel>, a: (IVec3, IVec3), b: (IVec3, IVec3))
    requires
        is_extent(model, a.0, a.1),
        is_extent(model, b.0, b.1),
    ensures
        a == b,
{
    assert(a.0.x == b.0.x);
    assert(a.0.y == b.0.y);
    assert(a.0.z == b.0.z);
    assert(a.1.x == b.1.x);
    assert(a.1.y == b.1.y);
    assert(a.1.z == b.1.z);
}

/// Whether the tight box of a model is no longer along any axis than voxel
/// coordinates reach.
pub open spec fn fits_bytes(low: IVec3, high: IVec3) -> bool {
    &&& high.x - low.x < EXTENT_LIMIT
    &&& high.y - low.y < EXTENT_LIMIT
    &&& high.z - low.z < EXTENT_LIMIT
}

/// The voxel that stands for cell `cell` of a model in a scene whose box
/// starts at `low` and whose palette is `palette`: the cell moved so that
/// `low` comes to the origin, and the first place of its colour in the
/// palette.
pub open spec fn stored_voxel(palette: Seq<Color>, low: IVec3, cell: ColorVoxel) -> Voxel {
    Voxel {
        x: (cell.pos.x - low.x) as u8,
        y: (cell.pos.y - low.y) as u8,
        z: (cell.pos.z - low.z) as u8,
        i: palette.index_of(cell.color) as u8,
    }
}

/// The distinct colours of a list hold no colour twice, hold every colour
/// of the list, and hold nothing else.
pub proof fn lemma_distinct_colors(colors: Seq<Color>)
    ensures
        distinct_colors(colors).no_duplicates(),
        forall|c: Color| distinct_colors(colors).contains(c) <==> colors.contains(c),
        distinct_colors(colors).len() <= colors.len(),
    decreases colors.len(),
{
    if colors.len() > 0 {
        let rest = colors.drop_last();
        let seen = distinct_colors(rest);
        lemma_distinct_colors(rest);
        assert forall|c: Color| distinct_colors(colors).contains(c) <==> colors.contains(c) by {
            if colors.contains(c) {
                let i = choose|i: int| 0 <= i < colors.len() && colors[i] == c;
                if i < colors.len() - 1 {
                    assert(rest[i] == c);
                    assert(rest.contains(c));
                    assert(seen.contains(c));
                    if !seen.contains(colors.last()) {
                        let j = choose|j: int| 0 <= j < seen.len() && seen[j] == c;
                        assert(seen.push(colors.last())[j] == c);
                    }
                } else {
                    assert(c == colors.last());
                    if !seen.contains(colors.last()) {
                        assert(seen.push(colors.last())[seen.len() as int] == c);
                    }
                }
            }
            if distinct_colors(colors).contains(c) {
                let j = choose|j: int|
                    0 <= j < distinct_colors(colors).len() && distinct_colors(colors)[j] == c;
                if j < seen.len() {
                    assert(seen[j] == c);
                    assert(seen.contains(c));
                    assert(rest.contains(c));
                    let i = choose|i: int| 0 <= i < rest.len() && rest[i] == c;
                    assert(colors[i] == c);
                } else {
                    assert(c == colors.last());
                    assert(colors[colors.len() - 1] == c);
                }
            }
        }
    }
}

/// The distinct colours of the start of a list are the start of the
/// distinct colours of the whole list.
pub proof fn lemma_distinct_prefix(colors: Seq<Color>, n: int)
    requires
        0 <= n <= colors.len(),
    ensures
        distinct_colors(colors.subrange(0, n)).len() <= distinct_colors(colors).len(),
        distinct_colors(colors.subrange(0, n)) == distinct_colors(colors).subrange(
            0,
            distinct_colors(colors.subrange(0, n)).len() as int,
        ),
    decreases colors.len() - n,
{
    if n == colors.len() {
        assert(colors.subrange(0, n) == colors);
        assert(distinct_colors(colors).subrange(0, distinct_colors(colors).len() as int)
            == distinct_colors(colors));
    } else {
        lemma_distinct_prefix(colors, n + 1);
        let longer = colors.subrange(0, n + 1);
        assert(longer.drop_last() == colors.subrange(0, n));
        let shorter = distinct_colors(colors.subrange(0, n));
        let whole = distinct_colors(colors);
        assert(shorter == whole.subrange(0, shorter.len() as int)) by {
            let mid = distinct_colors(longer);
            assert(mid == whole.subrange(0, mid.len() as int));
            assert(shorter == mid.subrange(0, shorter.len() as int));
        }
    }
}

fn find_color(palette: &Vec<Color>, color: Color) -> (found: Option<usize>)
    requires
        palette@.no_duplicates(),
    ensures
        match found {
            Some(k) => k < palette.len() && palette[k as int] == color && palette@.index_of(color)
                == k,
            None => !palette@.contains(color),
        },
{
    let mut k: usize = 0;
    while k < palette.len()
        invariant
            k <= palette.len(),
            palette@.no_duplicates(),
            forall|j: int| 0 <= j < k ==> palette[j] != color,
        decreases palette.len() - k,
    {
        if palette[k] == color {
            proof {
                assert(palette@[k as int] == color);
                let i = palette@.index_of(color);
                assert(0 <= i < palette@.len() && palette@[i] == color);
                if i != k {
                    assert(palette@[i] == palette@[k as int]);
                }
            }
            return Some(k);
        }
        k += 1;
    }
    None
}

struct Corners {
    low: IVec3,
    high: IVec3,
}

fn measure(model: &Vec<ColorVoxel>) -> (corners: Corners)
    requires
        model.len() > 0,
    ensures
        is_extent(model@, corners.low, corners.high),
        (corners.low, corners.high) == extent(model@),
{
    let first = model[0].pos;
    let mut low = first;
    let mut high = first;
    let mut k: usize = 1;
    proof {
        assert(model@.subrange(0, 1)[0] == model[0]);
    }
    while k < model.len()
        invariant
            1 <= k <= model.len(),
            is_extent(model@.subrange(0, k as int), low, high),
        decreases model.len() - k,
    {
        let p = model[k].pos;
        let ghost seen = model@.subrange(0, k as int);
        let ghost more = model@.subrange(0, k + 1);
        proof {
            let ax = choose|j: int| 0 <= j < seen.len() && (#[trigger] seen[j]).pos.x == low.x;
            let ay = choose|j: int| 0 <= j < seen.len() && (#[trigger] seen[j]).pos.y == low.y;
            let az = choose|j: int| 0 <= j < seen.len() && (#[trigger] seen[j]).pos.z == low.z;
            let bx = choose|j: int| 0 <= j < seen.len() && (#[trigger] seen[j]).pos.x == high.x;
            let by = choose|j: int| 0 <= j < seen.len() && (#[trigger] seen[j]).pos.y == high.y;
            let bz = choose|j: int| 0 <= j < seen.len() && (#[trigger] seen[j]).pos.z == high.z;
            assert(more[ax] == seen[ax] && more[ay] == seen[ay] && more[az] == seen[az]);
            assert(more[bx] == seen[bx] && more[by] == seen[by] && more[bz] == seen[bz]);
            assert(more[k as int] == model[k as int]);
            assert forall|j: int| 0 <= j < k implies #[trigger] more[j] == seen[j] by {}
        }
        if p.x < low.x {
            low.x = p.x;
        }
        if p.y < low.y {
            low.y = p.y;
        }
        if p.z < low.z {
            low.z = p.z;
        }
        if p.x > high.x {
            high.x = p.x;
        }
        if p.y > high.y {
            high.y = p.y;
        }
        if p.z > high.z {
            high.z = p.z;
        }
        k += 1;
    }
    proof {
        assert(model@.subrange(0, model.len() as int) == model@);
        lemma_extent_unique(model@, (low, high), extent(model@));
    }
    Corners { low, high }
}

/// Stores a rebuilt model as a voxel scene of one model. The palette holds
/// the different colours of the cells in the order in which they turn up.
/// The cells are moved so that the lowest corner of their tight box comes
/// to the origin, and the size of the model is the size of that box. A
/// model without cells gives an empty model and an empty palette.
pub fn to_scene(model: &Vec<ColorVoxel>) -> (scene: Result<DotVoxData, ExportError>)
    ensures
        match scene {
            Ok(scene) => {
                &&& distinct_colors(colors_of(model@)).len() <= PALETTE_LIMIT
                &&& scene.palette@ == distinct_colors(colors_of(model@))
                &&& scene.models.len() == 1
                &&& scene.models[0].voxels.len() == model.len()
                &&& model.len() == 0 ==> scene.models[0].size == (Size { x: 0, y: 0, z: 0 })
                &&& model.len() > 0 ==> {
                    let (low, high) = extent(model@);
                    &&& fits_bytes(low, high)
                    &&& scene.models[0].size.x == high.x - low.x + 1
                    &&& scene.models[0].size.y == high.y - low.y + 1
                    &&& scene.models[0].size.z == high.z - low.z + 1
                    &&& forall|i: int|
                        0 <= i < model.len() ==> #[trigger] scene.models[0].voxels[i]
                            == stored_voxel(scene.palette@, low, model[i])
                }
            },
            Err(ExportError::PaletteOverflow) => distinct_colors(colors_of(model@)).len()
                > PALETTE_LIMIT,
            Err(ExportError::ExtentOverflow) => distinct_colors(colors_of(model@)).len()
                <= PALETTE_LIMIT && model.len() > 0 && !fits_bytes(
                extent(model@).0,
                extent(model@).1,
            ),
        },
{
    let mut palette: Vec<Color> = Vec::new();
    let mut indices: Vec<u8> = Vec::new();
    let ghost colors = colors_of(model@);
    let mut k: usize = 0;
    while k < model.len()
        invariant
            k <= model.len(),
            colors == colors_of(model@),
            palette@ == distinct_colors(colors.subrange(0, k as int)),
            palette@.no_duplicates(),
            palette.len() <= PALETTE_LIMIT,
            indices.len() == k,
            forall|j: int|
                0 <= j < k ==> (#[trigger] indices[j]) < palette.len() && palette[indices[j] as int]
                    == model[j].color,
        decreases model.len() - k,
    {
        let color = model[k].color;
        proof {
            let longer = colors.subrange(0, k + 1);
            assert(longer.drop_last() == colors.subrange(0, k as int));
            assert(longer.last() == color);
            lemma_distinct_colors(longer);
        }
        match find_color(&palette, color) {
            Some(i) => {
                indices.push(i as u8);
            },
            None => {
                if palette.len() >= PALETTE_LIMIT {
                    proof {
                        lemma_distinct_prefix(colors, k + 1);
                    }
                    return Err(ExportError::PaletteOverflow);
                }
                indices.push(palette.len() as u8);
                palette.push(color);
            },
        }
        k += 1;
    }
    proof {
        assert(colors.subrange(0, model.len() as int) == colors);
    }
    if model.len() == 0 {
        let empty = Model { size: Size { x: 0, y: 0, z: 0 }, voxels: Vec::new() };
        let mut models: Vec<Model> = Vec::new();
        models.push(empty);
        return Ok(DotVoxData { models, palette });
    }
    let corners = measure(model);
    let low = corners.low;
    let high = corners.high;
    let span_x: i64 = high.x as i64 - low.x as i64;
    let span_y: i64 = high.y as i64 - low.y as i64;
    let span_z: i64 = high.z as i64 - low.z as i64;
    if span_x >= EXTENT_LIMIT || span_y >= EXTENT_LIMIT || span_z >= EXTENT_LIMIT {
        return Err(ExportError::ExtentOverflow);
    }
    let mut voxels: Vec<Voxel> = Vec::new();
    let mut k: usize = 0;
    while k < model.len()
        invariant
            k <= model.len(),
            voxels.len() == k,
            indices.len() == model.len(),
            is_extent(model@, low, high),
            fits_bytes(low, high),
            palette@.no_duplicates(),
            forall|j: int|
                0 <= j < model.len() ==> (#[trigger] indices[j]) < palette.len()
                    && palette[indices[j] as int] == model[j].color,
            forall|j: int|
                0 <= j < k ==> #[trigger] voxels[j] == stored_voxel(palette@, low, model[j]),
        decreases model.len() - k,
    {
        let p = model[k].pos;
        proof {
            let i = indices[k as int] as int;
            assert(palette@[i] == model[k as int].color);
            let first = palette@.index_of(model[k as int].color);
            assert(0 <= first < palette@.len() && palette@[first] == model[k as int].color);
            if first != i {
                assert(palette@[first] == palette@[i]);
            }
        }
        voxels.push(
            Voxel {
                x: (p.x as i64 - low.x as i64) as u8,
                y: (p.y as i64 - low.y as i64) as u8,
                z: (p.z as i64 - low.z as i64) as u8,
                i: indices[k],
            },
        );
        k += 1;
    }
    let size = Size { x: (span_x + 1) as u32, y: (span_y + 1) as u32, z: (span_z + 1) as u32 };
    let mut models: Vec<Model> = Vec::new();
    models.push(Model { size, voxels });
    Ok(DotVoxData { models, palette })
}

} // verus!
