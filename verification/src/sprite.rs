//! Sprites from pictures, and paint from sprites.

use vstd::prelude::*;
use crate::raster::{blank, fits_memory, Color, Image, ImageView};
use crate::rect::{mark_frame, Rect};
use crate::render::Hit;
use crate::vector::IVec2;
use crate::voxel::{
    find_voxel, first_at, occupies, painted_voxel, with_voxel, DotVoxData, DotVoxExt, Voxel,
};

verus! {

/// The width of the empty border around a sprite, in pixels.
pub const BORDER: u32 = 1;

/// The pixels that a picture lists, in its order.
pub open spec fn pixels_of<T>(view: Seq<Hit<T>>) -> Seq<IVec2> {
    Seq::new(view.len(), |i: int| view[i].pixel)
}

/// A colour of the palette as it is drawn: without transparency.
pub open spec fn opaque(color: Color) -> Color {
    Color { r: color.r, g: color.g, b: color.b, a: 255 }
}

/// The pixel at column `x`, row `y` of a sprite after the first `n` hits
/// of a picture are drawn on a blank canvas, each `BORDER` pixels in from
/// where it lies in the frame that starts at `origin`. A later hit covers
/// an earlier one.
pub open spec fn drawn(
    view: Seq<Hit<u8>>,
    palette: Seq<Color>,
    origin: IVec2,
    n: int,
    x: int,
    y: int,
) -> Color
    decreases n,
{
    if n <= 0 {
        blank()
    } else if view[n - 1].pixel.x - origin.x + BORDER == x && view[n - 1].pixel.y - origin.y
        + BORDER == y {
        opaque(palette[view[n - 1].value as int])
    } else {
        drawn(view, palette, origin, n - 1, x, y)
    }
}

/// Whether a picture can be drawn as a sprite: it lists a pixel, every
/// palette index in it is in the palette, and the sprite, which is the
/// frame of the listed pixels with a border around it, is no larger than
/// an image can be.
pub open spec fn drawable(view: Seq<Hit<u8>>, palette: Seq<Color>) -> bool {
    let frame = Rect::around(pixels_of(view));
    &&& view.len() > 0
    &&& forall|i: int| 0 <= i < view.len() ==> (#[trigger] view[i]).value < palette.len()
    &&& forall|i: int|
        0 <= i < view.len() ==> (#[trigger] view[i]).pixel.x < i32::MAX && view[i].pixel.y
            < i32::MAX
    &&& frame.max.x - frame.min.x + 2 * BORDER <= u32::MAX
    &&& frame.max.y - frame.min.y + 2 * BORDER <= u32::MAX
    &&& fits_memory(
        frame.max.x - frame.min.x + 2 * BORDER,
        frame.max.y - frame.min.y + 2 * BORDER,
    )
}

fn listed_pixels(view: &Vec<Hit<u8>>) -> (pixels: Vec<IVec2>)
    ensures
        pixels@ == pixels_of(view@),
{
    let mut pixels: Vec<IVec2> = Vec::new();
    let mut i: usize = 0;
    while i < view.len()
        invariant
            i <= view.len(),
            pixels.len() == i,
            forall|j: int| 0 <= j < i ==> #[trigger] pixels[j] == view[j].pixel,
        decreases view.len() - i,
    {
        pixels.push(view[i].pixel);
        i += 1;
    }
    proof {
        assert(pixels@ =~= pixels_of(view@));
    }
    pixels
}

/// Tells whether a picture can be drawn as a sprite.
pub fn is_drawable(view: &Vec<Hit<u8>>, palette: &Vec<Color>) -> (ok: bool)
    ensures
        ok == drawable(view@, palette@),
{
    if view.len() == 0 {
        return false;
    }
    let mut i: usize = 0;
    while i < view.len()
        invariant
            i <= view.len(),
            forall|j: int| 0 <= j < i ==> (#[trigger] view[j]).value < palette.len(),
            forall|j: int|
                0 <= j < i ==> (#[trigger] view[j]).pixel.x < i32::MAX && view[j].pixel.y
                    < i32::MAX,
        decreases view.len() - i,
    {
        let hit = &view[i];
        if hit.value as usize >= palette.len() || hit.pixel.x == i32::MAX || hit.pixel.y
            == i32::MAX {
            return false;
        }
        i += 1;
    }
    let pixels = listed_pixels(view);
    let frame = Rect::from_points(&pixels);
    proof {
        assert(frame.contains_spec(pixels[0]));
    }
    let width: u64 = (frame.max.x as i64 - frame.min.x as i64 + 2 * BORDER as i64) as u64;
    let height: u64 = (frame.max.y as i64 - frame.min.y as i64 + 2 * BORDER as i64) as u64;
    if width > u32::MAX as u64 || height > u32::MAX as u64 {
        return false;
    }
    proof {
        assert(width * height <= 0xffff_ffff * 0xffff_ffff) by (nonlinear_arith)
            requires
                width <= 0xffff_ffff,
                height <= 0xffff_ffff,
        ;
        assert(4 * width * height == 4 * (width * height)) by (nonlinear_arith);
    }
    let bytes: u128 = 4 * (width as u128 * height as u128);
    bytes <= isize::MAX as u128
}

/// Draws a picture as a sprite: the frame of its pixels with a blank border
/// of `BORDER` pixels around it, each listed pixel in the colour that the
/// palette gives for it.
pub fn render_sprite(view: &Vec<Hit<u8>>, palette: &Vec<Color>) -> (canvas: Image)
    requires
        drawable(view@, palette@),
    ensures
        canvas@.width == Rect::around(pixels_of(view@)).max.x - Rect::around(
            pixels_of(view@),
        ).min.x + 2 * BORDER,
        canvas@.height == Rect::around(pixels_of(view@)).max.y - Rect::around(
            pixels_of(view@),
        ).min.y + 2 * BORDER,
        forall|x: int, y: int|
            canvas@.contains(x, y) ==> #[trigger] canvas@.pixel(x, y) == drawn(
                view@,
                palette@,
                Rect::around(pixels_of(view@)).min,
                view.len() as int,
                x,
                y,
            ),
{
    let pixels = listed_pixels(view);
    let frame = Rect::from_points(&pixels);
    let width: i64 = frame.max.x as i64 - frame.min.x as i64 + 2 * BORDER as i64;
    let height: i64 = frame.max.y as i64 - frame.min.y as i64 + 2 * BORDER as i64;
    proof {
        assert(frame.contains_spec(pixels[0]));
    }
    let mut canvas = Image::new(width as u32, height as u32);
    let mut i: usize = 0;
    while i < view.len()
        invariant
            i <= view.len(),
            pixels@ == pixels_of(view@),
            frame == Rect::around(pixels@),
            forall|j: int| 0 <= j < view.len() ==> frame.contains_spec(#[trigger] pixels[j]),
            forall|j: int| 0 <= j < view.len() ==> (#[trigger] view[j]).value < palette.len(),
            canvas@.width == width,
            canvas@.height == height,
            width == frame.max.x - frame.min.x + 2 * BORDER,
            height == frame.max.y - frame.min.y + 2 * BORDER,
            0 < width <= u32::MAX,
            0 < height <= u32::MAX,
            forall|x: int, y: int|
                canvas@.contains(x, y) ==> #[trigger] canvas@.pixel(x, y) == drawn(
                    view@,
                    palette@,
                    frame.min,
                    i as int,
                    x,
                    y,
                ),
        decreases view.len() - i,
    {
        let hit = &view[i];
        let entry = palette[hit.value as usize];
        let color = Color { r: entry.r, g: entry.g, b: entry.b, a: 255 };
        proof {
            assert(frame.contains_spec(pixels[i as int]));
            assert(pixels[i as int] == hit.pixel);
        }
        let x: i64 = hit.pixel.x as i64 - frame.min.x as i64 + BORDER as i64;
        let y: i64 = hit.pixel.y as i64 - frame.min.y as i64 + BORDER as i64;
        let ghost before = canvas@;
        canvas.put_pixel(x as u32, y as u32, color);
        proof {
            assert forall|px: int, py: int| canvas@.contains(px, py) implies #[trigger] canvas@.pixel(
                px,
                py,
            ) == drawn(view@, palette@, frame.min, i + 1, px, py) by {
                if px == x && py == y {
                } else {
                    assert(canvas@.pixel(px, py) == before.pixel(px, py));
                }
            }
        }
        i += 1;
    }
    canvas
}

/// The colour that a sprite gives for a pixel of a picture, if any. The
/// pixel's place in the frame of the picture is carried over to the frame
/// of the sprite's marks. Nothing comes of a pixel that lands off the
/// sprite or on its key colour, nor of a frame without width or height.
pub open spec fn paint_color(
    picture: Rect,
    sprite: ImageView,
    pixel: IVec2,
) -> Option<Color> {
    let frame = mark_frame(sprite);
    let key = sprite.pixel(0, 0);
    match picture.normalize_spec(pixel) {
        Some(uv) => {
            let x = Rect::denormalize_axis(frame.min.x as int, frame.max.x as int, uv.0.0, uv.0.1);
            let y = Rect::denormalize_axis(frame.min.y as int, frame.max.y as int, uv.1.0, uv.1.1);
            let color = sprite.pixel_or(x as int, y as int, key);
            if color == key {
                None
            } else {
                Some(color)
            }
        },
        None => None,
    }
}

/// The voxels of a model after the first `n` hits of a picture are painted
/// from a sprite: each hit that the sprite gives a colour for sets the
/// voxel at its cell to the palette colour nearest to it.
pub open spec fn painted(
    voxels: Seq<Voxel>,
    palette: Seq<Color>,
    view: Seq<Hit<u8>>,
    sprite: ImageView,
    n: int,
) -> Seq<Voxel>
    decreases n,
{
    if n <= 0 {
        voxels
    } else {
        let rest = painted(voxels, palette, view, sprite, n - 1);
        match paint_color(Rect::around(pixels_of(view)), sprite, view[n - 1].pixel) {
            Some(color) => with_voxel(rest, painted_voxel(palette, view[n - 1].cell, color)),
            None => rest,
        }
    }
}

/// Whether the sprite gives a colour for hit `i` of a picture.
pub open spec fn paints<T>(view: Seq<Hit<T>>, sprite: ImageView, i: int) -> bool {
    paint_color(Rect::around(pixels_of(view)), sprite, view[i].pixel).is_some()
}

/// Whether a picture can be painted on a scene from a sprite. The scene
/// has a first model. The sprite has a pixel, and neither it nor the
/// picture is larger than `i32` counts. There is a palette to pick from,
/// unless the sprite gives no colour for any hit, so that nothing is
/// picked.
pub open spec fn paintable(scene: DotVoxData, view: Seq<Hit<u8>>, sprite: ImageView) -> bool {
    &&& scene.models.len() > 0
    &&& 0 < sprite.width <= i32::MAX
    &&& 0 < sprite.height <= i32::MAX
    &&& forall|i: int|
        0 <= i < view.len() ==> (#[trigger] view[i]).pixel.x < i32::MAX && view[i].pixel.y
            < i32::MAX
    &&& scene.palette.len() > 0 || forall|i: int| 0 <= i < view.len() ==> !paints(view, sprite, i)
}

/// The colour that the sprite gives for a pixel of the picture.
fn sprite_color(picture: &Rect, frame: &Rect, sprite: &Image, pixel: IVec2) -> (color: Option<
    Color,
>)
    requires
        sprite@.width > 0,
        sprite@.height > 0,
        *frame == mark_frame(sprite@),
    ensures
        color == paint_color(*picture, sprite@, pixel),
{
    let key = sprite.get_pixel(0, 0);
    match picture.normalize(pixel) {
        Some(uv) => {
            let at = frame.denormalize(uv);
            let color = if at.x >= 0 && at.y >= 0 {
                match sprite.get_pixel_checked(at.x as u32, at.y as u32) {
                    Some(color) => color,
                    None => key,
                }
            } else {
                key
            };
            proof {
                assert(color == sprite@.pixel_or(at.x as int, at.y as int, key));
            }
            if color == key {
                None
            } else {
                Some(color)
            }
        },
        None => None,
    }
}

/// Tells whether a picture can be painted on a scene from a sprite.
pub fn is_paintable(scene: &DotVoxData, view: &Vec<Hit<u8>>, sprite: &Image) -> (ok: bool)
    ensures
        ok == paintable(*scene, view@, sprite@),
{
    let (width, height) = sprite.dimensions();
    if scene.models.len() == 0 || width == 0 || height == 0 || width > i32::MAX as u32 || height
        > i32::MAX as u32 {
        return false;
    }
    let mut i: usize = 0;
    while i < view.len()
        invariant
            i <= view.len(),
            forall|j: int|
                0 <= j < i ==> (#[trigger] view[j]).pixel.x < i32::MAX && view[j].pixel.y
                    < i32::MAX,
        decreases view.len() - i,
    {
        if view[i].pixel.x == i32::MAX || view[i].pixel.y == i32::MAX {
            return false;
        }
        i += 1;
    }
    if scene.palette.len() > 0 {
        return true;
    }
    let frame = Rect::from_image(sprite);
    let pixels = listed_pixels(view);
    let picture = Rect::from_points(&pixels);
    let mut i: usize = 0;
    while i < view.len()
        invariant
            i <= view.len(),
            sprite@.width > 0,
            sprite@.height > 0,
            pixels@ == pixels_of(view@),
            picture == Rect::around(pixels@),
            frame == mark_frame(sprite@),
            scene.palette.len() == 0,
            forall|j: int| 0 <= j < i ==> !paints(view@, sprite@, j),
        decreases view.len() - i,
    {
        if sprite_color(&picture, &frame, sprite, view[i].pixel).is_some() {
            proof {
                assert(paints(view@, sprite@, i as int));
            }
            return false;
        }
        i += 1;
    }
    true
}

/// Paints the first model of a scene from a sprite. `view` is a picture of
/// the model; each of its pixels takes the colour of the sprite at the same
/// place within the frame, and gives it to the cell that it shows.
pub fn paint_view(scene: &mut DotVoxData, view: &Vec<Hit<u8>>, sprite: &Image)
    requires
        paintable(*old(scene), view@, sprite@),
    ensures
        final(scene).palette == old(scene).palette,
        final(scene).models@ == old(scene).models@.update(0, final(scene).models[0]),
        final(scene).models[0].size == old(scene).models[0].size,
        final(scene).models[0].voxels@ == painted(
            old(scene).models[0].voxels@,
            old(scene).palette@,
            view@,
            sprite@,
            view.len() as int,
        ),
{
    let frame = Rect::from_image(sprite);
    let pixels = listed_pixels(view);
    let picture = Rect::from_points(&pixels);
    let mut i: usize = 0;
    while i < view.len()
        invariant
            i <= view.len(),
            sprite@.width > 0,
            sprite@.height > 0,
            pixels@ == pixels_of(view@),
            picture == Rect::around(pixels@),
            frame == mark_frame(sprite@),
            scene.palette == old(scene).palette,
            scene.palette.len() > 0 || forall|j: int|
                0 <= j < view.len() ==> !paints(view@, sprite@, j),
            scene.models.len() == old(scene).models.len(),
            scene.models.len() > 0,
            scene.models@ == old(scene).models@.update(0, scene.models[0]),
            scene.models[0].size == old(scene).models[0].size,
            scene.models[0].voxels@ == painted(
                old(scene).models[0].voxels@,
                old(scene).palette@,
                view@,
                sprite@,
                i as int,
            ),
        decreases view.len() - i,
    {
        let hit = &view[i];
        match sprite_color(&picture, &frame, sprite, hit.pixel) {
            Some(color) => {
                proof {
                    assert(paints(view@, sprite@, i as int));
                }
                scene.set_voxel(0, hit.cell, color);
            },
            None => {},
        }
        i += 1;
    }
}

/// Where the sprite gives no colour for any hit, painting changes nothing.
pub proof fn lemma_nothing_painted(
    voxels: Seq<Voxel>,
    palette: Seq<Color>,
    view: Seq<Hit<u8>>,
    sprite: ImageView,
    n: int,
)
    requires
        0 <= n <= view.len(),
        forall|i: int| 0 <= i < n ==> !paints(view, sprite, i),
    ensures
        painted(voxels, palette, view, sprite, n) == voxels,
    decreases n,
{
    if n > 0 {
        lemma_nothing_painted(voxels, palette, view, sprite, n - 1);
        assert(!paints(view, sprite, n - 1));
    }
}

/// Whether hit `i` of a picture paints the cell `(x, y, z)` of the model:
/// the sprite gives a colour for the hit, and the hit shows that cell.
pub open spec fn paints_cell(
    palette: Seq<Color>,
    view: Seq<Hit<u8>>,
    sprite: ImageView,
    i: int,
    x: int,
    y: int,
    z: int,
) -> bool {
    paint_color(Rect::around(pixels_of(view)), sprite, view[i].pixel) matches Some(color)
        && occupies(painted_voxel(palette, view[i].cell, color), x, y, z)
}

/// Setting a voxel leaves the voxels at other cells as they were.
pub proof fn lemma_set_voxel_keeps_others(voxels: Seq<Voxel>, v: Voxel, j: int)
    requires
        0 <= j < voxels.len(),
        !occupies(voxels[j], v.x as int, v.y as int, v.z as int),
    ensures
        with_voxel(voxels, v).len() >= voxels.len(),
        with_voxel(voxels, v)[j] == voxels[j],
{
    match find_voxel(voxels, v.x as int, v.y as int, v.z as int) {
        Some(k) => {
            assert(first_at(voxels, v.x as int, v.y as int, v.z as int, k));
        },
        None => {},
    }
}

/// Painting recolours only what the sprite gives a colour for: a voxel of
/// the model whose cell no hit paints stays as it was, whatever is painted
/// around it.
pub proof fn lemma_unpainted_voxel_stays(
    voxels: Seq<Voxel>,
    palette: Seq<Color>,
    view: Seq<Hit<u8>>,
    sprite: ImageView,
    n: int,
    j: int,
)
    requires
        0 <= n <= view.len(),
        0 <= j < voxels.len(),
        forall|i: int|
            0 <= i < n ==> !paints_cell(
                palette,
                view,
                sprite,
                i,
                voxels[j].x as int,
                voxels[j].y as int,
                voxels[j].z as int,
            ),
    ensures
        painted(voxels, palette, view, sprite, n).len() >= voxels.len(),
        painted(voxels, palette, view, sprite, n)[j] == voxels[j],
    decreases n,
{
    if n > 0 {
        lemma_unpainted_voxel_stays(voxels, palette, view, sprite, n - 1, j);
        let rest = painted(voxels, palette, view, sprite, n - 1);
        assert(!paints_cell(
            palette,
            view,
            sprite,
            n - 1,
            voxels[j].x as int,
            voxels[j].y as int,
            voxels[j].z as int,
        ));
        match paint_color(Rect::around(pixels_of(view)), sprite, view[n - 1].pixel) {
            Some(color) => {
                lemma_set_voxel_keeps_others(
                    rest,
                    painted_voxel(palette, view[n - 1].cell, color),
                    j,
                );
            },
            None => {},
        }
    }
}

} // verus!
