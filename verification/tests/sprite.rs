use voxelize::raster::{clear_outline, Color, Image};
use voxelize::render::Hit;
use voxelize::sprite::{is_drawable, is_paintable, paint_view, render_sprite, BORDER};
use voxelize::vector::{ivec2, ivec3, IVec3};
use voxelize::voxel::{DotVoxData, Model, Size, Voxel};

const KEY: Color = Color { r: 255, g: 0, b: 255, a: 255 };
const BLANK: Color = Color { r: 0, g: 0, b: 0, a: 0 };
const BLACK: Color = Color { r: 0, g: 0, b: 0, a: 255 };
const RED: Color = Color { r: 200, g: 0, b: 0, a: 255 };
const GREEN: Color = Color { r: 0, g: 200, b: 0, a: 255 };
const BLUE: Color = Color { r: 0, g: 0, b: 200, a: 255 };

fn hit(x: i32, y: i32, cell: IVec3, value: u8) -> Hit<u8> {
    Hit { pixel: ivec2(x, y), cell, value }
}

fn voxel(x: u8, y: u8, z: u8, i: u8) -> Voxel {
    Voxel { x, y, z, i }
}

fn key_image(width: u32, height: u32) -> Image {
    let mut image = Image::new(width, height);
    for y in 0..height {
        for x in 0..width {
            image.put_pixel(x, y, KEY);
        }
    }
    image
}

fn scene() -> DotVoxData {
    DotVoxData {
        models: vec![
            Model {
                size: Size { x: 8, y: 8, z: 8 },
                voxels: vec![voxel(0, 0, 0, 0), voxel(1, 0, 0, 0), voxel(0, 1, 0, 0)],
            },
            Model { size: Size { x: 1, y: 1, z: 1 }, voxels: vec![voxel(0, 0, 0, 0)] },
        ],
        palette: vec![BLACK, RED, BLUE, GREEN],
    }
}

/// A picture of two by two pixels.
fn picture() -> Vec<Hit<u8>> {
    vec![
        hit(0, 0, ivec3(0, 0, 0), 0),
        hit(1, 0, ivec3(1, 0, 0), 0),
        hit(0, 1, ivec3(0, 1, 0), 0),
        hit(1, 1, ivec3(5, 5, 5), 0),
    ]
}

/// A sprite whose marks fill the columns 1 to 4 of the rows 1 and 2.
fn sprite() -> Image {
    let mut image = key_image(6, 5);
    image.put_pixel(1, 1, RED);
    image.put_pixel(1, 2, BLUE);
    image.put_pixel(3, 2, GREEN);
    image.put_pixel(4, 2, RED);
    image
}

#[test]
fn border_is_one_pixel() {
    assert_eq!(BORDER, 1);
}

#[test]
fn a_sprite_is_the_frame_of_the_picture_with_a_border() {
    let palette = vec![Color { r: 200, g: 0, b: 0, a: 7 }, BLUE];
    let view = vec![
        hit(2, 3, ivec3(0, 0, 0), 0),
        hit(4, 3, ivec3(0, 0, 0), 1),
        hit(2, 5, ivec3(0, 0, 0), 0),
    ];
    let canvas = render_sprite(&view, &palette);
    assert_eq!(canvas.dimensions(), (5, 5));
    for y in 0..5 {
        for x in 0..5 {
            let expected = match (x, y) {
                (1, 1) => RED,
                (3, 1) => BLUE,
                (1, 3) => RED,
                _ => BLANK,
            };
            assert_eq!(canvas.get_pixel(x, y), expected, "at {:?}", (x, y));
        }
    }
}

#[test]
fn a_sprite_of_one_pixel_is_three_by_three() {
    let canvas = render_sprite(&vec![hit(-7, 100, ivec3(0, 0, 0), 0)], &vec![GREEN]);
    assert_eq!(canvas.dimensions(), (3, 3));
    assert_eq!(canvas.get_pixel(1, 1), GREEN);
    assert_eq!(canvas.get_pixel(0, 0), BLANK);
    assert_eq!(canvas.get_pixel(2, 2), BLANK);
}

#[test]
fn a_later_hit_covers_an_earlier_one() {
    let view = vec![hit(0, 0, ivec3(0, 0, 0), 0), hit(1, 0, ivec3(0, 0, 0), 0), hit(0, 0, ivec3(0, 0, 0), 1)];
    let canvas = render_sprite(&view, &vec![RED, BLUE]);
    assert_eq!(canvas.dimensions(), (4, 3));
    assert_eq!(canvas.get_pixel(1, 1), BLUE);
    assert_eq!(canvas.get_pixel(2, 1), RED);
}

#[test]
fn paint_carries_the_colours_of_the_sprite_to_the_cells() {
    let mut scene = scene();
    // The picture pixel (x, y) takes the sprite pixel (1 + 2 x, 1 + y).
    // The sprite is transparent at (3, 1), the place of the second pixel.
    paint_view(&mut scene, &picture(), &sprite());
    assert_eq!(
        scene.models[0].voxels,
        vec![voxel(0, 0, 0, 1), voxel(1, 0, 0, 0), voxel(0, 1, 0, 2), voxel(5, 5, 5, 3)]
    );
    assert_eq!(scene.models[0].size, Size { x: 8, y: 8, z: 8 });
    assert_eq!(scene.models[1].voxels, vec![voxel(0, 0, 0, 0)]);
    assert_eq!(scene.palette, vec![BLACK, RED, BLUE, GREEN]);
}

#[test]
fn paint_takes_the_nearest_palette_colour() {
    let mut scene = scene();
    let mut sprite = key_image(3, 3);
    sprite.put_pixel(1, 1, Color { r: 10, g: 190, b: 30, a: 255 });
    paint_view(&mut scene, &vec![hit(9, 9, ivec3(1, 0, 0), 0)], &sprite);
    assert_eq!(scene.models[0].voxels[1], voxel(1, 0, 0, 3));
}

#[test]
fn a_sprite_without_marks_paints_nothing() {
    let mut scene = scene();
    paint_view(&mut scene, &picture(), &key_image(6, 5));
    assert_eq!(scene.models[0].voxels, vec![voxel(0, 0, 0, 0), voxel(1, 0, 0, 0), voxel(0, 1, 0, 0)]);
}

#[test]
fn an_empty_picture_paints_nothing() {
    let mut scene = scene();
    paint_view(&mut scene, &Vec::new(), &sprite());
    assert_eq!(scene.models[0].voxels, vec![voxel(0, 0, 0, 0), voxel(1, 0, 0, 0), voxel(0, 1, 0, 0)]);
}

#[test]
fn an_outline_is_cleared_before_it_is_painted() {
    // A red body of 2 x 1 pixels within a black outline.
    let mut sprite = key_image(6, 5);
    for y in 1..4 {
        for x in 1..5 {
            sprite.put_pixel(x, y, BLACK);
        }
    }
    sprite.put_pixel(2, 2, RED);
    sprite.put_pixel(3, 2, RED);
    clear_outline(&mut sprite);
    for y in 0..5 {
        for x in 0..6 {
            let expected = if y == 2 && (x == 2 || x == 3) { RED } else { KEY };
            assert_eq!(sprite.get_pixel(x, y), expected, "at {:?}", (x, y));
        }
    }
    let mut scene = scene();
    let view = vec![hit(0, 0, ivec3(0, 0, 0), 0), hit(1, 0, ivec3(1, 0, 0), 0)];
    paint_view(&mut scene, &view, &sprite);
    assert_eq!(scene.models[0].voxels, vec![voxel(0, 0, 0, 1), voxel(1, 0, 0, 1), voxel(0, 1, 0, 0)]);
}

#[test]
fn a_picture_needs_pixels_and_known_colours_to_be_drawn() {
    let palette = vec![RED, BLUE];
    assert!(is_drawable(&picture(), &palette));
    assert!(!is_drawable(&Vec::new(), &palette));
    assert!(!is_drawable(&vec![hit(0, 0, ivec3(0, 0, 0), 2)], &palette));
    assert!(is_drawable(&vec![hit(0, 0, ivec3(0, 0, 0), 1)], &palette));
    assert!(!is_drawable(&picture(), &Vec::new()));
}

#[test]
fn a_picture_that_spans_all_of_i32_is_too_wide_to_be_drawn() {
    let palette = vec![RED];
    let wide = vec![hit(i32::MIN, 0, ivec3(0, 0, 0), 0), hit(i32::MAX - 1, 0, ivec3(0, 0, 0), 0)];
    // 2^32 - 1 pixels and the border are more than a width can count.
    assert!(!is_drawable(&wide, &palette));
    assert!(!is_drawable(&vec![hit(i32::MAX, 0, ivec3(0, 0, 0), 0)], &palette));
}

#[test]
fn painting_needs_a_palette_only_where_something_is_painted() {
    let mut bare = scene();
    bare.palette.clear();
    assert!(is_paintable(&scene(), &picture(), &sprite()));
    assert!(!is_paintable(&bare, &picture(), &sprite()));
    // Without a mark the sprite gives no colour: nothing is picked.
    assert!(is_paintable(&bare, &picture(), &key_image(6, 5)));
    assert!(is_paintable(&bare, &Vec::new(), &sprite()));
    paint_view(&mut bare, &picture(), &key_image(6, 5));
    assert_eq!(bare.models[0].voxels, vec![voxel(0, 0, 0, 0), voxel(1, 0, 0, 0), voxel(0, 1, 0, 0)]);
    assert_eq!(bare.palette, Vec::new());
}

#[test]
fn painting_needs_a_model_and_a_sprite() {
    let mut empty = scene();
    empty.models.clear();
    assert!(!is_paintable(&empty, &picture(), &sprite()));
    assert!(!is_paintable(&scene(), &picture(), &voxelize::raster::Image::new(0, 3)));
    assert!(!is_paintable(&scene(), &vec![hit(i32::MAX, 0, ivec3(0, 0, 0), 0)], &sprite()));
}
