use voxelize::raster::{Color, Image};
use voxelize::rect::{Fraction, Rect, Vec2};
use voxelize::vector::{ivec2, IVec2};

const KEY: Color = Color { r: 255, g: 0, b: 255, a: 255 };
const INK: Color = Color { r: 10, g: 20, b: 30, a: 255 };

/// A point of the unit square from two floats that are exact in 1024ths.
fn vec2(x: f32, y: f32) -> Vec2 {
    Vec2 {
        x: Fraction::new((x * 1024.0) as i32, 1024).unwrap(),
        y: Fraction::new((y * 1024.0) as i32, 1024).unwrap(),
    }
}

fn floats(uv: Option<Vec2>) -> (f32, f32) {
    let uv = uv.unwrap();
    (
        uv.x.num() as f32 / uv.x.den() as f32,
        uv.y.num() as f32 / uv.y.den() as f32,
    )
}

fn key_image(width: u32, height: u32) -> Image {
    let mut image = Image::new(width, height);
    for y in 0..height {
        for x in 0..width {
            image.put_pixel(x, y, KEY);
        }
    }
    image
}

#[test]
fn rect_normalization() {
    let rect = Rect::new(ivec2(10, 20), ivec2(30, 40));
    assert_eq!(floats(rect.normalize(ivec2(10, 20))), (0.0, 0.0));
    assert_eq!(floats(rect.normalize(ivec2(30, 40))), (1.0, 1.0));

    assert_eq!(rect.denormalize(vec2(0.0, 0.0)), ivec2(10, 20));
    assert_eq!(rect.denormalize(vec2(1.0, 1.0)), ivec2(30, 40));
}

#[test]
fn normalize_gives_exact_parts() {
    let rect = Rect::new(ivec2(10, 20), ivec2(30, 40));
    let uv = rect.normalize(ivec2(15, 39)).unwrap();
    assert_eq!((uv.x.num(), uv.x.den()), (5, 20));
    assert_eq!((uv.y.num(), uv.y.den()), (19, 20));
}

#[test]
fn normalize_of_a_flat_rect_is_nothing() {
    assert_eq!(Rect::new(ivec2(3, 0), ivec2(3, 9)).normalize(ivec2(3, 1)), None);
    assert_eq!(Rect::new(ivec2(0, 7), ivec2(9, 7)).normalize(ivec2(3, 7)), None);
}

#[test]
fn normalize_of_a_reversed_rect_keeps_the_value() {
    // (12 - 10) / (6 - 10) is -2/4: the denominator is kept above zero.
    let uv = Rect::new(ivec2(10, 0), ivec2(6, 4)).normalize(ivec2(12, 1)).unwrap();
    assert_eq!((uv.x.num(), uv.x.den()), (-2, 4));
    assert_eq!((uv.y.num(), uv.y.den()), (1, 4));
}

#[test]
fn normalize_stays_below_one_inside_the_rect() {
    let rect = Rect::new(ivec2(-3, 5), ivec2(4, 9));
    for y in 5..9 {
        for x in -3..4 {
            let uv = rect.normalize(ivec2(x, y)).unwrap();
            assert!(0 <= uv.x.num() && uv.x.num() < uv.x.den());
            assert!(0 <= uv.y.num() && uv.y.num() < uv.y.den());
        }
    }
    let first = rect.normalize(ivec2(-3, 5)).unwrap();
    assert_eq!((first.x.num(), first.y.num()), (0, 0));
    let last = rect.normalize(ivec2(3, 8)).unwrap();
    assert_eq!((last.x.num(), last.x.den()), (6, 7));
    assert_eq!((last.y.num(), last.y.den()), (3, 4));
}

#[test]
fn denormalize_undoes_normalize() {
    let rect = Rect::new(ivec2(-3, 5), ivec2(4, 9));
    for y in 5..9 {
        for x in -3..4 {
            let uv = rect.normalize(ivec2(x, y)).unwrap();
            assert_eq!(rect.denormalize(uv), ivec2(x, y));
        }
    }
}

#[test]
fn denormalize_rounds_down() {
    let rect = Rect::new(ivec2(10, 20), ivec2(30, 40));
    // 0.26 * 20 = 5.2 and 0.99 * 20 = 19.8
    assert_eq!(rect.denormalize(vec2(0.259765625, 0.990234375)), ivec2(15, 39));
    // -0.25 * 20 = -5 and -0.26 * 20 = -5.2, which goes down to -6
    assert_eq!(rect.denormalize(vec2(-0.25, -0.259765625)), ivec2(5, 14));
}

#[test]
fn denormalize_carries_a_place_to_another_rect() {
    let picture = Rect::new(ivec2(0, 0), ivec2(4, 4));
    let sprite = Rect::new(ivec2(100, 200), ivec2(108, 202));
    let uv = picture.normalize(ivec2(3, 1)).unwrap();
    // 3/4 of 8 is 6; 1/4 of 2 is 0.5, which goes down to 0
    assert_eq!(sprite.denormalize(uv), ivec2(106, 200));
}

#[test]
fn denormalize_stops_at_the_ends_of_i32() {
    let rect = Rect::new(ivec2(i32::MAX - 1, 0), ivec2(i32::MAX, 1));
    let far = Vec2 { x: Fraction::new(5, 1).unwrap(), y: Fraction::new(0, 1).unwrap() };
    assert_eq!(rect.denormalize(far), ivec2(i32::MAX, 0));
}

#[test]
fn fraction_without_denominator_is_nothing() {
    assert_eq!(Fraction::new(3, 0), None);
    let f = Fraction::new(3, -6).unwrap();
    assert_eq!((f.num(), f.den()), (-3, 6));
}

#[test]
fn from_points_adds_one_to_the_maximum() {
    let points = vec![ivec2(3, -2), ivec2(-1, 7), ivec2(2, 2)];
    let rect = Rect::from_points(&points);
    assert_eq!(rect, Rect::new(ivec2(-1, -2), ivec2(4, 8)));
}

#[test]
fn from_points_of_one_point_is_one_pixel() {
    let rect = Rect::from_points(&vec![ivec2(5, 6)]);
    assert_eq!(rect, Rect { min: IVec2 { x: 5, y: 6 }, max: IVec2 { x: 6, y: 7 } });
}

#[test]
fn from_points_of_nothing_holds_nothing() {
    let rect = Rect::from_points(&Vec::new());
    assert_eq!(rect.min, ivec2(i32::MAX, i32::MAX));
    assert_eq!(rect.max, ivec2(i32::MIN + 1, i32::MIN + 1));
}

#[test]
fn from_image_frames_the_marks() {
    let mut image = key_image(8, 6);
    image.put_pixel(2, 4, INK);
    image.put_pixel(5, 1, INK);
    image.put_pixel(3, 3, INK);
    assert_eq!(Rect::from_image(&image), Rect::new(ivec2(2, 1), ivec2(6, 5)));
}

#[test]
fn from_image_without_marks_holds_nothing() {
    let image = key_image(4, 4);
    let rect = Rect::from_image(&image);
    assert_eq!(rect.min, ivec2(i32::MAX, i32::MAX));
    assert_eq!(rect.max, ivec2(i32::MIN + 1, i32::MIN + 1));
}

#[test]
fn componentwise_minimum_and_maximum() {
    assert_eq!(ivec2(3, -4).min(ivec2(-1, 9)), ivec2(-1, -4));
    assert_eq!(ivec2(3, -4).max(ivec2(-1, 9)), ivec2(3, 9));
}

#[test]
fn a_rect_wider_than_i32_counts_is_cut_short_on_the_way_back() {
    let rect = Rect::new(ivec2(i32::MIN, 0), ivec2(i32::MAX, 1));
    let pos = ivec2(i32::MAX - 1, 0);
    let uv = rect.normalize(pos).unwrap();
    assert_eq!((uv.x.num(), uv.x.den()), (4294967294, 4294967295));
    // The way from the left side is longer than i32 can hold.
    assert_eq!(rect.denormalize(uv), ivec2(-1, 0));
    // Up to i32::MAX pixels from the left side the way back is exact.
    let near = ivec2(-1, 0);
    assert_eq!(rect.denormalize(rect.normalize(near).unwrap()), near);
}

#[test]
fn from_image_of_a_ruler_ends_on_the_centre() {
    // One mark on the first row, at column 3, and one on the first column,
    // at row 2: the frame starts at the origin and its last pixel is (3, 2).
    let mut image = key_image(5, 4);
    image.put_pixel(3, 0, INK);
    image.put_pixel(0, 2, INK);
    let rect = Rect::from_image(&image);
    assert_eq!(rect.min, ivec2(0, 0));
    assert_eq!(rect.max, ivec2(4, 3));
}
