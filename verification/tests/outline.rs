use voxelize::raster::{clear_outline, fits, Color, Image};

const KEY: Color = Color { r: 0, g: 255, b: 255, a: 255 };
const BLACK: Color = Color { r: 0, g: 0, b: 0, a: 255 };
const RED: Color = Color { r: 200, g: 10, b: 10, a: 255 };

fn filled(width: u32, height: u32, color: Color) -> Image {
    let mut image = Image::new(width, height);
    for y in 0..height {
        for x in 0..width {
            image.put_pixel(x, y, color);
        }
    }
    image
}

#[test]
fn fresh_image_is_blank() {
    let image = Image::new(3, 2);
    assert_eq!(image.dimensions(), (3, 2));
    assert_eq!(image.get_pixel(2, 1), Color { r: 0, g: 0, b: 0, a: 0 });
    assert_eq!(image.get_pixel_checked(3, 1), None);
    assert_eq!(image.get_pixel_checked(2, 2), None);
}

#[test]
fn put_pixel_changes_one_pixel() {
    let mut image = filled(3, 3, KEY);
    image.put_pixel(1, 2, RED);
    assert_eq!(image.get_pixel(1, 2), RED);
    assert_eq!(image.get_pixel(2, 1), KEY);
    assert_eq!(image.get_pixel_checked(1, 2), Some(RED));
}

#[test]
fn outline_around_a_body_is_cleared() {
    // A red pixel in the middle of a black ring, on a 5x5 key background.
    let mut image = filled(5, 5, KEY);
    for &(x, y) in &[(2u32, 1u32), (1, 2), (3, 2), (2, 3)] {
        image.put_pixel(x, y, BLACK);
    }
    image.put_pixel(2, 2, RED);
    clear_outline(&mut image);
    for y in 0..5 {
        for x in 0..5 {
            let expected = if (x, y) == (2, 2) { RED } else { KEY };
            assert_eq!(image.get_pixel(x, y), expected, "at {:?}", (x, y));
        }
    }
}

#[test]
fn only_one_layer_is_cleared() {
    // Two black pixels in a row after the key: the first touches the key,
    // the second touches only what was black when the image came.
    let mut image = filled(5, 3, RED);
    image.put_pixel(0, 0, KEY);
    image.put_pixel(0, 1, KEY);
    image.put_pixel(1, 1, BLACK);
    image.put_pixel(2, 1, BLACK);
    clear_outline(&mut image);
    assert_eq!(image.get_pixel(1, 1), KEY);
    assert_eq!(image.get_pixel(2, 1), BLACK);
    assert_eq!(image.get_pixel(3, 1), RED);
    assert_eq!(image.get_pixel(0, 1), KEY);
}

#[test]
fn a_thick_outline_loses_its_outer_layer() {
    // A black square of 4 x 4 pixels on the key colour, one pixel in from
    // the edge of the image: its rim goes, its middle stays.
    let mut image = filled(6, 6, KEY);
    for y in 1..5 {
        for x in 1..5 {
            image.put_pixel(x, y, BLACK);
        }
    }
    clear_outline(&mut image);
    for y in 0..6 {
        for x in 0..6 {
            let inner = (2..4).contains(&x) && (2..4).contains(&y);
            assert_eq!(image.get_pixel(x, y), if inner { BLACK } else { KEY }, "at {:?}", (x, y));
        }
    }
}

#[test]
fn black_inside_a_body_stays() {
    let mut image = filled(5, 5, RED);
    image.put_pixel(0, 0, KEY);
    image.put_pixel(2, 2, BLACK);
    clear_outline(&mut image);
    assert_eq!(image.get_pixel(2, 2), BLACK);
    assert_eq!(image.get_pixel(1, 1), RED);
}

#[test]
fn dimensions_are_width_and_height() {
    let image = Image::new(7, 2);
    assert_eq!(image.width(), 7);
    assert_eq!(image.height(), 2);
    assert_eq!(Image::new(0, 5).dimensions(), (0, 5));
}

#[test]
fn an_image_needs_four_bytes_a_pixel() {
    assert!(fits(0, 0));
    assert!(fits(1024, 768));
    assert!(fits(u32::MAX, 0));
    // 4 * (2^32 - 1)^2 bytes are beyond 64 bits.
    assert!(!fits(u32::MAX, u32::MAX));
}

#[test]
fn an_outline_on_the_edge_of_the_image_is_cleared() {
    // Off the image everything counts as transparent.
    let mut image = filled(3, 3, RED);
    image.put_pixel(0, 0, KEY);
    image.put_pixel(2, 1, BLACK);
    image.put_pixel(1, 2, BLACK);
    clear_outline(&mut image);
    assert_eq!(image.get_pixel(2, 1), KEY);
    assert_eq!(image.get_pixel(1, 2), KEY);
    assert_eq!(image.get_pixel(1, 1), RED);
}

#[test]
fn a_black_key_changes_nothing() {
    let mut image = filled(3, 3, BLACK);
    image.put_pixel(1, 1, RED);
    clear_outline(&mut image);
    for y in 0..3 {
        for x in 0..3 {
            let expected = if (x, y) == (1, 1) { RED } else { BLACK };
            assert_eq!(image.get_pixel(x, y), expected);
        }
    }
}
