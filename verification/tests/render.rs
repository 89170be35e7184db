use voxelize::body::Body;
use voxelize::camera::{Camera, Viewpoint};
use voxelize::ray::RayError;
use voxelize::render::{build_view, cast_ray, Hit, TRACE_LIMIT};
use voxelize::vector::{ivec2, ivec3, Fixed3, IVec2, IVec3};
use voxelize::voxel::{Model, Size, Voxel};

fn hit(pixel: IVec2, cell: IVec3, value: u8) -> Hit<u8> {
    Hit { pixel, cell, value }
}

/// A model of the given cells; each cell's palette index is
/// `1 + x + 4 * y + 16 * z`.
fn model(size: u32, cells: &[(u8, u8, u8)]) -> Model {
    Model {
        size: Size { x: size, y: size, z: size },
        voxels: cells.iter().map(|&(x, y, z)| Voxel { x, y, z, i: 1 + x + 4 * y + 16 * z }).collect(),
    }
}

fn index(x: u8, y: u8, z: u8) -> u8 {
    1 + x + 4 * y + 16 * z
}

fn plate() -> Model {
    model(2, &[(0, 0, 0), (1, 0, 0), (0, 1, 0), (1, 1, 0)])
}

#[test]
fn trace_limit_is_256() {
    assert_eq!(TRACE_LIMIT, 256);
}

#[test]
fn cast_ray_returns_the_first_cell_that_holds_something() {
    let column = model(4, &[(1, 1, 0), (1, 1, 2)]);
    let down = cast_ray(&column, Fixed3 { x: 1, y: 1, z: 3, unit: 1 }, ivec3(0, 0, -1), 10);
    assert_eq!(down, Ok(Some((ivec3(1, 1, 2), index(1, 1, 2)))));
    let up = cast_ray(&column, Fixed3 { x: 1, y: 1, z: -3, unit: 1 }, ivec3(0, 0, 1), 10);
    assert_eq!(up, Ok(Some((ivec3(1, 1, 0), index(1, 1, 0)))));
}

#[test]
fn cast_ray_gives_up_at_the_limit() {
    let column = model(4, &[(1, 1, 0)]);
    let start = Fixed3 { x: 1, y: 1, z: 5, unit: 1 };
    assert_eq!(cast_ray(&column, start, ivec3(0, 0, -1), 5), Ok(None));
    assert_eq!(
        cast_ray(&column, start, ivec3(0, 0, -1), 6),
        Ok(Some((ivec3(1, 1, 0), index(1, 1, 0))))
    );
    assert_eq!(cast_ray(&column, start, ivec3(1, 0, 0), 100), Ok(None));
    assert_eq!(cast_ray(&column, start, ivec3(0, 0, 0), 100), Err(RayError::ZeroDirection));
}

#[test]
fn a_plate_at_scale_one_shows_every_cell() {
    // The corners of the box are drawn at 0 and 1 on both axes: the frame
    // starts at (0, 0) and is two pixels wide and high. The top row of the
    // picture is the far row of the plate.
    let camera = Viewpoint::new(Camera::ObliqueNorth, 1, 10).unwrap();
    let view = build_view(&plate(), &camera);
    assert_eq!(
        view,
        vec![
            hit(ivec2(0, 0), ivec3(0, 1, 0), index(0, 1, 0)),
            hit(ivec2(1, 0), ivec3(1, 1, 0), index(1, 1, 0)),
            hit(ivec2(0, 1), ivec3(0, 0, 0), index(0, 0, 0)),
            hit(ivec2(1, 1), ivec3(1, 0, 0), index(1, 0, 0)),
        ]
    );
}

#[test]
fn a_plate_at_scale_two_is_three_pixels_wide() {
    // A pixel is half a cell: the pixels 0, 1 and 2 lie over 0, 1/2 and 1,
    // and half a cell goes to the higher cell.
    let camera = Viewpoint::new(Camera::ObliqueNorth, 2, 10).unwrap();
    let view = build_view(&plate(), &camera);
    assert_eq!(
        view,
        vec![
            hit(ivec2(0, 0), ivec3(0, 1, 0), index(0, 1, 0)),
            hit(ivec2(1, 0), ivec3(1, 1, 0), index(1, 1, 0)),
            hit(ivec2(2, 0), ivec3(1, 1, 0), index(1, 1, 0)),
            hit(ivec2(0, 1), ivec3(0, 1, 0), index(0, 1, 0)),
            hit(ivec2(1, 1), ivec3(1, 1, 0), index(1, 1, 0)),
            hit(ivec2(2, 1), ivec3(1, 1, 0), index(1, 1, 0)),
            hit(ivec2(0, 2), ivec3(0, 0, 0), index(0, 0, 0)),
            hit(ivec2(1, 2), ivec3(1, 0, 0), index(1, 0, 0)),
            hit(ivec2(2, 2), ivec3(1, 0, 0), index(1, 0, 0)),
        ]
    );
}

#[test]
fn a_plate_seen_from_the_east() {
    // East turns the plate a quarter: its y axis runs to the left of the
    // picture and its x axis upward.
    let camera = Viewpoint::new(Camera::ObliqueEast, 2, 10).unwrap();
    let view = build_view(&plate(), &camera);
    assert_eq!(
        view,
        vec![
            hit(ivec2(0, 0), ivec3(1, 1, 0), index(1, 1, 0)),
            hit(ivec2(1, 0), ivec3(1, 1, 0), index(1, 1, 0)),
            hit(ivec2(2, 0), ivec3(1, 0, 0), index(1, 0, 0)),
            hit(ivec2(0, 1), ivec3(1, 1, 0), index(1, 1, 0)),
            hit(ivec2(1, 1), ivec3(1, 1, 0), index(1, 1, 0)),
            hit(ivec2(2, 1), ivec3(1, 0, 0), index(1, 0, 0)),
            hit(ivec2(0, 2), ivec3(0, 1, 0), index(0, 1, 0)),
            hit(ivec2(1, 2), ivec3(0, 1, 0), index(0, 1, 0)),
            hit(ivec2(2, 2), ivec3(0, 0, 0), index(0, 0, 0)),
        ]
    );
}

#[test]
fn the_nearer_cell_hides_the_farther() {
    // A floor of 3 x 3 cells and one cell two above its middle. Seen from
    // the north the raised cell covers the floor at (0, 2). The top row of
    // the frame lies over the far edge of the box, where nothing is.
    let mut cells = Vec::new();
    for y in 0..3 {
        for x in 0..3 {
            cells.push((x, y, 0));
        }
    }
    cells.push((1, 1, 2));
    let camera = Viewpoint::new(Camera::ObliqueNorth, 1, 10).unwrap();
    let view = build_view(&model(3, &cells), &camera);
    assert_eq!(
        view,
        vec![
            hit(ivec2(1, 1), ivec3(1, 1, 2), index(1, 1, 2)),
            hit(ivec2(2, 1), ivec3(1, 2, 0), index(1, 2, 0)),
            hit(ivec2(3, 1), ivec3(2, 2, 0), index(2, 2, 0)),
            hit(ivec2(1, 2), ivec3(0, 1, 0), index(0, 1, 0)),
            hit(ivec2(2, 2), ivec3(1, 1, 0), index(1, 1, 0)),
            hit(ivec2(3, 2), ivec3(2, 1, 0), index(2, 1, 0)),
            hit(ivec2(1, 3), ivec3(0, 0, 0), index(0, 0, 0)),
            hit(ivec2(2, 3), ivec3(1, 0, 0), index(1, 0, 0)),
            hit(ivec2(3, 3), ivec3(2, 0, 0), index(2, 0, 0)),
        ]
    );
}

#[test]
fn pixels_are_listed_row_by_row_without_repeats() {
    let mut cells = Vec::new();
    for z in 0..4 {
        for y in 0..4 {
            for x in 0..4 {
                if (x + y + z) % 3 != 0 {
                    cells.push((x, y, z));
                }
            }
        }
    }
    let body = model(4, &cells);
    for heading in [Camera::ObliqueNorth, Camera::ObliqueEast, Camera::ObliqueSouth, Camera::ObliqueWest] {
        let camera = Viewpoint::new(heading, 2, 50).unwrap();
        let view = build_view(&body, &camera);
        assert!(!view.is_empty());
        for pair in view.windows(2) {
            let (a, b) = (pair[0].pixel, pair[1].pixel);
            assert!(a.y < b.y || (a.y == b.y && a.x < b.x));
        }
        for hit in &view {
            assert_eq!(body.sample(hit.cell), Some(hit.value));
        }
    }
}

#[test]
fn a_model_without_cells_shows_nothing() {
    let camera = Viewpoint::new(Camera::ObliqueNorth, 2, 10).unwrap();
    assert_eq!(build_view(&model(4, &[]), &camera), Vec::new());
}

#[test]
fn a_single_cell_is_seen() {
    // The box of one cell is drawn on one pixel, and the ray of that pixel
    // starts on the cell.
    let cube = Model { size: Size { x: 1, y: 1, z: 1 }, voxels: vec![Voxel { x: 0, y: 0, z: 0, i: 1 }] };
    let view = build_view(&cube, &Viewpoint::from(Camera::ObliqueNorth));
    assert_eq!(view, vec![hit(ivec2(0, 0), ivec3(0, 0, 0), 1)]);
}

#[test]
fn a_single_cell_is_seen_from_afar() {
    // The cell is drawn at pixel (1, 3); the ray of that pixel starts at
    // (5.5, -3.5, 10) and reaches the cell after nine steps.
    let camera = Viewpoint::new(Camera::ObliqueNorth, 2, 10).unwrap();
    let view = build_view(&model(4, &[(1, 1, 1)]), &camera);
    assert_eq!(view, vec![hit(ivec2(0, 0), ivec3(1, 1, 1), index(1, 1, 1))]);
}

#[test]
fn a_camera_too_far_back_sees_nothing() {
    let near = Viewpoint::new(Camera::ObliqueNorth, 2, 255).unwrap();
    assert_eq!(build_view(&plate(), &near).len(), 9);
    let far = Viewpoint::new(Camera::ObliqueNorth, 2, 256).unwrap();
    assert_eq!(build_view(&plate(), &far), Vec::new());
}

#[test]
fn a_camera_that_is_not_pulled_back_sees_the_bottom_layer() {
    let tower = model(2, &[(0, 0, 0), (1, 1, 0), (0, 0, 1), (1, 1, 1)]);
    let camera = Viewpoint::new(Camera::ObliqueNorth, 2, 0).unwrap();
    let view = build_view(&tower, &camera);
    assert!(!view.is_empty());
    for hit in &view {
        assert_eq!(hit.cell.z, 0);
    }
}

#[test]
fn a_plate_at_half_scale_shows_every_other_cell() {
    let mut cells = Vec::new();
    for y in 0..4 {
        for x in 0..4 {
            cells.push((x, y, 0));
        }
    }
    // A pixel is two cells: the pixels 0 and 1 lie over the cells 0 and 2.
    let camera = Viewpoint::with_scale(Camera::ObliqueNorth, 1, 2, 10).unwrap();
    let view = build_view(&model(4, &cells), &camera);
    assert_eq!(
        view,
        vec![
            hit(ivec2(0, 0), ivec3(0, 2, 0), index(0, 2, 0)),
            hit(ivec2(1, 0), ivec3(2, 2, 0), index(2, 2, 0)),
            hit(ivec2(0, 1), ivec3(0, 0, 0), index(0, 0, 0)),
            hit(ivec2(1, 1), ivec3(2, 0, 0), index(2, 0, 0)),
        ]
    );
}
