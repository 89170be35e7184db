use voxelize::body::BoundingBox;
use voxelize::camera::{Camera, Viewpoint};
use voxelize::vector::{ivec2, ivec3, Fixed3};

fn plain(heading: Camera) -> Viewpoint {
    Viewpoint::new(heading, 1, 0).unwrap()
}

fn half_pixels(x: i64, y: i64, z: i64) -> Fixed3 {
    Fixed3 { x, y, z, unit: 2 }
}

#[test]
fn headings_count_quarter_turns() {
    assert_eq!(Camera::ObliqueNorth.quarter_turns(), 0);
    assert_eq!(Camera::ObliqueEast.quarter_turns(), 1);
    assert_eq!(Camera::ObliqueSouth.quarter_turns(), 2);
    assert_eq!(Camera::ObliqueWest.quarter_turns(), 3);
}

#[test]
fn viewpoint_from_a_heading_is_plain() {
    let view = Viewpoint::from(Camera::ObliqueSouth);
    assert_eq!(view.heading(), Camera::ObliqueSouth);
    assert_eq!(view.scale(), 1);
    assert_eq!(view.distance(), 0);
}

#[test]
fn viewpoint_needs_a_scale() {
    assert!(Viewpoint::new(Camera::ObliqueNorth, 0, 5).is_none());
    let view = Viewpoint::new(Camera::ObliqueWest, 3, 5).unwrap();
    assert_eq!((view.heading(), view.scale(), view.distance()), (Camera::ObliqueWest, 3, 5));
    let back = view.pulled_back(50);
    assert_eq!((back.heading(), back.scale(), back.distance()), (Camera::ObliqueWest, 3, 50));
}

#[test]
fn north_slants_without_turning() {
    // One cell up moves half a pixel left and half a pixel up.
    let view = plain(Camera::ObliqueNorth);
    assert_eq!(view.project(ivec3(0, 0, 0)), half_pixels(0, 0, 0));
    assert_eq!(view.project(ivec3(0, 0, 1)), half_pixels(-1, 1, 2));
    assert_eq!(view.project(ivec3(1, 2, 3)), half_pixels(-1, 7, 6));
}

#[test]
fn other_headings_turn_before_they_slant() {
    assert_eq!(plain(Camera::ObliqueEast).project(ivec3(1, 2, 3)), half_pixels(-7, 5, 6));
    assert_eq!(plain(Camera::ObliqueSouth).project(ivec3(1, 2, 3)), half_pixels(-5, -1, 6));
    assert_eq!(plain(Camera::ObliqueWest).project(ivec3(1, 2, 3)), half_pixels(1, 1, 6));
}

#[test]
fn scale_and_distance_come_after_the_slant() {
    let view = Viewpoint::new(Camera::ObliqueNorth, 2, 50).unwrap();
    assert_eq!(view.project(ivec3(1, 2, 3)), half_pixels(-2, 14, -188));
}

#[test]
fn rays_look_down_the_slant() {
    assert_eq!(plain(Camera::ObliqueNorth).forward(), ivec3(-1, 1, -2));
    assert_eq!(plain(Camera::ObliqueEast).forward(), ivec3(1, 1, -2));
    assert_eq!(plain(Camera::ObliqueSouth).forward(), ivec3(1, -1, -2));
    assert_eq!(plain(Camera::ObliqueWest).forward(), ivec3(-1, -1, -2));
}

#[test]
fn unproject_gives_the_start_of_a_ray() {
    let view = Viewpoint::new(Camera::ObliqueNorth, 1, 50).unwrap();
    // The point (28, -21, 50), in halves of a cell.
    assert_eq!(view.unproject(3, 4), Fixed3 { x: 56, y: -42, z: 100, unit: 2 });
    // It is drawn at pixel (3, 4), at depth zero.
    assert_eq!(view.project(ivec3(28, -21, 50)), half_pixels(6, 8, 0));
}

#[test]
fn unproject_undoes_the_turn() {
    let east = Viewpoint::new(Camera::ObliqueEast, 2, 10).unwrap();
    // Before the turn is undone: (2 * 4 + 20, 2 * -4 - 20) = (28, -28), in
    // quarters of a cell. That is the point (-7, -7, 10).
    assert_eq!(east.unproject(4, -4), Fixed3 { x: -28, y: -28, z: 40, unit: 4 });
    // It is drawn at pixel (4, -4), at depth zero.
    assert_eq!(east.project(ivec3(-7, -7, 10)), half_pixels(8, -8, 0));
}

#[test]
fn bounding_box_contains_its_low_corner_only() {
    let bounds = BoundingBox::new(ivec3(0, 0, 0), ivec3(2, 3, 4));
    assert!(bounds.contains(ivec3(0, 0, 0)));
    assert!(bounds.contains(ivec3(1, 2, 3)));
    assert!(!bounds.contains(ivec3(2, 3, 4)));
    assert!(!bounds.contains(ivec3(2, 0, 0)));
    assert!(!bounds.contains(ivec3(0, -1, 0)));
    assert!(!BoundingBox::default().contains(ivec3(0, 0, 0)));
}

#[test]
fn corners_are_counted_in_bits() {
    let bounds = BoundingBox::new(ivec3(1, 2, 3), ivec3(10, 20, 30));
    assert_eq!(
        bounds.corners(),
        vec![
            ivec3(1, 2, 3),
            ivec3(10, 2, 3),
            ivec3(1, 20, 3),
            ivec3(10, 20, 3),
            ivec3(1, 2, 30),
            ivec3(10, 2, 30),
            ivec3(1, 20, 30),
            ivec3(10, 20, 30),
        ]
    );
}

#[test]
fn screen_bounds_hold_every_drawn_corner() {
    // Corners are drawn from x = 0 - 3/2 to 2 and from y = 0 to 4 + 3/2:
    // on the pixels -2 to 2 across and 0 to 5 up.
    let bounds = BoundingBox::new(ivec3(0, 0, 0), ivec3(2, 4, 3));
    let camera = plain(Camera::ObliqueNorth);
    let (origin, size) = bounds.screen_bounds(&camera);
    assert_eq!(origin, ivec2(-2, 0));
    assert_eq!(size, ivec2(5, 6));
    for corner in bounds.corners() {
        let drawn = camera.project(corner);
        assert!(2 * origin.x as i64 <= drawn.x && drawn.x < 2 * (origin.x + size.x) as i64);
        assert!(2 * origin.y as i64 <= drawn.y && drawn.y < 2 * (origin.y + size.y) as i64);
    }
}

#[test]
fn screen_bounds_hold_a_corner_between_pixels() {
    // The corners are drawn at -1/2 and 1/2 across: on the pixels -1 and 0.
    let bounds = BoundingBox::new(ivec3(0, 0, 1), ivec3(1, 0, 1));
    let (origin, size) = bounds.screen_bounds(&plain(Camera::ObliqueNorth));
    assert_eq!(origin, ivec2(-1, 0));
    assert_eq!(size, ivec2(2, 1));
}

#[test]
fn screen_bounds_follow_the_heading_and_the_scale() {
    let bounds = BoundingBox::new(ivec3(0, 0, 0), ivec3(2, 4, 0));
    // East turns (2, 4) to (-4, 2).
    let (origin, size) = bounds.screen_bounds(&plain(Camera::ObliqueEast));
    assert_eq!((origin, size), (ivec2(-4, 0), ivec2(5, 3)));
    let doubled = Viewpoint::new(Camera::ObliqueEast, 2, 7).unwrap();
    assert_eq!(bounds.screen_bounds(&doubled), (ivec2(-8, 0), ivec2(9, 5)));
}

#[test]
fn screen_bounds_of_a_point_are_one_pixel() {
    let bounds = BoundingBox::new(ivec3(3, 3, 3), ivec3(3, 3, 3));
    let (origin, size) = bounds.screen_bounds(&plain(Camera::ObliqueNorth));
    // Drawn at (3 - 1.5, 3 + 1.5).
    assert_eq!(origin, ivec2(1, 4));
    assert_eq!(size, ivec2(1, 1));
}

#[test]
fn a_scale_can_be_a_fraction() {
    let view = Viewpoint::with_scale(Camera::ObliqueNorth, 3, 2, 7).unwrap();
    assert_eq!((view.scale(), view.divisor(), view.distance()), (3, 2, 7));
    assert_eq!(Viewpoint::new(Camera::ObliqueNorth, 3, 7).unwrap().divisor(), 1);
    assert_eq!(Viewpoint::from(Camera::ObliqueEast).divisor(), 1);
    assert_eq!(view.pulled_back(9).divisor(), 2);
    assert!(Viewpoint::with_scale(Camera::ObliqueNorth, 0, 2, 7).is_none());
    assert!(Viewpoint::with_scale(Camera::ObliqueNorth, 3, 0, 7).is_none());
}

#[test]
fn a_fraction_is_drawn_in_finer_parts_of_a_pixel() {
    // Three halves of (1 - 3/2, 2 + 3/2, 3), in quarters of a pixel.
    let view = Viewpoint::with_scale(Camera::ObliqueNorth, 3, 2, 0).unwrap();
    assert_eq!(view.project(ivec3(1, 2, 3)), Fixed3 { x: -3, y: 21, z: 18, unit: 4 });
    // The pixel (3, 4) lies over (3, 4) / (3/2) = (2, 8/3); lifted by the
    // distance of 6 that is (5, -1/3, 6), in sixths of a cell.
    let back = Viewpoint::with_scale(Camera::ObliqueNorth, 3, 2, 6).unwrap();
    assert_eq!(back.unproject(3, 4), Fixed3 { x: 30, y: -2, z: 36, unit: 6 });
}

#[test]
fn screen_bounds_shrink_with_the_scale() {
    // At half the size the corners 0 and 3 are drawn at 0 and 3/2.
    let bounds = BoundingBox::new(ivec3(0, 0, 0), ivec3(3, 3, 0));
    let half = Viewpoint::with_scale(Camera::ObliqueNorth, 1, 2, 10).unwrap();
    assert_eq!(bounds.screen_bounds(&half), (ivec2(0, 0), ivec2(2, 2)));
}
