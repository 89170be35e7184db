use voxelize::body::{Body, BoundingBox};
use voxelize::raster::Color;
use voxelize::vector::ivec3;
use voxelize::voxel::{nearest_color, voxel_position, DotVoxData, DotVoxExt, Model, Size, Voxel};

fn voxel(x: u8, y: u8, z: u8, i: u8) -> Voxel {
    Voxel { x, y, z, i }
}

fn rgb(r: u8, g: u8, b: u8) -> Color {
    Color { r, g, b, a: 255 }
}

fn model() -> Model {
    Model {
        size: Size { x: 4, y: 5, z: 6 },
        voxels: vec![voxel(1, 2, 3, 7), voxel(0, 0, 0, 1), voxel(1, 2, 3, 9), voxel(3, 4, 5, 2)],
    }
}

fn scene() -> DotVoxData {
    DotVoxData {
        models: vec![model(), Model { size: Size { x: 1, y: 1, z: 1 }, voxels: Vec::new() }],
        palette: vec![rgb(0, 0, 0), rgb(255, 0, 0), rgb(250, 0, 0), rgb(0, 255, 0)],
    }
}

#[test]
fn sample_reads_the_first_voxel_at_a_cell() {
    let model = model();
    assert_eq!(model.sample(ivec3(1, 2, 3)), Some(7));
    assert_eq!(model.sample(ivec3(0, 0, 0)), Some(1));
    assert_eq!(model.sample(ivec3(3, 4, 5)), Some(2));
}

#[test]
fn sample_of_an_empty_cell_is_nothing() {
    let model = model();
    assert_eq!(model.sample(ivec3(2, 2, 2)), None);
    assert_eq!(model.sample(ivec3(3, 2, 1)), None);
}

#[test]
fn sample_outside_the_model_is_nothing() {
    let mut model = model();
    model.voxels.push(voxel(200, 0, 0, 5));
    assert_eq!(model.sample(ivec3(-1, 0, 0)), None);
    assert_eq!(model.sample(ivec3(0, -1, 0)), None);
    assert_eq!(model.sample(ivec3(0, 0, -1)), None);
    assert_eq!(model.sample(ivec3(4, 0, 0)), None);
    assert_eq!(model.sample(ivec3(0, 5, 0)), None);
    assert_eq!(model.sample(ivec3(0, 0, 6)), None);
    // A voxel beyond the size of the model is not seen.
    assert_eq!(model.sample(ivec3(200, 0, 0)), None);
    assert_eq!(model.sample(ivec3(i32::MAX, i32::MAX, i32::MAX)), None);
    assert_eq!(model.sample(ivec3(i32::MIN, 0, 0)), None);
}

#[test]
fn sample_beyond_byte_range_reads_the_last_byte() {
    let model = Model { size: Size { x: 300, y: 1, z: 1 }, voxels: vec![voxel(255, 0, 0, 4)] };
    assert_eq!(model.sample(ivec3(255, 0, 0)), Some(4));
    assert_eq!(model.sample(ivec3(299, 0, 0)), Some(4));
    assert_eq!(model.sample(ivec3(254, 0, 0)), None);
    assert_eq!(model.sample(ivec3(300, 0, 0)), None);
}

#[test]
fn bounding_box_spans_the_occupied_cells() {
    assert_eq!(model().bounding_box(), BoundingBox::new(ivec3(0, 0, 0), ivec3(3, 4, 5)));
    let one = Model { size: Size { x: 9, y: 9, z: 9 }, voxels: vec![voxel(2, 7, 4, 0)] };
    assert_eq!(one.bounding_box(), BoundingBox::new(ivec3(2, 7, 4), ivec3(2, 7, 4)));
}

#[test]
fn bounding_box_of_an_empty_model_is_empty() {
    let empty = Model { size: Size { x: 9, y: 9, z: 9 }, voxels: Vec::new() };
    assert_eq!(empty.bounding_box(), BoundingBox::default());
    assert_eq!(BoundingBox::default(), BoundingBox::new(ivec3(0, 0, 0), ivec3(0, 0, 0)));
}

#[test]
fn normal_points_to_the_open_side() {
    // A floor of 3 x 3 cells with one cell on top of its middle.
    let mut voxels = Vec::new();
    for y in 0..3 {
        for x in 0..3 {
            voxels.push(voxel(x, y, 0, 1));
        }
    }
    voxels.push(voxel(1, 1, 1, 1));
    let model = Model { size: Size { x: 3, y: 3, z: 3 }, voxels };
    // Above the top cell everything around is empty but the cell below.
    assert_eq!(model.normal(ivec3(1, 1, 2)), ivec3(0, 0, 1));
    // Beside the top cell: the floor is below, the top cell to the east.
    assert_eq!(model.normal(ivec3(0, 1, 1)), ivec3(-1, 0, 1));
    // The middle of the floor is closed on all sides but below.
    assert_eq!(model.normal(ivec3(1, 1, 0)), ivec3(0, 0, -1));
    // The top cell is open on all sides but below.
    assert_eq!(model.normal(ivec3(1, 1, 1)), ivec3(0, 0, 1));
    // Far from the model the open sides cancel.
    assert_eq!(model.normal(ivec3(10, 10, 10)), ivec3(0, 0, 0));
}

#[test]
fn voxel_position_finds_the_first() {
    let voxels = model().voxels;
    assert_eq!(voxel_position(&voxels, 1, 2, 3), Some(0));
    assert_eq!(voxel_position(&voxels, 3, 4, 5), Some(3));
    assert_eq!(voxel_position(&voxels, 3, 4, 4), None);
    assert_eq!(voxel_position(&Vec::new(), 0, 0, 0), None);
}

#[test]
fn nearest_color_sums_the_differences() {
    let palette = scene().palette;
    // 252 from black, 3 from the first red, 2 from the second.
    assert_eq!(nearest_color(&palette, rgb(252, 0, 0)), 2);
    assert_eq!(nearest_color(&palette, rgb(10, 200, 0)), 3);
    assert_eq!(nearest_color(&palette, rgb(100, 100, 100)), 0);
}

#[test]
fn nearest_color_ignores_alpha_and_takes_the_first_of_equals() {
    let palette = vec![rgb(10, 10, 10), rgb(20, 20, 20), rgb(0, 0, 0), rgb(20, 20, 20)];
    // 15 from each of the first two.
    assert_eq!(nearest_color(&palette, rgb(15, 15, 15)), 0);
    assert_eq!(nearest_color(&palette, Color { r: 21, g: 20, b: 20, a: 0 }), 1);
}

#[test]
fn set_voxel_repaints_the_first_voxel_at_the_cell() {
    let mut scene = scene();
    scene.set_voxel(0, ivec3(1, 2, 3), rgb(252, 0, 0));
    assert_eq!(
        scene.models[0].voxels,
        vec![voxel(1, 2, 3, 2), voxel(0, 0, 0, 1), voxel(1, 2, 3, 9), voxel(3, 4, 5, 2)]
    );
    assert_eq!(scene.models[0].size, Size { x: 4, y: 5, z: 6 });
    assert_eq!(scene.models[1].voxels, Vec::new());
    assert_eq!(scene.palette.len(), 4);
}

#[test]
fn set_voxel_adds_a_voxel_to_an_empty_cell() {
    let mut scene = scene();
    scene.set_voxel(1, ivec3(2, 0, 1), rgb(0, 250, 3));
    assert_eq!(scene.models[1].voxels, vec![voxel(2, 0, 1, 3)]);
    assert_eq!(scene.models[0].voxels, model().voxels);
}

#[test]
fn set_voxel_keeps_the_low_byte_of_a_coordinate() {
    let mut scene = scene();
    scene.set_voxel(1, ivec3(257, -1, 512), rgb(0, 0, 0));
    assert_eq!(scene.models[1].voxels, vec![voxel(1, 255, 0, 0)]);
}

#[test]
fn set_voxel_keeps_the_low_byte_of_the_palette_index() {
    let mut palette = vec![rgb(9, 9, 9); 300];
    palette[258] = rgb(200, 100, 50);
    let mut scene = DotVoxData {
        models: vec![Model { size: Size { x: 1, y: 1, z: 1 }, voxels: Vec::new() }],
        palette,
    };
    scene.set_voxel(0, ivec3(0, 0, 0), rgb(200, 100, 50));
    assert_eq!(scene.models[0].voxels, vec![voxel(0, 0, 0, 2)]);
}

#[test]
fn emptying_a_cell_disturbs_no_other() {
    let mut voxels = Vec::new();
    for z in 0..3 {
        for y in 0..3 {
            for x in 0..3 {
                voxels.push(voxel(x, y, z, 1 + x + 3 * y + 9 * z));
            }
        }
    }
    let solid = Model { size: Size { x: 3, y: 3, z: 3 }, voxels };
    let hollow = Model {
        size: solid.size,
        voxels: solid.voxels.iter().copied().filter(|v| (v.x, v.y, v.z) != (1, 1, 1)).collect(),
    };
    for z in -1..4 {
        for y in -1..4 {
            for x in -1..4 {
                let cell = ivec3(x, y, z);
                if (x, y, z) == (1, 1, 1) {
                    assert_eq!(hollow.sample(cell), None);
                } else {
                    assert_eq!(hollow.sample(cell), solid.sample(cell));
                }
            }
        }
    }
    assert_eq!(solid.sample(ivec3(1, 1, 1)), Some(14));
}
