use std::collections::HashSet;
use town::coords::{int_grid_index_to_grid_coords_fits, GridCoords};
use town::level::{
    collision_grid_coords, collisions_from_layers, level_height, level_measurements, CollisionIndex,
    LayerInstance, LevelError, LevelMeasurements,
};

fn layer(identifier: &str, c_wid: i32, c_hei: i32, grid_size: i32, int_grid_csv: Vec<i32>) -> LayerInstance {
    LayerInstance { identifier: identifier.to_string(), c_wid, c_hei, grid_size, int_grid_csv }
}

#[test]
fn measurements_of_uniform_layers() {
    let layers = Some(vec![layer("Ground", 16, 12, 16, vec![]), layer("Collisions", 16, 12, 16, vec![])]);
    assert_eq!(
        level_measurements(256, 192, &layers),
        Ok(LevelMeasurements { px_wid: 256, px_hei: 192, c_wid: 16, c_hei: 12, grid_size: 16 })
    );
}

#[test]
fn measurements_errors() {
    let layers = Some(vec![layer("Ground", 16, 12, 16, vec![])]);
    assert_eq!(level_measurements(-1, 192, &layers), Err(LevelError::NegativeLevelWidth));
    assert_eq!(level_measurements(256, -1, &layers), Err(LevelError::NegativeLevelHeight));
    assert_eq!(level_measurements(256, 192, &None), Err(LevelError::NoLayerInstances));
    assert_eq!(level_measurements(256, 192, &Some(vec![])), Err(LevelError::MeasurementsNotUnique));
    let differing = Some(vec![layer("A", 16, 12, 16, vec![]), layer("B", 16, 12, 8, vec![])]);
    assert_eq!(level_measurements(256, 192, &differing), Err(LevelError::MeasurementsNotUnique));
    let negative = Some(vec![layer("A", 16, 12, 16, vec![]), layer("B", 16, -12, -16, vec![])]);
    assert_eq!(level_measurements(256, 192, &negative), Err(LevelError::NegativeLayerHeight));
    // reading stops at the first layer that differs, before a later negative one
    let differ_first = Some(vec![
        layer("A", 16, 12, 16, vec![]),
        layer("B", 16, 12, 8, vec![]),
        layer("C", -16, 12, 16, vec![]),
    ]);
    assert_eq!(level_measurements(256, 192, &differ_first), Err(LevelError::MeasurementsNotUnique));
    let negative_first = Some(vec![
        layer("A", 16, 12, 16, vec![]),
        layer("B", 16, 12, -8, vec![]),
        layer("C", 16, 12, 8, vec![]),
    ]);
    assert_eq!(level_measurements(256, 192, &negative_first), Err(LevelError::NegativeGridSize));
    let negative = Some(vec![layer("A", -16, 12, 16, vec![])]);
    assert_eq!(level_measurements(256, 192, &negative), Err(LevelError::NegativeLayerWidth));
    let negative = Some(vec![layer("A", 16, 12, -16, vec![])]);
    assert_eq!(level_measurements(256, 192, &negative), Err(LevelError::NegativeGridSize));
}

#[test]
fn collisions_are_the_cells_holding_one() {
    let layers = Some(vec![
        layer("Ground", 3, 3, 16, vec![1, 1, 1, 1, 1, 1, 1, 1, 1]),
        layer("Collisions", 3, 3, 16, vec![0, 0, 0, 1, 1, 0, 2, 0, 1]),
    ]);
    let expected: HashSet<usize> = HashSet::from([3, 4, 8]);
    assert_eq!(collisions_from_layers(&layers), Ok(expected));
}

#[test]
fn collisions_errors() {
    assert_eq!(collisions_from_layers(&None), Err(LevelError::NoLayerInstances));
    let none = Some(vec![layer("Ground", 3, 3, 16, vec![1])]);
    assert_eq!(collisions_from_layers(&none), Err(LevelError::CollisionsLayerNotUnique));
    let two = Some(vec![layer("Collisions", 1, 1, 16, vec![1]), layer("Collisions", 1, 1, 16, vec![0])]);
    assert_eq!(collisions_from_layers(&two), Err(LevelError::CollisionsLayerNotUnique));
    let negative = Some(vec![layer("Collisions", 2, 1, 16, vec![1, -1])]);
    assert_eq!(collisions_from_layers(&negative), Err(LevelError::NegativeCellValue));
    let empty = Some(vec![layer("Collisions", 0, 0, 16, vec![])]);
    assert_eq!(collisions_from_layers(&empty), Ok(HashSet::new()));
}

#[test]
fn level_height_of_pixels() {
    assert_eq!(level_height(192), Some(192));
    assert_eq!(level_height(0), Some(0));
    assert_eq!(level_height(-5), None);
}

#[test]
fn collision_cells_on_the_grid() {
    let m = LevelMeasurements { px_wid: 48, px_hei: 48, c_wid: 3, c_hei: 3, grid_size: 16 };
    // index 0 is LDtk's top-left cell, the grid's top row
    assert_eq!(collision_grid_coords(&m, &CollisionIndex(0)), Some(GridCoords { x: 0, y: 2 }));
    assert_eq!(collision_grid_coords(&m, &CollisionIndex(5)), Some(GridCoords { x: 2, y: 1 }));
    assert_eq!(collision_grid_coords(&m, &CollisionIndex(9)), None);
    assert!(int_grid_index_to_grid_coords_fits(9, 3, 3));
    assert!(!int_grid_index_to_grid_coords_fits(0, 1 << 16, 1 << 16));
}
