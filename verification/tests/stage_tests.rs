use voxel_core::chunk::{Chunk, Vec3i};
use voxel_core::registry::BlockRegistry;
use voxel_core::stages::{BaseTerrainStage, GridLandStage, LimitedStage};

#[test]
fn grid_land_draws_outlines_and_soiling() {
    let stage = GridLandStage::new().add_soiling(2, 10).set_grid(10, 1);
    let mut chunk = Chunk::new(Vec3i(0, 0, 0), Vec3i(12, 16, 12));
    stage.process(&mut chunk);
    // Grid outlines take the marker block over the whole fill height.
    assert_eq!(chunk.get_voxel(0, 0, 3), 1);
    assert_eq!(chunk.get_voxel(10, 9, 7), 1);
    assert_eq!(chunk.get_voxel(3, 5, 10), 1);
    // Other columns get the soiling profile.
    assert_eq!(chunk.get_voxel(3, 0, 5), 2);
    assert_eq!(chunk.get_voxel(7, 9, 4), 2);
    // Above the fill height nothing is written.
    assert_eq!(chunk.get_voxel(3, 10, 5), 0);
    assert_eq!(chunk.get_voxel(0, 10, 0), 0);
}

#[test]
fn grid_land_handles_negative_coordinates() {
    let stage = GridLandStage::new().add_soiling(2, 4).set_grid(10, 1);
    let mut chunk = Chunk::new(Vec3i(-12, 0, -12), Vec3i(0, 8, 0));
    stage.process(&mut chunk);
    // x = -10 is a multiple of the spacing.
    assert_eq!(chunk.get_voxel(-10, 0, -3), 1);
    assert_eq!(chunk.get_voxel(-3, 0, -7), 2);
}

#[test]
fn query_soiling_reads_the_profile_bottom_up() {
    let stage = GridLandStage::new().add_soiling(2, 3).add_soiling(9, 2);
    assert_eq!(stage.query_soiling(0), Some(2));
    assert_eq!(stage.query_soiling(2), Some(2));
    assert_eq!(stage.query_soiling(3), Some(9));
    assert_eq!(stage.query_soiling(4), Some(9));
    assert_eq!(stage.query_soiling(5), None);
}

#[test]
fn limited_stage_fills_only_inside_the_island_window() {
    let mut registry = BlockRegistry::new();
    registry.register("Stone", 7);
    let stage = LimitedStage;

    let mut inside = Chunk::new(Vec3i(0, 0, 0), Vec3i(4, 16, 4));
    stage.process(&mut inside, (1, -1), &registry);
    assert_eq!(inside.get_voxel(0, 0, 0), 7);
    assert_eq!(inside.get_voxel(3, 9, 3), 7);
    assert_eq!(inside.get_voxel(2, 10, 2), 0);

    let mut outside = Chunk::new(Vec3i(0, 0, 0), Vec3i(4, 16, 4));
    stage.process(&mut outside, (2, 0), &registry);
    assert_eq!(outside.get_voxel(0, 0, 0), 0);
    assert_eq!(outside.get_voxel(3, 9, 3), 0);
}

#[test]
fn base_terrain_fills_columns_that_meet_the_threshold() {
    let stage = BaseTerrainStage::new(0, 2, 9);
    let mut chunk = Chunk::new(Vec3i(0, 0, 0), Vec3i(2, 12, 2));
    // One combined value per column, x-major over the 2 by 2 footprint.
    let samples = vec![1, -1, 0, 5];
    stage.process(&mut chunk, &samples);
    assert_eq!(chunk.get_voxel(0, 0, 0), 9);
    assert_eq!(chunk.get_voxel(0, 1, 0), 9);
    assert_eq!(chunk.get_voxel(0, 2, 0), 0);
    assert_eq!(chunk.get_voxel(0, 0, 1), 0);
    assert_eq!(chunk.get_voxel(1, 0, 0), 9);
    assert_eq!(chunk.get_voxel(1, 1, 1), 9);
}
