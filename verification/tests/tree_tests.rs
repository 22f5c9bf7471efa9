use voxel_core::chunk::{Chunk, Vec3i};
use voxel_core::fixed::FP_ONE;
use voxel_core::lsystem::LSystem;
use voxel_core::registry::BlockRegistry;
use voxel_core::terrain::NoiseOptions;
use voxel_core::tree::{Tree, TreeStage, Trees};

fn boulder() -> Tree {
    Tree::new(2, 0)
        .leaf_height(1)
        .leaf_radius(1)
        .system(LSystem::new().initiator("%").iterations(0).build())
        .build()
}

#[test]
fn should_plant_compares_the_raw_sample_to_the_threshold() {
    let mut trees = Trees::new(4213, &NoiseOptions::new().frequency(400_000));
    trees.set_threshold(3_500_000);
    assert!(trees.should_plant(3_500_000));
    assert!(trees.should_plant(4_000_000));
    assert!(!trees.should_plant(3_499_999));
}

#[test]
fn a_leaf_blob_fills_a_rounded_volume_around_the_root() {
    let mut trees = Trees::new(0, &NoiseOptions::new());
    trees.register("Boulder", boulder());
    let writes = trees.generate("Boulder", Vec3i(0, 0, 0));
    // Radius-one discs keep the center and the four edge cells, on three
    // levels: fifteen leaf writes in all.
    assert_eq!(writes.len(), 15);
    assert!(writes.contains(&(Vec3i(0, 0, 0), 2)));
    assert!(writes.contains(&(Vec3i(1, 0, 0), 2)));
    assert!(writes.contains(&(Vec3i(0, -1, 0), 2)));
    assert!(writes.contains(&(Vec3i(0, 1, -1), 2)));
    // The roundness test drops the corners.
    assert!(!writes.contains(&(Vec3i(1, 0, 1), 2)));
    for w in &writes {
        assert_eq!(w.1, 2);
    }
}

#[test]
fn a_trunk_climbs_straight_up_from_the_root() {
    let trunk = Tree::new(5, 9)
        .branch_initial_radius(0)
        .branch_initial_length(2)
        .system(LSystem::new().initiator("F").iterations(0).build())
        .build();
    let mut trees = Trees::new(0, &NoiseOptions::new());
    trees.register("Pole", trunk);
    let writes = trees.generate("Pole", Vec3i(4, 10, -3));
    assert_eq!(writes, vec![(Vec3i(4, 11, -3), 9), (Vec3i(4, 12, -3), 9)]);
}

#[test]
fn generation_is_deterministic() {
    let oak = Tree::new(5004, 5003)
        .leaf_height(2)
        .leaf_radius(2)
        .branch_initial_radius(1)
        .branch_initial_length(3)
        .branch_radius_factor(800_000)
        .branch_length_factor(500_000)
        .branch_dy_angle(voxel_core::tree::Rotation { cos: 707_107, sin: 707_107 })
        .branch_drot_angle(voxel_core::tree::Rotation { cos: 707_107, sin: 707_107 })
        .system(
            LSystem::new()
                .initiator("A")
                .rule(b'A', "FF[[#B]++[#B]]+%!A")
                .rule(b'B', "%F#@%B")
                .iterations(3)
                .build(),
        )
        .build();
    let mut trees = Trees::new(4213, &NoiseOptions::new());
    trees.register("Oak", oak);
    let first = trees.generate("Oak", Vec3i(0, 5, 0));
    let second = trees.generate("Oak", Vec3i(0, 5, 0));
    assert_eq!(first, second);
    assert!(first.len() > 0);
    for w in &first {
        assert!(w.1 == 5004 || w.1 == 5003);
    }
}

#[test]
fn the_stage_plants_on_dirt_and_leaves_other_columns_alone() {
    let mut registry = BlockRegistry::new();
    registry.register("Dirt", 3);
    registry.register("Grass Block", 4);

    let mut chunk = Chunk::new(Vec3i(0, 0, 0), Vec3i(2, 16, 2));
    // Column (0, 0) has a dirt surface; the rest stay air.
    chunk.set_voxel(0, 0, 0, 3);

    let mut trees = Trees::new(0, &NoiseOptions::new());
    trees.set_threshold(0);
    trees.register("Boulder", boulder());
    let stage = TreeStage::new().with(trees, "Boulder");

    // One raw placement sample per column, x-major: only column (0, 0)
    // meets the threshold.
    let samples = vec![vec![FP_ONE, -FP_ONE, -FP_ONE, -FP_ONE]];
    stage.process(&mut chunk, &registry, &samples);

    // The blob around the dirt surface at (0, 0, 0) wrote leaf blocks.
    assert_eq!(chunk.get_voxel(0, 1, 0), 2);
    assert_eq!(chunk.get_voxel(1, 0, 0), 2);
    // An untouched column keeps its air.
    assert_eq!(chunk.get_voxel(1, 5, 1), 0);
}
