use voxel_core::fixed::FP_ONE;
use voxel_core::terrain::{Biome, NoiseOptions, TerrainField, TerrainLayer};

fn flat_layer(name: &str, bias: i64, offset: i64) -> TerrainLayer {
    TerrainLayer::new(name, NoiseOptions::new())
        .add_bias_points(vec![(-FP_ONE, bias), (FP_ONE, bias)])
        .expect("bias points")
        .add_offset_points(vec![(-FP_ONE, offset), (FP_ONE, offset)])
        .expect("offset points")
}

#[test]
fn fresh_layer_passes_raw_samples_through() {
    let layer = TerrainLayer::new("identity", NoiseOptions::new());
    assert_eq!(layer.sample(250_000), 250_000);
    assert_eq!(layer.sample(-FP_ONE), -FP_ONE as i128);
}

#[test]
fn layer_applies_bias_and_offset() {
    // bias 2.0, offset 0.25: output = 2 * raw + 0.25.
    let layer = flat_layer("shaped", 2 * FP_ONE, FP_ONE / 4);
    assert_eq!(layer.sample(FP_ONE / 2), (FP_ONE + FP_ONE / 4) as i128);
    assert_eq!(layer.sample(0), (FP_ONE / 4) as i128);
}

#[test]
fn field_sums_weighted_layers_in_order() {
    let mut field = TerrainField::new();
    field.add_layer(flat_layer("a", FP_ONE, 0), FP_ONE);
    field.add_layer(flat_layer("b", 2 * FP_ONE, 0), FP_ONE / 2);
    // raw 1.0 for both: 1.0 * 1.0 + 2.0 * 0.5 == 2.0.
    let v = field.sample(&vec![FP_ONE, FP_ONE], &vec![]);
    assert_eq!(v, 2 * FP_ONE as i128);
}

#[test]
fn zero_weight_layers_are_transparent() {
    let mut with_noop = TerrainField::new();
    with_noop.add_layer(flat_layer("a", FP_ONE, 0), FP_ONE);
    with_noop.add_layer(flat_layer("noop", 5 * FP_ONE, 7), 0);
    with_noop.add_layer(flat_layer("b", 2 * FP_ONE, 0), FP_ONE);

    let mut without = TerrainField::new();
    without.add_layer(flat_layer("a", FP_ONE, 0), FP_ONE);
    without.add_layer(flat_layer("b", 2 * FP_ONE, 0), FP_ONE);

    let raw = 123_456;
    assert_eq!(
        with_noop.sample(&vec![raw, 999_999, raw], &vec![]),
        without.sample(&vec![raw, raw], &vec![])
    );
}

#[test]
fn additive_noise_layers_perturb_the_base() {
    let mut field = TerrainField::new();
    field.add_layer(flat_layer("base", FP_ONE, 0), FP_ONE);
    field.add_noise_layer(flat_layer("erosion", FP_ONE, 0), 15_000);
    // base 1.0 * 1.0 plus 1.0 * 0.015.
    let v = field.sample(&vec![FP_ONE], &vec![FP_ONE]);
    assert_eq!(v, (FP_ONE + 15_000) as i128);
}

#[test]
fn sample_is_deterministic_across_repeated_calls() {
    let mut field = TerrainField::new();
    field.add_layer(flat_layer("a", 3 * FP_ONE, 11), FP_ONE / 4);
    let raws = vec![-777_777];
    assert_eq!(field.sample(&raws, &vec![]), field.sample(&raws, &vec![]));
}

#[test]
fn classify_picks_the_nearest_biome() {
    let cap = FP_ONE / 5;
    let mut field = TerrainField::new();
    field.add_biome((0, 0, 0), Biome::new("Plains", "Grass Block"));
    field.add_biome((cap, 0, 0), Biome::new("Hills", "Stone"));
    field.add_biome((0, cap, 0), Biome::new("Woods", "Dirt"));

    let b = field.classify((cap - 1000, 0, 0)).expect("some biome");
    assert_eq!(b.name, "Hills");
    let b = field.classify((0, 0, 0)).expect("some biome");
    assert_eq!(b.name, "Plains");
}

#[test]
fn classify_resolves_ties_to_the_earliest_biome() {
    let mut field = TerrainField::new();
    field.add_biome((FP_ONE, 0, 0), Biome::new("First", "Stone"));
    field.add_biome((-FP_ONE, 0, 0), Biome::new("Second", "Dirt"));
    // The origin is equidistant from both reference points.
    let b = field.classify((0, 0, 0)).expect("some biome");
    assert_eq!(b.name, "First");
}

#[test]
fn classify_is_total_once_a_biome_is_registered() {
    let mut field = TerrainField::new();
    assert!(field.classify((1, 2, 3)).is_none());
    field.add_biome((0, 0, 0), Biome::new("Only", "Stone"));
    assert!(field.classify((1, 2, 3)).is_some());
}
