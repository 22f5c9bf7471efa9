//! Terrain shaping and biome classification.
//!
//! A [`TerrainLayer`] couples the parameters of one seeded coherent-noise
//! field with a bias curve and an offset curve; its output for a raw noise
//! sample is `bias(raw) * raw + offset(raw)`. A [`TerrainField`] combines an
//! ordered list of weighted layers by summation, plus a list of additive
//! noise layers with (typically small) weights that perturb the base value.
//! The engine evaluates the noise fields themselves and hands the raw
//! samples in as fixed-point values, one per layer, in layer order.
//!
//! The field also owns the registered biomes: a climate vector is classified
//! to the nearest biome reference point by squared Euclidean distance, ties
//! resolved in favor of the earliest-registered biome.

use vstd::prelude::*;

use crate::curve::{points_wf, sample_points, Curve};
use crate::errors::ConfigError;
use crate::fixed::{div_fx, div_tz, fp_in_range, lemma_div_tz_range, FP_ONE};

verus! {

/// Most layers a field may hold, per list; keeps the combined sum inside
/// wide integer arithmetic.
pub const MAX_LAYERS: usize = 4096;

/// Magnitude bound on a layer weight (one thousand whole units).
pub const WEIGHT_LIMIT: i64 = 1_000_000_000;

/// Parameters of a seeded coherent-noise field, consumed by the hosting
/// engine's noise evaluator; frequency, persistence and lacunarity are
/// fixed-point scalars.
#[derive(Clone, Copy, Debug, PartialEq, Eq, Structural)]
pub struct NoiseOptions {
    pub frequency: i64,
    pub octaves: u32,
    pub persistence: i64,
    pub lacunarity: i64,
    pub seed: u32,
}

impl NoiseOptions {
    /// All-zero parameters, to be refined by the builder methods.
    pub fn new() -> (r: NoiseOptions)
        ensures
            r == (NoiseOptions { frequency: 0, octaves: 0, persistence: 0, lacunarity: 0, seed: 0 }),
    {
        NoiseOptions { frequency: 0, octaves: 0, persistence: 0, lacunarity: 0, seed: 0 }
    }

    /// Sets the frequency.
    pub fn frequency(self, frequency: i64) -> (r: NoiseOptions)
        ensures
            r == (NoiseOptions { frequency, ..self }),
    {
        NoiseOptions { frequency, ..self }
    }

    /// Sets the octave count.
    pub fn octaves(self, octaves: u32) -> (r: NoiseOptions)
        ensures
            r == (NoiseOptions { octaves, ..self }),
    {
        NoiseOptions { octaves, ..self }
    }

    /// Sets the persistence.
    pub fn persistence(self, persistence: i64) -> (r: NoiseOptions)
        ensures
            r == (NoiseOptions { persistence, ..self }),
    {
        NoiseOptions { persistence, ..self }
    }

    /// Sets the lacunarity.
    pub fn lacunarity(self, lacunarity: i64) -> (r: NoiseOptions)
        ensures
            r == (NoiseOptions { lacunarity, ..self }),
    {
        NoiseOptions { lacunarity, ..self }
    }

    /// Sets the seed.
    pub fn seed(self, seed: u32) -> (r: NoiseOptions)
        ensures
            r == (NoiseOptions { seed, ..self }),
    {
        NoiseOptions { seed, ..self }
    }
}

/// One named noise layer: noise parameters plus the bias and offset curves
/// that remap a raw sample.
pub struct TerrainLayer {
    pub name: String,
    pub options: NoiseOptions,
    bias: Curve,
    offset: Curve,
}

/// What a layer yields for a raw sample: `bias(raw) * raw + offset(raw)`,
/// the product rescaled from squared fixed-point units.
pub open spec fn layer_output(bias: Seq<(i64, i64)>, offset: Seq<(i64, i64)>, raw: int) -> int {
    div_tz(sample_points(bias, raw) * raw, FP_ONE as int) + sample_points(offset, raw)
}

/// A layer's output is bounded well inside wide-integer range.
pub proof fn lemma_layer_output_bound(bias: Seq<(i64, i64)>, offset: Seq<(i64, i64)>, raw: int)
    requires
        points_wf(bias),
        points_wf(offset),
        -0x10000000000 <= raw <= 0x10000000000,
    ensures
        -0x400000000000000000000 <= layer_output(bias, offset, raw) <= 0x400000000000000000000,
{
    crate::curve::lemma_sample_in_range(bias, raw);
    crate::curve::lemma_sample_in_range(offset, raw);
    let b = sample_points(bias, raw);
    let num = b * raw;
    assert(-0x100000000000000000000 <= num <= 0x100000000000000000000) by (nonlinear_arith)
        requires
            num == b * raw,
            -0x10000000000 <= b <= 0x10000000000,
            -0x10000000000 <= raw <= 0x10000000000,
    ;
    lemma_div_tz_range(num, FP_ONE as int);
}

impl TerrainLayer {
    /// The layer's name.
    pub closed spec fn spec_name(self) -> Seq<char> {
        self.name@
    }

    /// The layer's noise parameters.
    pub closed spec fn spec_options(self) -> NoiseOptions {
        self.options
    }

    /// The bias curve's control points.
    pub closed spec fn bias_points(self) -> Seq<(i64, i64)> {
        self.bias.control_points()
    }

    /// The offset curve's control points.
    pub closed spec fn offset_points(self) -> Seq<(i64, i64)> {
        self.offset.control_points()
    }

    /// Structural invariant: both curves well formed.
    pub open spec fn wf(self) -> bool {
        points_wf(self.bias_points()) && points_wf(self.offset_points())
    }

    /// What this layer yields for a raw sample.
    pub open spec fn spec_sample(self, raw: int) -> int {
        layer_output(self.bias_points(), self.offset_points(), raw)
    }

    /// A fresh layer whose bias is the constant one and whose offset is the
    /// constant zero, so that it passes raw samples through unchanged.
    pub fn new(name: &str, options: NoiseOptions) -> (r: TerrainLayer)
        ensures
            r.wf(),
            r.spec_name() == name@,
            r.spec_options() == options,
            r.bias_points() =~= seq![(0i64, FP_ONE)],
            r.offset_points() =~= seq![(0i64, 0i64)],
    {
        let mut bias_pts: Vec<(i64, i64)> = Vec::new();
        bias_pts.push((0, FP_ONE));
        let mut offset_pts: Vec<(i64, i64)> = Vec::new();
        offset_pts.push((0, 0));
        let bias = match Curve::new(bias_pts) {
            Ok(c) => c,
            Err(_) => {
                proof {
                    assert(false);
                }
                unreached()
            },
        };
        let offset = match Curve::new(offset_pts) {
            Ok(c) => c,
            Err(_) => {
                proof {
                    assert(false);
                }
                unreached()
            },
        };
        TerrainLayer { name: name.to_owned(), options, bias, offset }
    }

    /// Replaces the bias curve; rejects ill-formed control points exactly as
    /// [`Curve::new`] does.
    pub fn add_bias_points(self, points: Vec<(i64, i64)>) -> (r: Result<
        TerrainLayer,
        ConfigError,
    >)
        requires
            self.wf(),
        ensures
            r matches Ok(l) ==> l.wf() && l.bias_points() == points@ && l.offset_points() == self
                .offset_points() && l.spec_name() == self.spec_name() && l.spec_options() == self.spec_options(),
            r is Ok <==> points_wf(points@),
    {
        match Curve::new(points) {
            Ok(c) => Ok(TerrainLayer { bias: c, ..self }),
            Err(e) => Err(e),
        }
    }

    /// Replaces the offset curve; rejects ill-formed control points exactly
    /// as [`Curve::new`] does.
    pub fn add_offset_points(self, points: Vec<(i64, i64)>) -> (r: Result<
        TerrainLayer,
        ConfigError,
    >)
        requires
            self.wf(),
        ensures
            r matches Ok(l) ==> l.wf() && l.offset_points() == points@ && l.bias_points() == self
                .bias_points() && l.spec_name() == self.spec_name() && l.spec_options() == self.spec_options(),
            r is Ok <==> points_wf(points@),
    {
        match Curve::new(points) {
            Ok(c) => Ok(TerrainLayer { offset: c, ..self }),
            Err(e) => Err(e),
        }
    }

    /// Applies the layer to one raw noise sample.
    pub fn sample(&self, raw: i64) -> (r: i128)
        requires
            self.wf(),
            fp_in_range(raw),
        ensures
            r == self.spec_sample(raw as int),
    {
        let b = self.bias.sample(raw);
        let o = self.offset.sample(raw);
        proof {
            assert(-0x100000000000000000000 <= b as int * raw as int
                <= 0x100000000000000000000) by (nonlinear_arith)
                requires
                    -0x10000000000 <= b as int <= 0x10000000000,
                    -0x10000000000 <= raw as int <= 0x10000000000,
            ;
        }
        let num = b as i128 * raw as i128;
        let q = div_fx(num, FP_ONE as i128);
        proof {
            lemma_div_tz_range(num as int, FP_ONE as int);
        }
        q + o as i128
    }
}

/// A label plus the block it builds, registered at a reference point in
/// climate space.
#[derive(Debug)]
pub struct Biome {
    pub name: String,
    pub block: String,
}

impl Biome {
    /// Makes a biome from its label and block name.
    pub fn new(name: &str, block: &str) -> (r: Biome)
        ensures
            r.name@ == name@,
            r.block@ == block@,
    {
        Biome { name: name.to_owned(), block: block.to_owned() }
    }
}

/// Squared Euclidean distance between two climate vectors.
pub open spec fn dist2(a: (i64, i64, i64), b: (i64, i64, i64)) -> int {
    (a.0 - b.0) * (a.0 - b.0) + (a.1 - b.1) * (a.1 - b.1) + (a.2 - b.2) * (a.2 - b.2)
}

/// A weighted sum of layer outputs, in insertion order: each term is one
/// layer's output for its raw sample, scaled by the layer's weight.
pub open spec fn field_sum(layers: Seq<(TerrainLayer, i64)>, raws: Seq<i64>) -> int
    recommends
        layers.len() == raws.len(),
    decreases layers.len(),
{
    if layers.len() == 0 {
        0
    } else {
        field_sum(layers.drop_last(), raws.drop_last()) + layer_term(
            layers.last().0,
            layers.last().1,
            raws.last() as int,
        )
    }
}

/// One weighted term: the layer's output scaled by its weight, rescaled
/// from fixed-point units.
pub open spec fn layer_term(layer: TerrainLayer, weight: i64, raw: int) -> int {
    div_tz(layer.spec_sample(raw) * weight, FP_ONE as int)
}

/// An ordered list of weighted primary layers, a list of weighted additive
/// noise layers, and the registered biomes.
pub struct TerrainField {
    layers: Vec<(TerrainLayer, i64)>,
    noise_layers: Vec<(TerrainLayer, i64)>,
    biomes: Vec<((i64, i64, i64), Biome)>,
}

impl TerrainField {
    /// The weighted primary layers, in insertion order.
    pub closed spec fn spec_layers(self) -> Seq<(TerrainLayer, i64)> {
        self.layers@
    }

    /// The weighted additive noise layers, in insertion order.
    pub closed spec fn spec_noise_layers(self) -> Seq<(TerrainLayer, i64)> {
        self.noise_layers@
    }

    /// The registered biomes with their climate reference points, in
    /// registration order.
    pub closed spec fn spec_biomes(self) -> Seq<((i64, i64, i64), Biome)> {
        self.biomes@
    }

    /// Well-formed weighted layers: each layer well formed, each weight
    /// bounded, not more than [`MAX_LAYERS`].
    pub open spec fn layers_wf(layers: Seq<(TerrainLayer, i64)>) -> bool {
        &&& layers.len() <= MAX_LAYERS
        &&& forall|i: int|
            0 <= i < layers.len() ==> (#[trigger] layers[i]).0.wf() && -WEIGHT_LIMIT
                <= layers[i].1 <= WEIGHT_LIMIT
    }

    /// Structural invariant.
    pub open spec fn wf(self) -> bool {
        &&& Self::layers_wf(self.spec_layers())
        &&& Self::layers_wf(self.spec_noise_layers())
        &&& self.spec_biomes().len() <= MAX_LAYERS
        &&& forall|i: int|
            0 <= i < self.spec_biomes().len() ==> fp_in_range(
                (#[trigger] self.spec_biomes()[i]).0.0,
            ) && fp_in_range(self.spec_biomes()[i].0.1) && fp_in_range(self.spec_biomes()[i].0.2)
    }

    /// An empty field: no layers, no biomes.
    pub fn new() -> (r: TerrainField)
        ensures
            r.wf(),
            r.spec_layers().len() == 0,
            r.spec_noise_layers().len() == 0,
            r.spec_biomes().len() == 0,
    {
        TerrainField { layers: Vec::new(), noise_layers: Vec::new(), biomes: Vec::new() }
    }

    /// Appends a weighted primary layer.
    pub fn add_layer(&mut self, layer: TerrainLayer, weight: i64)
        requires
            old(self).wf(),
            layer.wf(),
            -WEIGHT_LIMIT <= weight <= WEIGHT_LIMIT,
            old(self).spec_layers().len() < MAX_LAYERS,
        ensures
            final(self).wf(),
            final(self).spec_layers() == old(self).spec_layers().push((layer, weight)),
            final(self).spec_noise_layers() == old(self).spec_noise_layers(),
            final(self).spec_biomes() == old(self).spec_biomes(),
    {
        self.layers.push((layer, weight));
    }

    /// Appends a weighted additive noise layer.
    pub fn add_noise_layer(&mut self, layer: TerrainLayer, weight: i64)
        requires
            old(self).wf(),
            layer.wf(),
            -WEIGHT_LIMIT <= weight <= WEIGHT_LIMIT,
            old(self).spec_noise_layers().len() < MAX_LAYERS,
        ensures
            final(self).wf(),
            final(self).spec_noise_layers() == old(self).spec_noise_layers().push(
                (layer, weight),
            ),
            final(self).spec_layers() == old(self).spec_layers(),
            final(self).spec_biomes() == old(self).spec_biomes(),
    {
        self.noise_layers.push((layer, weight));
    }

    /// Registers a biome at a climate reference point.
    pub fn add_biome(&mut self, point: (i64, i64, i64), biome: Biome)
        requires
            old(self).wf(),
            fp_in_range(point.0) && fp_in_range(point.1) && fp_in_range(point.2),
            old(self).spec_biomes().len() < MAX_LAYERS,
        ensures
            final(self).wf(),
            final(self).spec_biomes() == old(self).spec_biomes().push((point, biome)),
            final(self).spec_layers() == old(self).spec_layers(),
            final(self).spec_noise_layers() == old(self).spec_noise_layers(),
    {
        self.biomes.push((point, biome));
    }

    /// Number of primary layers, which is how many raw samples `sample`
    /// expects in its first argument.
    pub fn layer_count(&self) -> (r: usize)
        ensures
            r == self.spec_layers().len(),
    {
        self.layers.len()
    }

    /// Number of additive noise layers.
    pub fn noise_layer_count(&self) -> (r: usize)
        ensures
            r == self.spec_noise_layers().len(),
    {
        self.noise_layers.len()
    }

    /// Number of registered biomes.
    pub fn biome_count(&self) -> (r: usize)
        ensures
            r == self.spec_biomes().len(),
    {
        self.biomes.len()
    }

    /// Combines the layers for one column: the weighted sum of the primary
    /// layers' outputs on their raw samples, plus the weighted sum of the
    /// additive noise layers' outputs on theirs. Raw samples are given in
    /// layer order, one per layer.
    pub fn sample(&self, raws: &Vec<i64>, noise_raws: &Vec<i64>) -> (r: i128)
        requires
            self.wf(),
            raws@.len() == self.spec_layers().len(),
            noise_raws@.len() == self.spec_noise_layers().len(),
            forall|i: int| 0 <= i < raws@.len() ==> fp_in_range(#[trigger] raws@[i]),
            forall|i: int| 0 <= i < noise_raws@.len() ==> fp_in_range(#[trigger] noise_raws@[i]),
        ensures
            r == field_sum(self.spec_layers(), raws@) + field_sum(
                self.spec_noise_layers(),
                noise_raws@,
            ),
    {
        let a = Self::sum_layers(&self.layers, raws);
        let b = Self::sum_layers(&self.noise_layers, noise_raws);
        a + b
    }

    /// Weighted sum over one layer list.
    fn sum_layers(layers: &Vec<(TerrainLayer, i64)>, raws: &Vec<i64>) -> (r: i128)
        requires
            Self::layers_wf(layers@),
            raws@.len() == layers@.len(),
            forall|i: int| 0 <= i < raws@.len() ==> fp_in_range(#[trigger] raws@[i]),
        ensures
            r == field_sum(layers@, raws@),
            -0x10000000000000000000000000000000 <= r <= 0x10000000000000000000000000000000,
    {
        let n = layers.len();
        let mut acc: i128 = 0;
        let mut i: usize = 0;
        proof {
            assert(layers@.take(0) =~= Seq::<(TerrainLayer, i64)>::empty());
            assert(raws@.take(0) =~= Seq::<i64>::empty());
        }
        while i < n
            invariant
                Self::layers_wf(layers@),
                raws@.len() == layers@.len(),
                forall|k: int| 0 <= k < raws@.len() ==> fp_in_range(#[trigger] raws@[k]),
                n == layers@.len(),
                i <= n,
                acc == field_sum(layers@.take(i as int), raws@.take(i as int)),
                -0x10000000000000000000000000000 * i <= acc <= 0x10000000000000000000000000000 * i,
            decreases n - i,
        {
            let layer_out = layers[i].0.sample(raws[i]);
            let w = layers[i].1;
            proof {
                lemma_layer_output_bound(
                    layers@[i as int].0.bias_points(),
                    layers@[i as int].0.offset_points(),
                    raws@[i as int] as int,
                );
                assert(-0x10000000000000000000000000000 <= layer_out as int * w as int
                    <= 0x10000000000000000000000000000) by (nonlinear_arith)
                    requires
                        -0x400000000000000000000 <= layer_out as int <= 0x400000000000000000000,
                        -0x40000000 <= w as int <= 0x40000000,
                ;
            }
            let term = div_fx(layer_out * w as i128, FP_ONE as i128);
            proof {
                lemma_div_tz_range(layer_out as int * w as int, FP_ONE as int);
                assert(-0x10000000000000000000000000000 * (i + 1) <= acc + term
                    <= 0x10000000000000000000000000000 * (i + 1)) by (nonlinear_arith)
                    requires
                        -0x10000000000000000000000000000 * i <= acc
                            <= 0x10000000000000000000000000000 * i,
                        -0x10000000000000000000000000000 <= term
                            <= 0x10000000000000000000000000000,
                ;
                assert((i + 1) * 0x10000000000000000000000000000
                    <= 0x10000000000000000000000000000000) by (nonlinear_arith)
                    requires
                        0 <= i + 1 <= 4096,
                ;
                let pre = layers@.take(i as int + 1);
                let pre_raws = raws@.take(i as int + 1);
                assert(pre.drop_last() =~= layers@.take(i as int));
                assert(pre_raws.drop_last() =~= raws@.take(i as int));
                assert(pre.last() == layers@[i as int]);
                assert(pre_raws.last() == raws@[i as int]);
            }
            acc = acc + term;
            i = i + 1;
        }
        proof {
            assert(layers@.take(n as int) =~= layers@);
            assert(raws@.take(n as int) =~= raws@);
            assert(n * 0x10000000000000000000000000000 <= 0x10000000000000000000000000000000)
                by (nonlinear_arith)
                requires
                    0 <= n <= 4096,
            ;
        }
        acc
    }

    /// Classifies a climate vector to the registered biome whose reference
    /// point minimizes squared Euclidean distance; ties go to the
    /// earliest-registered biome. Total whenever at least one biome is
    /// registered; `None` exactly on an empty registry.
    pub fn classify(&self, vector: (i64, i64, i64)) -> (r: Option<&Biome>)
        requires
            self.wf(),
            fp_in_range(vector.0) && fp_in_range(vector.1) && fp_in_range(vector.2),
        ensures
            r is None <==> self.spec_biomes().len() == 0,
            r matches Some(b) ==> exists|i: int|
                {
                    &&& 0 <= i < self.spec_biomes().len()
                    &&& b == &(#[trigger] self.spec_biomes()[i]).1
                    &&& forall|j: int|
                        0 <= j < self.spec_biomes().len() ==> dist2(
                            (#[trigger] self.spec_biomes()[j]).0,
                            vector,
                        ) >= dist2(self.spec_biomes()[i].0, vector)
                    &&& forall|j: int|
                        0 <= j < i ==> dist2((#[trigger] self.spec_biomes()[j]).0, vector)
                            > dist2(self.spec_biomes()[i].0, vector)
                },
    {
        let n = self.biomes.len();
        if n == 0 {
            return None;
        }
        let mut best: usize = 0;
        let mut best_d = dist2_fx(self.biomes[0].0, vector);
        let mut i: usize = 1;
        while i < n
            invariant
                self.wf(),
                fp_in_range(vector.0) && fp_in_range(vector.1) && fp_in_range(vector.2),
                n == self.spec_biomes().len(),
                1 <= i <= n,
                best < i,
                best_d == dist2(self.spec_biomes()[best as int].0, vector),
                forall|j: int|
                    0 <= j < i ==> dist2((#[trigger] self.spec_biomes()[j]).0, vector) >= best_d,
                forall|j: int|
                    0 <= j < best ==> dist2((#[trigger] self.spec_biomes()[j]).0, vector)
                        > best_d,
            decreases n - i,
        {
            let d = dist2_fx(self.biomes[i].0, vector);
            if d < best_d {
                best = i;
                best_d = d;
            }
            i = i + 1;
        }
        Some(&self.biomes[best].1)
    }

}

/// Squared Euclidean distance between fixed-point vectors.
pub fn dist2_fx(a: (i64, i64, i64), b: (i64, i64, i64)) -> (r: i128)
    requires
        fp_in_range(a.0) && fp_in_range(a.1) && fp_in_range(a.2),
        fp_in_range(b.0) && fp_in_range(b.1) && fp_in_range(b.2),
    ensures
        r == dist2(a, b),
{
    let dx = a.0 as i128 - b.0 as i128;
    let dy = a.1 as i128 - b.1 as i128;
    let dz = a.2 as i128 - b.2 as i128;
    proof {
        assert(0 <= dx * dx <= 0x1000000000000000000000000000 && 0 <= dy * dy
            <= 0x1000000000000000000000000000 && 0 <= dz * dz <= 0x1000000000000000000000000000)
            by (nonlinear_arith)
            requires
                -0x40000000000000 <= dx <= 0x40000000000000,
                -0x40000000000000 <= dy <= 0x40000000000000,
                -0x40000000000000 <= dz <= 0x40000000000000,
        ;
    }
    dx * dx + dy * dy + dz * dz
}

/// A layer whose weight is zero contributes nothing: removing it leaves the
/// weighted sum unchanged, whatever its raw sample was. Re-ordering no-op
/// layers therefore never changes a column's combined value.
pub proof fn lemma_zero_weight_layer_transparent(
    layers: Seq<(TerrainLayer, i64)>,
    raws: Seq<i64>,
    i: int,
)
    requires
        layers.len() == raws.len(),
        0 <= i < layers.len(),
        layers[i].1 == 0,
    ensures
        field_sum(layers, raws) == field_sum(layers.remove(i), raws.remove(i)),
    decreases layers.len(),
{
    let n = layers.len() as int;
    if i == n - 1 {
        assert(layer_term(layers[i].0, 0, raws[i] as int) == 0) by {
            assert(layers[i].0.spec_sample(raws[i] as int) * 0 == 0) by (nonlinear_arith);
        }
        assert(layers.remove(i) =~= layers.drop_last());
        assert(raws.remove(i) =~= raws.drop_last());
    } else {
        lemma_zero_weight_layer_transparent(layers.drop_last(), raws.drop_last(), i);
        assert(layers.remove(i).drop_last() =~= layers.drop_last().remove(i));
        assert(raws.remove(i).drop_last() =~= raws.drop_last().remove(i));
        assert(layers.remove(i).last() == layers.last());
        assert(raws.remove(i).last() == raws.last());
    }
}

} // verus!
