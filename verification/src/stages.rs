//! Chunk stage pipeline.
//!
//! Stages run in registration order; each consumes the chunk, mutates it in
//! place and hands it back. Every stage here is safe to rerun on
//! regeneration and assumes nothing about which other stages have run.
//!
//! - [`GridLandStage`] fills each column with a soiling profile (one block
//!   ID per depth level from the bottom upward), except on a periodic grid
//!   spacing where a marker block is used instead.
//! - [`LimitedStage`] clips generation to a rectangular chunk-coordinate
//!   window and fills a fixed height with a single block, building a
//!   bounded island world.
//! - [`BaseTerrainStage`] turns a terrain field's combined column values
//!   into solid-versus-air columns of a base height.

use vstd::prelude::*;

use crate::chunk::Chunk;
use crate::registry::{first_block_id, BlockRegistry};

verus! {

/// Chunk-coordinate window half-width of the bounded island world.
pub const ISLAND_LIMIT: i32 = 1;

/// Fill height of the bounded island world, in voxels above the chunk
/// bottom.
pub const ISLAND_HEIGHT: u32 = 10;

/// Whether `v` is a multiple of the grid spacing `g`.
pub open spec fn on_grid(v: int, g: int) -> bool
    recommends
        g >= 1,
{
    v % g == 0
}

/// Whether a column lies on the grid outlines.
pub open spec fn on_grid_outline(x: int, z: int, g: int) -> bool {
    on_grid(x, g) || on_grid(z, g)
}

/// Runtime divisibility test against the spec-level (Euclidean) remainder.
fn is_multiple_of(v: i32, g: u32) -> (r: bool)
    requires
        g >= 1,
    ensures
        r == on_grid(v as int, g as int),
{
    let vv: i64 = if v < 0 {
        -(v as i64)
    } else {
        v as i64
    };
    let rem = vv % (g as i64);
    proof {
        if v < 0 {
            if rem == 0 {
                assert((-(v as int)) % (g as int) == 0);
                vstd::arithmetic::div_mod::lemma_mod_multiples_basic(
                    -(v as int) / (g as int),
                    g as int,
                );
                assert(-(v as int) == ((-(v as int)) / (g as int)) * (g as int)) by {
                    vstd::arithmetic::div_mod::lemma_fundamental_div_mod(-(v as int), g as int);
                }
                assert((v as int) == (-((-(v as int)) / (g as int))) * (g as int)) by (nonlinear_arith)
                    requires
                        -(v as int) == ((-(v as int)) / (g as int)) * (g as int),
                ;
                vstd::arithmetic::div_mod::lemma_mod_multiples_basic(
                    -((-(v as int)) / (g as int)),
                    g as int,
                );
            } else {
                if (v as int) % (g as int) == 0 {
                    vstd::arithmetic::div_mod::lemma_fundamental_div_mod(v as int, g as int);
                    assert((v as int) == ((v as int) / (g as int)) * (g as int));
                    assert(-(v as int) == (-((v as int) / (g as int))) * (g as int)) by (nonlinear_arith)
                        requires
                            (v as int) == ((v as int) / (g as int)) * (g as int),
                    ;
                    vstd::arithmetic::div_mod::lemma_mod_multiples_basic(
                        -((v as int) / (g as int)),
                        g as int,
                    );
                    assert(false);
                }
            }
        }
    }
    rem == 0
}

/// The flat grid-land stage: a soiling profile per column, with grid
/// outlines drawn in a marker block.
pub struct GridLandStage {
    top_height: u32,
    soiling: Vec<u32>,
    grid_size: u32,
    grid_block_id: u32,
}

impl GridLandStage {
    /// The fill height: one voxel per soiling entry.
    pub closed spec fn spec_top_height(self) -> u32 {
        self.top_height
    }

    /// The soiling profile, bottom-up: entry `y` is the block for depth
    /// level `y`.
    pub closed spec fn spec_soiling(self) -> Seq<u32> {
        self.soiling@
    }

    /// The grid spacing.
    pub closed spec fn spec_grid_size(self) -> u32 {
        self.grid_size
    }

    /// The block drawn on grid outlines.
    pub closed spec fn spec_grid_block_id(self) -> u32 {
        self.grid_block_id
    }

    /// The fill height always equals the profile's length.
    pub open spec fn wf(self) -> bool {
        self.spec_top_height() == self.spec_soiling().len()
    }

    /// A stage with no soiling yet, grid spacing five, marker block two.
    pub fn new() -> (r: GridLandStage)
        ensures
            r.wf(),
            r.spec_top_height() == 0,
            r.spec_soiling() =~= Seq::<u32>::empty(),
            r.spec_grid_size() == 5,
            r.spec_grid_block_id() == 2,
    {
        GridLandStage { top_height: 0, soiling: Vec::new(), grid_size: 5, grid_block_id: 2 }
    }

    /// Extends the soiling profile with `height` levels of one block.
    pub fn add_soiling(self, block: u32, height: usize) -> (r: GridLandStage)
        requires
            self.wf(),
            self.spec_top_height() + height <= u32::MAX,
        ensures
            r.wf(),
            r.spec_soiling() == self.spec_soiling() + Seq::new(height as nat, |i: int| block),
            r.spec_top_height() == self.spec_top_height() + height,
            r.spec_grid_size() == self.spec_grid_size(),
            r.spec_grid_block_id() == self.spec_grid_block_id(),
    {
        let mut soiling = self.soiling;
        let ghost base = soiling@;
        let mut i: usize = 0;
        while i < height
            invariant
                i <= height,
                soiling@.len() == base.len() + i,
                soiling@ =~= base + Seq::new(i as nat, |k: int| block),
            decreases height - i,
        {
            soiling.push(block);
            proof {
                assert(soiling@ =~= base + Seq::new((i + 1) as nat, |k: int| block));
            }
            i = i + 1;
        }
        GridLandStage {
            top_height: self.top_height + height as u32,
            soiling,
            grid_size: self.grid_size,
            grid_block_id: self.grid_block_id,
        }
    }

    /// Sets the grid spacing and marker block.
    pub fn set_grid(self, size: u32, block_id: u32) -> (r: GridLandStage)
        ensures
            r.spec_grid_size() == size,
            r.spec_grid_block_id() == block_id,
            r.spec_soiling() == self.spec_soiling(),
            r.spec_top_height() == self.spec_top_height(),
            r.wf() == self.wf(),
    {
        GridLandStage { grid_size: size, grid_block_id: block_id, ..self }
    }

    /// The soiling block for one depth level, if the profile reaches it.
    pub fn query_soiling(&self, y: u32) -> (r: Option<u32>)
        ensures
            r == if y < self.spec_soiling().len() {
                Some(self.spec_soiling()[y as int])
            } else {
                None::<u32>
            },
    {
        if (y as usize) < self.soiling.len() {
            Some(self.soiling[y as usize])
        } else {
            None
        }
    }

    /// What the stage leaves in a cell: on a grid outline the marker block
    /// over the whole fill height, elsewhere the soiling profile's entry,
    /// and above the fill height whatever was there.
    pub open spec fn cell_after(self, x: int, y: int, z: int, before: u32) -> u32 {
        if 0 <= y < self.spec_top_height() {
            if on_grid_outline(x, z, self.spec_grid_size() as int) {
                self.spec_grid_block_id()
            } else if y < self.spec_soiling().len() {
                self.spec_soiling()[y]
            } else {
                before
            }
        } else {
            before
        }
    }

    /// Fills the chunk: every cell becomes what [`Self::cell_after`] says.
    pub fn process(&self, chunk: &mut Chunk)
        requires
            old(chunk).wf(),
            self.spec_grid_size() >= 1,
            old(chunk).spec_min().1 <= 0,
            self.spec_top_height() <= old(chunk).spec_max().1,
        ensures
            final(chunk).wf(),
            final(chunk).spec_min() == old(chunk).spec_min(),
            final(chunk).spec_max() == old(chunk).spec_max(),
            forall|x: int, y: int, z: int|
                final(chunk).contains(x, y, z) ==> final(chunk).voxel(x, y, z)
                    == self.cell_after(x, y, z, old(chunk).voxel(x, y, z)),
    {
        let min = chunk.min();
        let max = chunk.max();
        let mut vx = min.0;
        while vx < max.0
            invariant
                chunk.wf(),
                chunk.spec_min() == old(chunk).spec_min(),
                chunk.spec_max() == old(chunk).spec_max(),
                min == old(chunk).spec_min(),
                max == old(chunk).spec_max(),
                self.spec_grid_size() >= 1,
                min.1 <= 0,
                self.spec_top_height() <= max.1,
                min.0 <= vx <= max.0,
                forall|x: int, y: int, z: int|
                    chunk.contains(x, y, z) ==> chunk.voxel(x, y, z) == if x < vx {
                        self.cell_after(x, y, z, old(chunk).voxel(x, y, z))
                    } else {
                        old(chunk).voxel(x, y, z)
                    },
            decreases max.0 - vx,
        {
            let mut vz = min.2;
            while vz < max.2
                invariant
                    chunk.wf(),
                    chunk.spec_min() == old(chunk).spec_min(),
                    chunk.spec_max() == old(chunk).spec_max(),
                    min == old(chunk).spec_min(),
                    max == old(chunk).spec_max(),
                    self.spec_grid_size() >= 1,
                    min.1 <= 0,
                    self.spec_top_height() <= max.1,
                    min.0 <= vx < max.0,
                    min.2 <= vz <= max.2,
                    forall|x: int, y: int, z: int|
                        chunk.contains(x, y, z) ==> chunk.voxel(x, y, z) == if x < vx || (x == vx
                            && z < vz) {
                            self.cell_after(x, y, z, old(chunk).voxel(x, y, z))
                        } else {
                            old(chunk).voxel(x, y, z)
                        },
                decreases max.2 - vz,
            {
                let outline = is_multiple_of(vx, self.grid_size) || is_multiple_of(
                    vz,
                    self.grid_size,
                );
                let mut vy: u32 = 0;
                while vy < self.top_height
                    invariant
                        chunk.wf(),
                        chunk.spec_min() == old(chunk).spec_min(),
                        chunk.spec_max() == old(chunk).spec_max(),
                        min == old(chunk).spec_min(),
                        max == old(chunk).spec_max(),
                        self.spec_grid_size() >= 1,
                        min.1 <= 0,
                        self.spec_top_height() <= max.1,
                        min.0 <= vx < max.0,
                        min.2 <= vz < max.2,
                        vy <= self.spec_top_height(),
                        outline == on_grid_outline(
                            vx as int,
                            vz as int,
                            self.spec_grid_size() as int,
                        ),
                        forall|x: int, y: int, z: int|
                            chunk.contains(x, y, z) ==> chunk.voxel(x, y, z) == if x < vx || (x
                                == vx && z < vz) || (x == vx && z == vz && 0 <= y < vy) {
                                self.cell_after(x, y, z, old(chunk).voxel(x, y, z))
                            } else {
                                old(chunk).voxel(x, y, z)
                            },
                    decreases self.spec_top_height() - vy,
                {
                    if outline {
                        chunk.set_voxel(vx, vy as i32, vz, self.grid_block_id);
                    } else {
                        match self.query_soiling(vy) {
                            Some(soil) => {
                                chunk.set_voxel(vx, vy as i32, vz, soil);
                            },
                            None => {},
                        }
                    }
                    vy = vy + 1;
                }
                vz = vz + 1;
            }
            vx = vx + 1;
        }
    }
}

/// The bounded island stage: inside the chunk-coordinate window, fills a
/// fixed height of the chunk with one block; outside it, leaves the chunk
/// alone.
pub struct LimitedStage;

impl LimitedStage {
    /// Whether a chunk coordinate pair lies inside the island window.
    pub open spec fn in_window(coords: (i32, i32)) -> bool {
        -ISLAND_LIMIT <= coords.0 <= ISLAND_LIMIT && -ISLAND_LIMIT <= coords.1 <= ISLAND_LIMIT
    }

    /// Fills the island's stone base: inside the window, cells below the
    /// island height become the registry's "Stone" block; everything else,
    /// and chunks outside the window, stay untouched.
    pub fn process(
        &self,
        chunk: &mut Chunk,
        coords: (i32, i32),
        registry: &BlockRegistry,
    )
        requires
            old(chunk).wf(),
            Self::in_window(coords) ==> registry.has_block("Stone"@),
            Self::in_window(coords) ==> old(chunk).spec_min().1 <= 0 && ISLAND_HEIGHT <= old(
                chunk,
            ).spec_max().1,
        ensures
            final(chunk).wf(),
            final(chunk).spec_min() == old(chunk).spec_min(),
            final(chunk).spec_max() == old(chunk).spec_max(),
            !Self::in_window(coords) ==> forall|x: int, y: int, z: int|
                final(chunk).contains(x, y, z) ==> final(chunk).voxel(x, y, z) == old(
                    chunk,
                ).voxel(x, y, z),
            Self::in_window(coords) ==> forall|x: int, y: int, z: int|
                final(chunk).contains(x, y, z) ==> final(chunk).voxel(x, y, z) == if 0 <= y
                    < ISLAND_HEIGHT {
                    first_block_id(registry.spec_blocks(), "Stone"@).unwrap()
                } else {
                    old(chunk).voxel(x, y, z)
                },
    {
        if coords.0 > ISLAND_LIMIT || coords.1 > ISLAND_LIMIT || coords.0 < -ISLAND_LIMIT
            || coords.1 < -ISLAND_LIMIT {
            return ;
        }
        let id = match registry.get_block_by_name("Stone") {
            Some(b) => b.id,
            None => {
                proof {
                    assert(false);
                }
                unreached()
            },
        };
        let min = chunk.min();
        let max = chunk.max();
        let mut vx = min.0;
        while vx < max.0
            invariant
                chunk.wf(),
                chunk.spec_min() == old(chunk).spec_min(),
                chunk.spec_max() == old(chunk).spec_max(),
                min == old(chunk).spec_min(),
                max == old(chunk).spec_max(),
                min.1 <= 0,
                ISLAND_HEIGHT <= max.1,
                min.0 <= vx <= max.0,
                id == first_block_id(registry.spec_blocks(), "Stone"@).unwrap(),
                forall|x: int, y: int, z: int|
                    chunk.contains(x, y, z) ==> chunk.voxel(x, y, z) == if x < vx && 0 <= y
                        < ISLAND_HEIGHT {
                        id
                    } else {
                        old(chunk).voxel(x, y, z)
                    },
            decreases max.0 - vx,
        {
            let mut vz = min.2;
            while vz < max.2
                invariant
                    chunk.wf(),
                    chunk.spec_min() == old(chunk).spec_min(),
                    chunk.spec_max() == old(chunk).spec_max(),
                    min == old(chunk).spec_min(),
                    max == old(chunk).spec_max(),
                    min.1 <= 0,
                    ISLAND_HEIGHT <= max.1,
                    min.0 <= vx < max.0,
                    min.2 <= vz <= max.2,
                    id == first_block_id(registry.spec_blocks(), "Stone"@).unwrap(),
                    forall|x: int, y: int, z: int|
                        chunk.contains(x, y, z) ==> chunk.voxel(x, y, z) == if (x < vx || (x == vx
                            && z < vz)) && 0 <= y < ISLAND_HEIGHT {
                            id
                        } else {
                            old(chunk).voxel(x, y, z)
                        },
                decreases max.2 - vz,
            {
                let mut vy: u32 = 0;
                while vy < ISLAND_HEIGHT
                    invariant
                        chunk.wf(),
                        chunk.spec_min() == old(chunk).spec_min(),
                        chunk.spec_max() == old(chunk).spec_max(),
                        min == old(chunk).spec_min(),
                        max == old(chunk).spec_max(),
                        min.1 <= 0,
                        ISLAND_HEIGHT <= max.1,
                        min.0 <= vx < max.0,
                        min.2 <= vz < max.2,
                        vy <= ISLAND_HEIGHT,
                        id == first_block_id(registry.spec_blocks(), "Stone"@).unwrap(),
                        forall|x: int, y: int, z: int|
                            chunk.contains(x, y, z) ==> chunk.voxel(x, y, z) == if (x < vx || (x
                                == vx && z < vz) || (x == vx && z == vz && 0 <= y < vy)) && 0 <= y
                                < ISLAND_HEIGHT {
                                id
                            } else {
                                old(chunk).voxel(x, y, z)
                            },
                    decreases ISLAND_HEIGHT - vy,
                {
                    chunk.set_voxel(vx, vy as i32, vz, id);
                    vy = vy + 1;
                }
                vz = vz + 1;
            }
            vx = vx + 1;
        }
    }
}

/// The base terrain stage: a column whose combined terrain value meets the
/// threshold is filled with the stage's block up to the base height; the
/// rest stays air.
pub struct BaseTerrainStage {
    pub threshold: i128,
    pub base: u32,
    pub block_id: u32,
}

impl BaseTerrainStage {
    /// Whether a column's combined value makes it solid.
    pub open spec fn column_solid(self, sample: int) -> bool {
        sample >= self.threshold
    }

    /// Makes a stage from its threshold, base height and block.
    pub fn new(threshold: i128, base: u32, block_id: u32) -> (r: BaseTerrainStage)
        ensures
            r.threshold == threshold,
            r.base == base,
            r.block_id == block_id,
    {
        BaseTerrainStage { threshold, base, block_id }
    }

    /// Fills the solid columns of one chunk. `samples` holds one combined
    /// terrain value per column, in x-major order over the chunk's
    /// horizontal footprint.
    pub fn process(&self, chunk: &mut Chunk, samples: &Vec<i128>)
        requires
            old(chunk).wf(),
            old(chunk).spec_min().1 <= 0,
            self.base <= old(chunk).spec_max().1,
            samples@.len() == old(chunk).size_x() * old(chunk).size_z(),
        ensures
            final(chunk).wf(),
            final(chunk).spec_min() == old(chunk).spec_min(),
            final(chunk).spec_max() == old(chunk).spec_max(),
            forall|x: int, y: int, z: int|
                final(chunk).contains(x, y, z) ==> final(chunk).voxel(x, y, z) == if 0 <= y
                    < self.base && self.column_solid(
                    samples@[(x - old(chunk).spec_min().0) * old(chunk).size_z() + (z - old(
                        chunk,
                    ).spec_min().2)] as int,
                ) {
                    self.block_id
                } else {
                    old(chunk).voxel(x, y, z)
                },
    {
        let min = chunk.min();
        let max = chunk.max();
        let sz = max.2 as i128 - min.2 as i128;
        let mut vx = min.0;
        while vx < max.0
            invariant
                chunk.wf(),
                chunk.spec_min() == old(chunk).spec_min(),
                chunk.spec_max() == old(chunk).spec_max(),
                min == old(chunk).spec_min(),
                max == old(chunk).spec_max(),
                min.1 <= 0,
                self.base <= max.1,
                sz == old(chunk).size_z(),
                samples@.len() == old(chunk).size_x() * old(chunk).size_z(),
                min.0 <= vx <= max.0,
                forall|x: int, y: int, z: int|
                    chunk.contains(x, y, z) ==> chunk.voxel(x, y, z) == if x < vx && 0 <= y
                        < self.base && self.column_solid(
                        samples@[(x - min.0) * sz + (z - min.2)] as int,
                    ) {
                        self.block_id
                    } else {
                        old(chunk).voxel(x, y, z)
                    },
            decreases max.0 - vx,
        {
            let mut vz = min.2;
            while vz < max.2
                invariant
                    chunk.wf(),
                    chunk.spec_min() == old(chunk).spec_min(),
                    chunk.spec_max() == old(chunk).spec_max(),
                    min == old(chunk).spec_min(),
                    max == old(chunk).spec_max(),
                    min.1 <= 0,
                    self.base <= max.1,
                    sz == old(chunk).size_z(),
                    samples@.len() == old(chunk).size_x() * old(chunk).size_z(),
                    min.0 <= vx < max.0,
                    min.2 <= vz <= max.2,
                    forall|x: int, y: int, z: int|
                        chunk.contains(x, y, z) ==> chunk.voxel(x, y, z) == if (x < vx || (x == vx
                            && z < vz)) && 0 <= y < self.base && self.column_solid(
                            samples@[(x - min.0) * sz + (z - min.2)] as int,
                        ) {
                            self.block_id
                        } else {
                            old(chunk).voxel(x, y, z)
                        },
                decreases max.2 - vz,
            {
                let xr = vx as i128 - min.0 as i128;
                let zr = vz as i128 - min.2 as i128;
                proof {
                    assert(-0x40000000000000000 <= xr * sz && xr * sz <= 0x40000000000000000)
                        by (nonlinear_arith)
                        requires
                            -0x200000000 <= xr <= 0x200000000,
                            -0x200000000 <= sz <= 0x200000000,
                    ;
                    assert(0 <= xr * sz + zr && xr * sz + zr < (max.0 - min.0) * sz)
                        by (nonlinear_arith)
                        requires
                            0 <= xr && xr < max.0 - min.0,
                            0 <= zr < sz,
                    ;
                    assert((max.0 - min.0) * sz == old(chunk).size_x() * old(chunk).size_z());
                    assert(xr * sz + zr < samples@.len());
                }
                let total = samples.len();
                let ci = (xr * sz + zr) as usize;
                proof {
                    assert(xr * sz + zr < total);
                    assert(xr == vx - min.0 && zr == vz - min.2);
                    assert(xr * sz == (vx - min.0) * sz) by (nonlinear_arith)
                        requires
                            xr == vx - min.0,
                    ;
                    assert(ci == (vx - min.0) * sz + (vz - min.2));
                }
                let solid = samples[ci] >= self.threshold;
                if solid {
                    let mut vy: u32 = 0;
                    while vy < self.base
                        invariant
                            chunk.wf(),
                            chunk.spec_min() == old(chunk).spec_min(),
                            chunk.spec_max() == old(chunk).spec_max(),
                            min == old(chunk).spec_min(),
                            max == old(chunk).spec_max(),
                            min.1 <= 0,
                            self.base <= max.1,
                            sz == old(chunk).size_z(),
                            samples@.len() == old(chunk).size_x() * old(chunk).size_z(),
                            min.0 <= vx < max.0,
                            min.2 <= vz < max.2,
                            vy <= self.base,
                            self.column_solid(samples@[(vx - min.0) * sz + (vz - min.2)] as int),
                            forall|x: int, y: int, z: int|
                                chunk.contains(x, y, z) ==> chunk.voxel(x, y, z) == if (x < vx
                                    || (x == vx && z < vz) || (x == vx && z == vz && 0 <= y < vy))
                                    && 0 <= y < self.base && self.column_solid(
                                    samples@[(x - min.0) * sz + (z - min.2)] as int,
                                ) {
                                    self.block_id
                                } else {
                                    old(chunk).voxel(x, y, z)
                                },
                        decreases self.base - vy,
                    {
                        chunk.set_voxel(vx, vy as i32, vz, self.block_id);
                        vy = vy + 1;
                    }
                }
                vz = vz + 1;
            }
            vx = vx + 1;
        }
    }
}

} // verus!
