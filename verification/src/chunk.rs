//! Bounded voxel regions.
//!
//! A [`Chunk`] is a rectangular 3D region with inclusive minimum and
//! exclusive maximum integer coordinates on each axis. It stores one voxel
//! type ID per cell, addressed by absolute world coordinates, and is the
//! unit that the generation pipeline's stages consume and return. Voxel ID
//! `0` is air; reads outside the bounds answer air, writes outside the
//! bounds are a caller contract violation and are ruled out by `set_voxel`'s
//! precondition.

use vstd::prelude::*;

verus! {

/// An integer voxel coordinate triple `(x, y, z)`.
#[derive(Clone, Copy, Debug, PartialEq, Eq, Hash, Structural)]
pub struct Vec3i(pub i32, pub i32, pub i32);

/// The voxel type ID that stands for air (no block).
pub const AIR: u32 = 0;

/// A bounded voxel region: minimum corner (inclusive), maximum corner
/// (exclusive), and one voxel ID per cell.
pub struct Chunk {
    min: Vec3i,
    max: Vec3i,
    voxels: Vec<u32>,
}

impl Chunk {
    /// Minimum corner (inclusive).
    pub closed spec fn spec_min(self) -> Vec3i {
        self.min
    }

    /// Maximum corner (exclusive).
    pub closed spec fn spec_max(self) -> Vec3i {
        self.max
    }

    /// Extent along x.
    pub open spec fn size_x(self) -> int {
        self.spec_max().0 - self.spec_min().0
    }

    /// Extent along y.
    pub open spec fn size_y(self) -> int {
        self.spec_max().1 - self.spec_min().1
    }

    /// Extent along z.
    pub open spec fn size_z(self) -> int {
        self.spec_max().2 - self.spec_min().2
    }

    /// Whether world coordinates fall inside the region.
    pub open spec fn contains(self, x: int, y: int, z: int) -> bool {
        &&& self.spec_min().0 <= x < self.spec_max().0
        &&& self.spec_min().1 <= y < self.spec_max().1
        &&& self.spec_min().2 <= z < self.spec_max().2
    }

    /// Row-major cell index of in-bounds world coordinates.
    pub closed spec fn index_of(self, x: int, y: int, z: int) -> int {
        ((x - self.spec_min().0) * self.size_y() + (y - self.spec_min().1)) * self.size_z() + (z
            - self.spec_min().2)
    }

    /// The corners are ordered on every axis.
    pub open spec fn bounds_ordered(self) -> bool {
        &&& self.spec_min().0 <= self.spec_max().0
        &&& self.spec_min().1 <= self.spec_max().1
        &&& self.spec_min().2 <= self.spec_max().2
    }

    /// The storage is sized to the region's volume.
    pub closed spec fn storage_wf(self) -> bool {
        self.voxels.len() == self.size_x() * self.size_y() * self.size_z()
    }

    /// Structural invariant: corners ordered and storage sized to the volume.
    pub open spec fn wf(self) -> bool {
        self.bounds_ordered() && self.storage_wf()
    }

    /// The voxel ID stored at in-bounds world coordinates.
    pub closed spec fn voxel(self, x: int, y: int, z: int) -> u32
        recommends
            self.wf(),
            self.contains(x, y, z),
    {
        self.voxels[self.index_of(x, y, z)]
    }

    /// Cell indices of in-bounds coordinates stay within the storage.
    proof fn lemma_index_in_range(self, x: int, y: int, z: int)
        requires
            self.wf(),
            self.contains(x, y, z),
        ensures
            0 <= self.index_of(x, y, z) < self.voxels.len(),
    {
        let sy = self.size_y();
        let sz = self.size_z();
        let xr = x - self.spec_min().0;
        let yr = y - self.spec_min().1;
        let zr = z - self.spec_min().2;
        assert(0 <= xr * sy + yr && (xr * sy + yr) * sz + zr < self.size_x() * sy * sz)
            by (nonlinear_arith)
            requires
                0 <= xr < self.size_x(),
                0 <= yr < sy,
                0 <= zr < sz,
        ;
    }

    /// Distinct in-bounds coordinates map to distinct cell indices.
    proof fn lemma_index_injective(self, x1: int, y1: int, z1: int, x2: int, y2: int, z2: int)
        requires
            self.wf(),
            self.contains(x1, y1, z1),
            self.contains(x2, y2, z2),
            self.index_of(x1, y1, z1) == self.index_of(x2, y2, z2),
        ensures
            x1 == x2 && y1 == y2 && z1 == z2,
    {
        let sy = self.size_y();
        let sz = self.size_z();
        let q1 = (x1 - self.spec_min().0) * sy + (y1 - self.spec_min().1);
        let q2 = (x2 - self.spec_min().0) * sy + (y2 - self.spec_min().1);
        let idx = self.index_of(x1, y1, z1);
        vstd::arithmetic::div_mod::lemma_fundamental_div_mod_converse(
            idx,
            sz,
            q1,
            z1 - self.spec_min().2,
        );
        vstd::arithmetic::div_mod::lemma_fundamental_div_mod_converse(
            idx,
            sz,
            q2,
            z2 - self.spec_min().2,
        );
        vstd::arithmetic::div_mod::lemma_fundamental_div_mod_converse(
            q1,
            sy,
            x1 - self.spec_min().0,
            y1 - self.spec_min().1,
        );
        vstd::arithmetic::div_mod::lemma_fundamental_div_mod_converse(
            q1,
            sy,
            x2 - self.spec_min().0,
            y2 - self.spec_min().1,
        );
    }

    /// Makes an all-air chunk over the given corners.
    pub fn new(min: Vec3i, max: Vec3i) -> (c: Chunk)
        requires
            min.0 <= max.0 && min.1 <= max.1 && min.2 <= max.2,
            (max.0 - min.0) * (max.1 - min.1) * (max.2 - min.2) <= usize::MAX,
        ensures
            c.wf(),
            c.spec_min() == min,
            c.spec_max() == max,
            forall|x: int, y: int, z: int| c.contains(x, y, z) ==> c.voxel(x, y, z) == AIR,
    {
        let sx = max.0 as i128 - min.0 as i128;
        let sy = max.1 as i128 - min.1 as i128;
        let sz = max.2 as i128 - min.2 as i128;
        proof {
            assert(0 <= sy * sz < 0x10000000000000000 && 0 <= sx * (sy * sz)
                < 0x1000000000000000000000000) by (nonlinear_arith)
                requires
                    0 <= sx < 0x100000000 && 0 <= sy < 0x100000000 && 0 <= sz < 0x100000000,
            ;
            assert(sx * (sy * sz) == (max.0 - min.0) * (max.1 - min.1) * (max.2 - min.2))
                by (nonlinear_arith)
                requires
                    sx == max.0 - min.0 && sy == max.1 - min.1 && sz == max.2 - min.2,
            ;
        }
        let volume_wide = sx * (sy * sz);
        let volume = volume_wide as usize;
        let mut voxels: Vec<u32> = Vec::new();
        let mut i: usize = 0;
        while i < volume
            invariant
                i <= volume,
                voxels.len() == i,
                forall|j: int| 0 <= j < i ==> voxels[j] == AIR,
            decreases volume - i,
        {
            voxels.push(AIR);
            i = i + 1;
        }
        let c = Chunk { min, max, voxels };
        proof {
            assert(c.voxels.len() == c.size_x() * c.size_y() * c.size_z()) by {
                assert(sx * (sy * sz) == c.size_x() * c.size_y() * c.size_z())
                    by (nonlinear_arith)
                    requires
                        sx == c.size_x() && sy == c.size_y() && sz == c.size_z(),
                ;
            }
            assert forall|x: int, y: int, z: int| c.contains(x, y, z) implies c.voxel(x, y, z)
                == AIR by {
                c.lemma_index_in_range(x, y, z);
            }
        }
        c
    }

    /// Minimum corner accessor.
    pub fn min(&self) -> (r: Vec3i)
        ensures
            r == self.spec_min(),
    {
        self.min
    }

    /// Maximum corner accessor.
    pub fn max(&self) -> (r: Vec3i)
        ensures
            r == self.spec_max(),
    {
        self.max
    }

    /// Whether world coordinates fall inside the region.
    pub fn contains_voxel(&self, x: i32, y: i32, z: i32) -> (r: bool)
        ensures
            r == self.contains(x as int, y as int, z as int),
    {
        self.min.0 <= x && x < self.max.0 && self.min.1 <= y && y < self.max.1 && self.min.2 <= z
            && z < self.max.2
    }

    /// Reads the voxel ID at world coordinates; out-of-bounds reads answer
    /// air, so the pathfinding queries can treat the region as a window into
    /// an unbounded, empty world.
    pub fn get_voxel(&self, x: i32, y: i32, z: i32) -> (r: u32)
        requires
            self.wf(),
        ensures
            r == if self.contains(x as int, y as int, z as int) {
                self.voxel(x as int, y as int, z as int)
            } else {
                AIR
            },
    {
        if !self.contains_voxel(x, y, z) {
            return AIR;
        }
        proof {
            self.lemma_index_in_range(x as int, y as int, z as int);
        }
        let sy = self.max.1 as i128 - self.min.1 as i128;
        let sz = self.max.2 as i128 - self.min.2 as i128;
        let xr = x as i128 - self.min.0 as i128;
        let yr = y as i128 - self.min.1 as i128;
        let zr = z as i128 - self.min.2 as i128;
        proof {
            assert((xr * sy + yr) * sz + zr == self.index_of(x as int, y as int, z as int));
            assert(xr * sy + yr >= 0 && (xr * sy + yr) * sz + zr >= 0) by (nonlinear_arith)
                requires
                    xr >= 0 && yr >= 0 && zr >= 0 && sy >= 0 && sz >= 0,
            ;
            assert(xr * sy + yr <= (xr * sy + yr) * sz + zr || sz == 0) by (nonlinear_arith)
                requires
                    xr >= 0 && yr >= 0 && zr >= 0 && sy >= 0 && sz >= 0,
            ;
        }
        let idx = (xr * sy + yr) * sz + zr;
        self.voxels[idx as usize]
    }

    /// Writes the voxel ID at in-bounds world coordinates, leaving every
    /// other cell as it was.
    pub fn set_voxel(&mut self, x: i32, y: i32, z: i32, id: u32)
        requires
            old(self).wf(),
            old(self).contains(x as int, y as int, z as int),
        ensures
            final(self).wf(),
            final(self).spec_min() == old(self).spec_min(),
            final(self).spec_max() == old(self).spec_max(),
            final(self).voxel(x as int, y as int, z as int) == id,
            forall|i: int, j: int, k: int|
                final(self).contains(i, j, k) && !(i == x as int && j == y as int && k == z
                    as int) ==> final(self).voxel(i, j, k) == old(self).voxel(i, j, k),
    {
        proof {
            self.lemma_index_in_range(x as int, y as int, z as int);
        }
        let sy = self.max.1 as i128 - self.min.1 as i128;
        let sz = self.max.2 as i128 - self.min.2 as i128;
        let xr = x as i128 - self.min.0 as i128;
        let yr = y as i128 - self.min.1 as i128;
        let zr = z as i128 - self.min.2 as i128;
        proof {
            assert((xr * sy + yr) * sz + zr == self.index_of(x as int, y as int, z as int));
            assert(xr * sy + yr >= 0 && (xr * sy + yr) * sz + zr >= 0) by (nonlinear_arith)
                requires
                    xr >= 0 && yr >= 0 && zr >= 0 && sy >= 0 && sz >= 0,
            ;
            assert(xr * sy + yr <= (xr * sy + yr) * sz + zr || sz == 0) by (nonlinear_arith)
                requires
                    xr >= 0 && yr >= 0 && zr >= 0 && sy >= 0 && sz >= 0,
            ;
        }
        let idx = (xr * sy + yr) * sz + zr;
        self.voxels.set(idx as usize, id);
        proof {
            assert forall|i: int, j: int, k: int|
                self.contains(i, j, k) && !(i == x as int && j == y as int && k == z as int)
                    implies self.voxel(i, j, k) == old(self).voxel(i, j, k) by {
                self.lemma_index_in_range(i, j, k);
                if self.index_of(i, j, k) == self.index_of(x as int, y as int, z as int) {
                    self.lemma_index_injective(i, j, k, x as int, y as int, z as int);
                }
            }
        }
    }

    /// The y coordinate of the highest non-air cell of the column at
    /// `(x, z)` strictly below `y`, or the bottom of the region when all of
    /// them hold air.
    pub open spec fn spec_top(self, x: int, z: int, y: int) -> int
        decreases y - self.spec_min().1,
    {
        if y <= self.spec_min().1 {
            self.spec_min().1 as int
        } else if self.voxel(x, y - 1, z) != AIR {
            y - 1
        } else {
            self.spec_top(x, z, y - 1)
        }
    }

    /// The y coordinate of the highest non-air voxel in the column at
    /// `(x, z)`, or the bottom of the region when the column is all air.
    pub fn get_max_height(&self, x: i32, z: i32) -> (r: i32)
        requires
            self.wf(),
            self.spec_min().0 <= x < self.spec_max().0,
            self.spec_min().2 <= z < self.spec_max().2,
        ensures
            r == self.spec_top(x as int, z as int, self.spec_max().1 as int),
            self.spec_min().1 <= r < self.spec_max().1 || r == self.spec_min().1,
            forall|y: int| r < y < self.spec_max().1 ==> self.voxel(x as int, y, z as int) == AIR,
            (exists|y: int|
                self.spec_min().1 <= y < self.spec_max().1 && self.voxel(x as int, y, z as int)
                    != AIR) ==> self.voxel(x as int, r as int, z as int) != AIR,
            (forall|y: int|
                self.spec_min().1 <= y < self.spec_max().1 ==> self.voxel(x as int, y, z as int)
                    == AIR) ==> r == self.spec_min().1,
    {
        let mut y = self.max.1;
        while y > self.min.1
            invariant
                self.wf(),
                self.spec_min().0 <= x < self.spec_max().0,
                self.spec_min().2 <= z < self.spec_max().2,
                self.spec_min().1 <= y <= self.spec_max().1,
                self.spec_top(x as int, z as int, self.spec_max().1 as int) == self.spec_top(
                    x as int,
                    z as int,
                    y as int,
                ),
                forall|j: int|
                    y <= j < self.spec_max().1 ==> self.voxel(x as int, j, z as int) == AIR,
            decreases y - self.spec_min().1,
        {
            let id = self.get_voxel(x, y - 1, z);
            if id != AIR {
                return y - 1;
            }
            y = y - 1;
        }
        y
    }
}

} // verus!
