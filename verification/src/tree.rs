//! Procedural tree generation.
//!
//! A [`Tree`] is a parametric descriptor: leaf and branch block IDs, leaf
//! blob extents, initial branch radius and length with per-iteration decay
//! factors, pitch and yaw rotation deltas, and an L-system grammar. A
//! [`Trees`] registry couples a placement noise field's parameters and
//! threshold with named trees; the engine samples the field and the
//! registry decides planting from the raw sample.
//!
//! Generation expands the grammar, then interprets the symbol string as a
//! turtle program over fixed-point coordinates:
//!
//! - `F` advances the cursor by the branch length along the heading and
//!   emits branch-block discs at each whole-voxel step of the segment;
//! - `%` emits a leaf blob: one disc of the leaf radius per level within
//!   the leaf height above and below the cursor;
//! - `+` / `-` rotate the yaw by the configured delta, `#` / `$` the pitch;
//! - `!` scales the radius and `@` the length by their decay factors;
//! - `[` pushes and `]` pops the full turtle state (a pop on an empty stack
//!   does nothing);
//! - any other symbol has no effect.
//!
//! Headings are kept as fixed-point (cosine, sine) pairs rotated by exact
//! integer arithmetic and saturated to the unit range, so the whole
//! interpretation is deterministic integer math: the same tree and root
//! always give the identical write list.

use vstd::prelude::*;

use crate::chunk::{Chunk, Vec3i};
use crate::fixed::{div_fx, div_tz, FP_ONE};
use crate::lsystem::LSystem;
use crate::registry::{first_block_id, BlockRegistry};
use crate::terrain::NoiseOptions;

verus! {

/// Magnitude bound on branch radius and length (one thousand voxels, in
/// fixed point).
pub const TREE_SCALE_LIMIT: i64 = 1_000_000_000;

/// A rotation delta as a fixed-point (cosine, sine) pair.
#[derive(Clone, Copy, Debug, PartialEq, Eq, Structural)]
pub struct Rotation {
    pub cos: i64,
    pub sin: i64,
}

/// A rotation pair within the unit range.
pub open spec fn rotation_wf(r: Rotation) -> bool {
    -FP_ONE <= r.cos <= FP_ONE && -FP_ONE <= r.sin <= FP_ONE
}

/// The turtle's full state: fixed-point position, yaw and pitch headings as
/// saturated unit (cosine, sine) pairs, and current branch radius and
/// length.
#[derive(Clone, Copy, Debug, PartialEq, Eq, Structural)]
pub struct TurtleState {
    pub px: i128,
    pub py: i128,
    pub pz: i128,
    pub yaw: Rotation,
    pub pitch: Rotation,
    pub radius: i64,
    pub length: i64,
}

/// Heading pairs saturated and scales within bounds.
pub open spec fn turtle_wf(st: TurtleState) -> bool {
    &&& rotation_wf(st.yaw)
    &&& rotation_wf(st.pitch)
    &&& 0 <= st.radius <= TREE_SCALE_LIMIT
    &&& 0 <= st.length <= TREE_SCALE_LIMIT
}

/// Saturates a fixed-point value to the unit range.
pub open spec fn clamp_unit(v: int) -> int {
    if v < -FP_ONE {
        -FP_ONE as int
    } else if v > FP_ONE {
        FP_ONE as int
    } else {
        v
    }
}

/// One heading pair rotated by a delta, components saturated.
pub open spec fn spec_rotate(h: Rotation, d: Rotation) -> Rotation {
    Rotation {
        cos: clamp_unit(div_tz(h.cos * d.cos - h.sin * d.sin, FP_ONE as int)) as i64,
        sin: clamp_unit(div_tz(h.sin * d.cos + h.cos * d.sin, FP_ONE as int)) as i64,
    }
}

/// The inverse delta, for the `-` and `$` symbols.
pub open spec fn spec_invert(d: Rotation) -> Rotation
    recommends
        rotation_wf(d),
{
    Rotation { cos: d.cos, sin: (-d.sin) as i64 }
}

/// Whether a mathematical integer fits voxel coordinates.
pub open spec fn fits_i32(v: int) -> bool {
    i32::MIN <= v <= i32::MAX
}

/// One row of a horizontal disc: the cells at `(cx + dx, y, cz + dz)` for
/// `dz` from the given value up to `r`, kept when they pass the roundness
/// test and fit voxel coordinates.
pub open spec fn disc_row(cx: int, y: int, cz: int, r: int, dx: int, dz: int, id: u32) -> Seq<
    (Vec3i, u32),
>
    decreases r - dz + 1,
{
    if dz > r {
        Seq::empty()
    } else {
        (if dx * dx + dz * dz <= r * r && fits_i32(cx + dx) && fits_i32(y) && fits_i32(cz + dz) {
            seq![(Vec3i((cx + dx) as i32, y as i32, (cz + dz) as i32), id)]
        } else {
            Seq::empty()
        }) + disc_row(cx, y, cz, r, dx, dz + 1, id)
    }
}

/// A horizontal disc of radius `r` around `(cx, y, cz)`, rows `dx` from the
/// given value up to `r`.
pub open spec fn disc_rows(cx: int, y: int, cz: int, r: int, dx: int, id: u32) -> Seq<
    (Vec3i, u32),
>
    decreases r - dx + 1,
{
    if dx > r {
        Seq::empty()
    } else {
        disc_row(cx, y, cz, r, dx, -r, id) + disc_rows(cx, y, cz, r, dx + 1, id)
    }
}

/// A full horizontal disc of radius `r` around a center cell.
pub open spec fn disc(cx: int, y: int, cz: int, r: int, id: u32) -> Seq<(Vec3i, u32)> {
    disc_rows(cx, y, cz, r, -r, id)
}

/// A leaf blob: one disc per level from `dy` up to `h` around the cursor.
pub open spec fn blob_levels(cx: int, cy: int, cz: int, r: int, h: int, dy: int, id: u32) -> Seq<
    (Vec3i, u32),
>
    decreases h - dy + 1,
{
    if dy > h {
        Seq::empty()
    } else {
        disc(cx, cy + dy, cz, r, id) + blob_levels(cx, cy, cz, r, h, dy + 1, id)
    }
}

/// The voxel cell holding a fixed-point coordinate (flooring, so that
/// negative coordinates land in the right cell).
pub open spec fn to_voxel(v: int) -> int {
    v / (FP_ONE as int)
}

/// The discs of a trunk segment: one per whole-voxel step `s` to `steps`,
/// centered on the interpolated position.
pub open spec fn segment_discs(
    px: int,
    py: int,
    pz: int,
    sub_x: int,
    sub_y: int,
    sub_z: int,
    steps: int,
    s: int,
    r: int,
    id: u32,
) -> Seq<(Vec3i, u32)>
    decreases steps - s + 1,
{
    if s > steps {
        Seq::empty()
    } else {
        disc(
            to_voxel(px + s * sub_x),
            to_voxel(py + s * sub_y),
            to_voxel(pz + s * sub_z),
            r,
            id,
        ) + segment_discs(px, py, pz, sub_x, sub_y, sub_z, steps, s + 1, r, id)
    }
}

/// The per-symbol turtle transition: the next state, the stack after the
/// symbol, and what the symbol emits.
pub open spec fn spec_step(t: Tree, st: TurtleState, stack: Seq<TurtleState>, sym: u8) -> (
    TurtleState,
    Seq<TurtleState>,
    Seq<(Vec3i, u32)>,
) {
    if sym == 70u8 {  // 'F'
        let dir_x = div_tz(st.pitch.cos * st.yaw.cos, FP_ONE as int);
        let dir_y = st.pitch.sin as int;
        let dir_z = div_tz(st.pitch.cos * st.yaw.sin, FP_ONE as int);
        let dx = div_tz(st.length * dir_x, FP_ONE as int);
        let dy = div_tz(st.length * dir_y, FP_ONE as int);
        let dz = div_tz(st.length * dir_z, FP_ONE as int);
        let steps = if st.length as int / (FP_ONE as int) >= 1 {
            st.length as int / (FP_ONE as int)
        } else {
            1
        };
        let sub_x = div_tz(dx, steps);
        let sub_y = div_tz(dy, steps);
        let sub_z = div_tz(dz, steps);
        let writes = segment_discs(
            st.px as int,
            st.py as int,
            st.pz as int,
            sub_x,
            sub_y,
            sub_z,
            steps,
            1,
            to_voxel(st.radius as int),
            t.spec_branch_id(),
        );
        let st2 = TurtleState {
            px: (st.px + dx) as i128,
            py: (st.py + dy) as i128,
            pz: (st.pz + dz) as i128,
            ..st
        };
        (st2, stack, writes)
    } else if sym == 37u8 {  // '%'
        let writes = blob_levels(
            to_voxel(st.px as int),
            to_voxel(st.py as int),
            to_voxel(st.pz as int),
            t.spec_leaf_radius() as int,
            t.spec_leaf_height() as int,
            -(t.spec_leaf_height() as int),
            t.spec_leaf_id(),
        );
        (st, stack, writes)
    } else if sym == 43u8 {  // '+'
        (TurtleState { yaw: spec_rotate(st.yaw, t.spec_drot()), ..st }, stack, Seq::empty())
    } else if sym == 45u8 {  // '-'
        (
            TurtleState { yaw: spec_rotate(st.yaw, spec_invert(t.spec_drot())), ..st },
            stack,
            Seq::empty(),
        )
    } else if sym == 35u8 {  // '#'
        (TurtleState { pitch: spec_rotate(st.pitch, t.spec_dy()), ..st }, stack, Seq::empty())
    } else if sym == 36u8 {  // '$'
        (
            TurtleState { pitch: spec_rotate(st.pitch, spec_invert(t.spec_dy())), ..st },
            stack,
            Seq::empty(),
        )
    } else if sym == 33u8 {  // '!'
        (
            TurtleState {
                radius: div_tz(st.radius * t.spec_radius_factor(), FP_ONE as int) as i64,
                ..st
            },
            stack,
            Seq::empty(),
        )
    } else if sym == 64u8 {  // '@'
        (
            TurtleState {
                length: div_tz(st.length * t.spec_length_factor(), FP_ONE as int) as i64,
                ..st
            },
            stack,
            Seq::empty(),
        )
    } else if sym == 91u8 {  // '['
        (st, stack.push(st), Seq::empty())
    } else if sym == 93u8 {  // ']'
        if stack.len() > 0 {
            (stack.last(), stack.drop_last(), Seq::empty())
        } else {
            (st, stack, Seq::empty())
        }
    } else {
        (st, stack, Seq::empty())
    }
}

/// The whole turtle run over a symbol string: every symbol's emissions, in
/// order.
pub open spec fn turtle_spec(
    t: Tree,
    symbols: Seq<u8>,
    st: TurtleState,
    stack: Seq<TurtleState>,
) -> Seq<(Vec3i, u32)>
    decreases symbols.len(),
{
    if symbols.len() == 0 {
        Seq::empty()
    } else {
        let (st2, stack2, writes) = spec_step(t, st, stack, symbols[0]);
        writes + turtle_spec(t, symbols.drop_first(), st2, stack2)
    }
}

/// The turtle's starting state on a root voxel: centered in the cell,
/// heading straight up, at the tree's initial radius and length.
pub open spec fn initial_turtle(t: Tree, root: Vec3i) -> TurtleState {
    TurtleState {
        px: (root.0 * FP_ONE + FP_ONE / 2) as i128,
        py: (root.1 * FP_ONE) as i128,
        pz: (root.2 * FP_ONE + FP_ONE / 2) as i128,
        yaw: Rotation { cos: FP_ONE, sin: 0 },
        pitch: Rotation { cos: 0, sin: FP_ONE },
        radius: t.spec_initial_radius(),
        length: t.spec_initial_length(),
    }
}

/// What generating a tree at a root yields: the turtle run over the
/// expanded grammar.
pub open spec fn generate_spec(t: Tree, root: Vec3i) -> Seq<(Vec3i, u32)> {
    turtle_spec(t, t.spec_system().spec_expand(), initial_turtle(t, root), Seq::empty())
}

/// A parametric tree descriptor.
pub struct Tree {
    leaf_id: u32,
    branch_id: u32,
    leaf_height: u32,
    leaf_radius: u32,
    branch_initial_radius: i64,
    branch_initial_length: i64,
    branch_radius_factor: i64,
    branch_length_factor: i64,
    branch_dy_angle: Rotation,
    branch_drot_angle: Rotation,
    system: LSystem,
}

impl Tree {
    /// The leaf block ID.
    pub closed spec fn spec_leaf_id(self) -> u32 {
        self.leaf_id
    }

    /// The branch block ID.
    pub closed spec fn spec_branch_id(self) -> u32 {
        self.branch_id
    }

    /// The leaf blob's half-height in voxels.
    pub closed spec fn spec_leaf_height(self) -> u32 {
        self.leaf_height
    }

    /// The leaf blob's radius in voxels.
    pub closed spec fn spec_leaf_radius(self) -> u32 {
        self.leaf_radius
    }

    /// The initial branch radius, fixed point.
    pub closed spec fn spec_initial_radius(self) -> i64 {
        self.branch_initial_radius
    }

    /// The initial branch length, fixed point.
    pub closed spec fn spec_initial_length(self) -> i64 {
        self.branch_initial_length
    }

    /// The per-`!` radius decay factor, fixed point.
    pub closed spec fn spec_radius_factor(self) -> i64 {
        self.branch_radius_factor
    }

    /// The per-`@` length decay factor, fixed point.
    pub closed spec fn spec_length_factor(self) -> i64 {
        self.branch_length_factor
    }

    /// The pitch rotation delta.
    pub closed spec fn spec_dy(self) -> Rotation {
        self.branch_dy_angle
    }

    /// The yaw rotation delta.
    pub closed spec fn spec_drot(self) -> Rotation {
        self.branch_drot_angle
    }

    /// The L-system grammar.
    pub closed spec fn spec_system(self) -> LSystem {
        self.system
    }

    /// A sane configuration: rotation deltas saturated, decay factors at
    /// most one, scales bounded; what keeps the interpreter's arithmetic
    /// exact.
    pub open spec fn wf(self) -> bool {
        &&& rotation_wf(self.spec_dy())
        &&& rotation_wf(self.spec_drot())
        &&& 0 <= self.spec_radius_factor() <= FP_ONE
        &&& 0 <= self.spec_length_factor() <= FP_ONE
        &&& 0 <= self.spec_initial_radius() <= TREE_SCALE_LIMIT
        &&& 0 <= self.spec_initial_length() <= TREE_SCALE_LIMIT
        &&& self.spec_leaf_radius() <= 1000
        &&& self.spec_leaf_height() <= 1000
    }

    /// A tree with the given block IDs: unit scales, no rotation, no decay,
    /// single-voxel leaves, empty grammar.
    pub fn new(leaf_id: u32, branch_id: u32) -> (r: Tree)
        ensures
            r.wf(),
            r.spec_leaf_id() == leaf_id,
            r.spec_branch_id() == branch_id,
            r.spec_leaf_height() == 1,
            r.spec_leaf_radius() == 1,
            r.spec_initial_radius() == FP_ONE,
            r.spec_initial_length() == FP_ONE,
            r.spec_radius_factor() == FP_ONE,
            r.spec_length_factor() == FP_ONE,
            r.spec_dy() == (Rotation { cos: FP_ONE, sin: 0 }),
            r.spec_drot() == (Rotation { cos: FP_ONE, sin: 0 }),
            r.spec_system().spec_initiator() =~= Seq::<u8>::empty(),
            r.spec_system().spec_rules() =~= Seq::<(u8, Seq<u8>)>::empty(),
            r.spec_system().spec_iterations() == 0,
    {
        Tree {
            leaf_id,
            branch_id,
            leaf_height: 1,
            leaf_radius: 1,
            branch_initial_radius: FP_ONE,
            branch_initial_length: FP_ONE,
            branch_radius_factor: FP_ONE,
            branch_length_factor: FP_ONE,
            branch_dy_angle: Rotation { cos: FP_ONE, sin: 0 },
            branch_drot_angle: Rotation { cos: FP_ONE, sin: 0 },
            system: LSystem::new(),
        }
    }

    /// Sets the leaf blob half-height, in voxels.
    pub fn leaf_height(self, h: u32) -> (r: Tree)
        requires
            h <= 1000,
        ensures
            r.spec_leaf_height() == h,
            r.spec_leaf_radius() == self.spec_leaf_radius(),
            r.spec_initial_radius() == self.spec_initial_radius(),
            r.spec_initial_length() == self.spec_initial_length(),
            r.spec_radius_factor() == self.spec_radius_factor(),
            r.spec_length_factor() == self.spec_length_factor(),
            r.spec_dy() == self.spec_dy(),
            r.spec_drot() == self.spec_drot(),
            r.spec_system() == self.spec_system(),
            r.spec_leaf_id() == self.spec_leaf_id(),
            r.spec_branch_id() == self.spec_branch_id(),
    {
        Tree { leaf_height: h, ..self }
    }

    /// Sets the leaf blob radius, in voxels.
    pub fn leaf_radius(self, rad: u32) -> (r: Tree)
        requires
            rad <= 1000,
        ensures
            r.spec_leaf_radius() == rad,
            r.spec_leaf_height() == self.spec_leaf_height(),
            r.spec_initial_radius() == self.spec_initial_radius(),
            r.spec_initial_length() == self.spec_initial_length(),
            r.spec_radius_factor() == self.spec_radius_factor(),
            r.spec_length_factor() == self.spec_length_factor(),
            r.spec_dy() == self.spec_dy(),
            r.spec_drot() == self.spec_drot(),
            r.spec_system() == self.spec_system(),
            r.spec_leaf_id() == self.spec_leaf_id(),
            r.spec_branch_id() == self.spec_branch_id(),
    {
        Tree { leaf_radius: rad, ..self }
    }

    /// Sets the initial branch radius, in whole voxels.
    pub fn branch_initial_radius(self, rad: u32) -> (r: Tree)
        requires
            rad <= 1000,
        ensures
            r.spec_initial_radius() == rad * FP_ONE,
            r.spec_leaf_height() == self.spec_leaf_height(),
            r.spec_leaf_radius() == self.spec_leaf_radius(),
            r.spec_initial_length() == self.spec_initial_length(),
            r.spec_radius_factor() == self.spec_radius_factor(),
            r.spec_length_factor() == self.spec_length_factor(),
            r.spec_dy() == self.spec_dy(),
            r.spec_drot() == self.spec_drot(),
            r.spec_system() == self.spec_system(),
            r.spec_leaf_id() == self.spec_leaf_id(),
            r.spec_branch_id() == self.spec_branch_id(),
    {
        Tree { branch_initial_radius: rad as i64 * FP_ONE, ..self }
    }

    /// Sets the initial branch length, in whole voxels.
    pub fn branch_initial_length(self, len: u32) -> (r: Tree)
        requires
            len <= 1000,
        ensures
            r.spec_initial_length() == len * FP_ONE,
            r.spec_leaf_height() == self.spec_leaf_height(),
            r.spec_leaf_radius() == self.spec_leaf_radius(),
            r.spec_initial_radius() == self.spec_initial_radius(),
            r.spec_radius_factor() == self.spec_radius_factor(),
            r.spec_length_factor() == self.spec_length_factor(),
            r.spec_dy() == self.spec_dy(),
            r.spec_drot() == self.spec_drot(),
            r.spec_system() == self.spec_system(),
            r.spec_leaf_id() == self.spec_leaf_id(),
            r.spec_branch_id() == self.spec_branch_id(),
    {
        Tree { branch_initial_length: len as i64 * FP_ONE, ..self }
    }

    /// Sets the per-`!` radius decay factor, fixed point, at most one.
    pub fn branch_radius_factor(self, f: i64) -> (r: Tree)
        requires
            0 <= f <= FP_ONE,
        ensures
            r.spec_radius_factor() == f,
            r.spec_leaf_height() == self.spec_leaf_height(),
            r.spec_leaf_radius() == self.spec_leaf_radius(),
            r.spec_initial_radius() == self.spec_initial_radius(),
            r.spec_initial_length() == self.spec_initial_length(),
            r.spec_length_factor() == self.spec_length_factor(),
            r.spec_dy() == self.spec_dy(),
            r.spec_drot() == self.spec_drot(),
            r.spec_system() == self.spec_system(),
            r.spec_leaf_id() == self.spec_leaf_id(),
            r.spec_branch_id() == self.spec_branch_id(),
    {
        Tree { branch_radius_factor: f, ..self }
    }

    /// Sets the per-`@` length decay factor, fixed point, at most one.
    pub fn branch_length_factor(self, f: i64) -> (r: Tree)
        requires
            0 <= f <= FP_ONE,
        ensures
            r.spec_length_factor() == f,
            r.spec_leaf_height() == self.spec_leaf_height(),
            r.spec_leaf_radius() == self.spec_leaf_radius(),
            r.spec_initial_radius() == self.spec_initial_radius(),
            r.spec_initial_length() == self.spec_initial_length(),
            r.spec_radius_factor() == self.spec_radius_factor(),
            r.spec_dy() == self.spec_dy(),
            r.spec_drot() == self.spec_drot(),
            r.spec_system() == self.spec_system(),
            r.spec_leaf_id() == self.spec_leaf_id(),
            r.spec_branch_id() == self.spec_branch_id(),
    {
        Tree { branch_length_factor: f, ..self }
    }

    /// Sets the pitch rotation delta as a saturated (cosine, sine) pair.
    pub fn branch_dy_angle(self, d: Rotation) -> (r: Tree)
        requires
            rotation_wf(d),
        ensures
            r.spec_dy() == d,
            r.spec_leaf_height() == self.spec_leaf_height(),
            r.spec_leaf_radius() == self.spec_leaf_radius(),
            r.spec_initial_radius() == self.spec_initial_radius(),
            r.spec_initial_length() == self.spec_initial_length(),
            r.spec_radius_factor() == self.spec_radius_factor(),
            r.spec_length_factor() == self.spec_length_factor(),
            r.spec_drot() == self.spec_drot(),
            r.spec_system() == self.spec_system(),
            r.spec_leaf_id() == self.spec_leaf_id(),
            r.spec_branch_id() == self.spec_branch_id(),
    {
        Tree { branch_dy_angle: d, ..self }
    }

    /// Sets the yaw rotation delta as a saturated (cosine, sine) pair.
    pub fn branch_drot_angle(self, d: Rotation) -> (r: Tree)
        requires
            rotation_wf(d),
        ensures
            r.spec_drot() == d,
            r.spec_leaf_height() == self.spec_leaf_height(),
            r.spec_leaf_radius() == self.spec_leaf_radius(),
            r.spec_initial_radius() == self.spec_initial_radius(),
            r.spec_initial_length() == self.spec_initial_length(),
            r.spec_radius_factor() == self.spec_radius_factor(),
            r.spec_length_factor() == self.spec_length_factor(),
            r.spec_dy() == self.spec_dy(),
            r.spec_system() == self.spec_system(),
            r.spec_leaf_id() == self.spec_leaf_id(),
            r.spec_branch_id() == self.spec_branch_id(),
    {
        Tree { branch_drot_angle: d, ..self }
    }

    /// Sets the L-system grammar.
    pub fn system(self, system: LSystem) -> (r: Tree)
        ensures
            r.spec_system() == system,
            r.spec_leaf_id() == self.spec_leaf_id(),
            r.spec_branch_id() == self.spec_branch_id(),
            r.spec_leaf_height() == self.spec_leaf_height(),
            r.spec_leaf_radius() == self.spec_leaf_radius(),
            r.spec_initial_radius() == self.spec_initial_radius(),
            r.spec_initial_length() == self.spec_initial_length(),
            r.spec_radius_factor() == self.spec_radius_factor(),
            r.spec_length_factor() == self.spec_length_factor(),
            r.spec_dy() == self.spec_dy(),
            r.spec_drot() == self.spec_drot(),
            r.wf() == self.wf(),
    {
        Tree { system, ..self }
    }

    /// Finishes the builder chain.
    pub fn build(self) -> (r: Tree)
        ensures
            r == self,
    {
        self
    }
}

/// Position components within the interpreter's wide-integer budget, which
/// loosens by one step allowance per symbol still to process.
pub open spec fn pos_bound(st: TurtleState, remaining: int) -> bool {
    &&& -0x10000000000000000000000000 + remaining * 0x100000000 <= st.px
        <= 0x10000000000000000000000000 - remaining * 0x100000000
    &&& -0x10000000000000000000000000 + remaining * 0x100000000 <= st.py
        <= 0x10000000000000000000000000 - remaining * 0x100000000
    &&& -0x10000000000000000000000000 + remaining * 0x100000000 <= st.pz
        <= 0x10000000000000000000000000 - remaining * 0x100000000
}

/// Runtime saturation to the unit range.
fn clamp_unit_fx(v: i64) -> (r: i64)
    ensures
        r == clamp_unit(v as int),
{
    if v < -FP_ONE {
        -FP_ONE
    } else if v > FP_ONE {
        FP_ONE
    } else {
        v
    }
}

/// Runtime heading rotation.
fn rotate_fx(h: Rotation, d: Rotation) -> (r: Rotation)
    requires
        rotation_wf(h),
        rotation_wf(d),
    ensures
        r == spec_rotate(h, d),
        rotation_wf(r),
{
    proof {
        assert(-0x10000000000000 <= h.cos * d.cos <= 0x10000000000000 && -0x10000000000000 <= h.sin
            * d.sin <= 0x10000000000000 && -0x10000000000000 <= h.sin * d.cos
            <= 0x10000000000000 && -0x10000000000000 <= h.cos * d.sin <= 0x10000000000000)
            by (nonlinear_arith)
            requires
                -0x100000 <= h.cos <= 0x100000 && -0x100000 <= h.sin <= 0x100000 && -0x100000
                    <= d.cos <= 0x100000 && -0x100000 <= d.sin <= 0x100000,
        ;
    }
    let nc = div_fx((h.cos as i128) * (d.cos as i128) - (h.sin as i128) * (d.sin as i128),
        FP_ONE as i128);
    let ns = div_fx((h.sin as i128) * (d.cos as i128) + (h.cos as i128) * (d.sin as i128),
        FP_ONE as i128);
    proof {
        crate::fixed::lemma_div_tz_range(
            h.cos as int * d.cos as int - h.sin as int * d.sin as int,
            FP_ONE as int,
        );
        crate::fixed::lemma_div_tz_range(
            h.sin as int * d.cos as int + h.cos as int * d.sin as int,
            FP_ONE as int,
        );
    }
    Rotation { cos: clamp_unit_fx(nc as i64), sin: clamp_unit_fx(ns as i64) }
}

/// Appends one disc row.
fn emit_disc_row(
    cx: i128,
    y: i128,
    cz: i128,
    r: i64,
    dx: i64,
    dz: i64,
    id: u32,
    out: &mut Vec<(Vec3i, u32)>,
)
    requires
        0 <= r <= 3000,
        -3000 <= dx <= 3000,
        -3000 <= dz <= 3001,
        -0x1000000000000000000000000000 <= cx <= 0x1000000000000000000000000000,
        -0x1000000000000000000000000000 <= y <= 0x1000000000000000000000000000,
        -0x1000000000000000000000000000 <= cz <= 0x1000000000000000000000000000,
    ensures
        final(out)@ == old(out)@ + disc_row(cx as int, y as int, cz as int, r as int, dx as int, dz as int, id),
    decreases 3001 + r - dz,
{
    if dz > r {
        proof {
            assert(old(out)@ + disc_row(cx as int, y as int, cz as int, r as int, dx as int, dz as int, id)
                =~= old(out)@);
        }
        return ;
    }
    proof {
        assert(0 <= dx * dx <= 0x1000000 && 0 <= dz * dz <= 0x1000000 && 0 <= r * r <= 0x1000000)
            by (nonlinear_arith)
            requires
                -3001 <= dx <= 3001 && -3001 <= dz <= 3001 && 0 <= r <= 3000,
        ;
    }
    if dx * dx + dz * dz <= r * r && i32::MIN as i128 <= cx + dx as i128 && cx + dx as i128
        <= i32::MAX as i128 && i32::MIN as i128 <= y && y <= i32::MAX as i128 && i32::MIN as i128
        <= cz + dz as i128 && cz + dz as i128 <= i32::MAX as i128 {
        out.push((Vec3i((cx + dx as i128) as i32, y as i32, (cz + dz as i128) as i32), id));
    }
    emit_disc_row(cx, y, cz, r, dx, dz + 1, id, out);
}

/// Appends the rows of one disc.
fn emit_disc_rows(
    cx: i128,
    y: i128,
    cz: i128,
    r: i64,
    dx: i64,
    id: u32,
    out: &mut Vec<(Vec3i, u32)>,
)
    requires
        0 <= r <= 3000,
        -3000 <= dx <= 3001,
        -0x1000000000000000000000000000 <= cx <= 0x1000000000000000000000000000,
        -0x1000000000000000000000000000 <= y <= 0x1000000000000000000000000000,
        -0x1000000000000000000000000000 <= cz <= 0x1000000000000000000000000000,
    ensures
        final(out)@ == old(out)@ + disc_rows(cx as int, y as int, cz as int, r as int, dx as int, id),
    decreases 3001 + r - dx,
{
    if dx > r {
        proof {
            assert(old(out)@ + disc_rows(cx as int, y as int, cz as int, r as int, dx as int, id)
                =~= old(out)@);
        }
        return ;
    }
    emit_disc_row(cx, y, cz, r, dx, -r, id, out);
    emit_disc_rows(cx, y, cz, r, dx + 1, id, out);
}

/// Appends one full disc.
fn emit_disc(cx: i128, y: i128, cz: i128, r: i64, id: u32, out: &mut Vec<(Vec3i, u32)>)
    requires
        0 <= r <= 3000,
        -0x1000000000000000000000000000 <= cx <= 0x1000000000000000000000000000,
        -0x1000000000000000000000000000 <= y <= 0x1000000000000000000000000000,
        -0x1000000000000000000000000000 <= cz <= 0x1000000000000000000000000000,
    ensures
        final(out)@ == old(out)@ + disc(cx as int, y as int, cz as int, r as int, id),
{
    emit_disc_rows(cx, y, cz, r, -r, id, out);
}

/// Appends a leaf blob's levels.
fn emit_blob_levels(
    cx: i128,
    cy: i128,
    cz: i128,
    r: i64,
    h: i64,
    dy: i64,
    id: u32,
    out: &mut Vec<(Vec3i, u32)>,
)
    requires
        0 <= r <= 3000,
        0 <= h <= 3000,
        -3001 <= dy <= 3001,
        -0x1000000000000000000000000000 <= cx <= 0x1000000000000000000000000000,
        -0x1000000000000000000000000000 <= cy - 3001 && cy + 3001
            <= 0x1000000000000000000000000000,
        -0x1000000000000000000000000000 <= cz <= 0x1000000000000000000000000000,
    ensures
        final(out)@ == old(out)@ + blob_levels(cx as int, cy as int, cz as int, r as int, h as int, dy as int, id),
    decreases 3001 + h - dy,
{
    if dy > h {
        proof {
            assert(old(out)@ + blob_levels(cx as int, cy as int, cz as int, r as int, h as int, dy as int, id)
                =~= old(out)@);
        }
        return ;
    }
    emit_disc(cx, cy + dy as i128, cz, r, id, out);
    emit_blob_levels(cx, cy, cz, r, h, dy + 1, id, out);
}

/// Appends a trunk segment's discs.
fn emit_segment_discs(
    px: i128,
    py: i128,
    pz: i128,
    sub_x: i64,
    sub_y: i64,
    sub_z: i64,
    steps: i64,
    s: i64,
    r: i64,
    id: u32,
    out: &mut Vec<(Vec3i, u32)>,
)
    requires
        0 <= r <= 3000,
        1 <= s,
        steps <= 2000,
        -0x100000000 <= sub_x <= 0x100000000,
        -0x100000000 <= sub_y <= 0x100000000,
        -0x100000000 <= sub_z <= 0x100000000,
        -0x20000000000000000000000000 <= px <= 0x20000000000000000000000000,
        -0x20000000000000000000000000 <= py <= 0x20000000000000000000000000,
        -0x20000000000000000000000000 <= pz <= 0x20000000000000000000000000,
    ensures
        final(out)@ == old(out)@ + segment_discs(px as int, py as int, pz as int, sub_x as int, sub_y as int, sub_z as int, steps as int, s as int, r as int, id),
    decreases 2001 + steps - s,
{
    if s > steps {
        proof {
            assert(old(out)@ + segment_discs(px as int, py as int, pz as int, sub_x as int, sub_y as int, sub_z as int, steps as int, s as int, r as int, id)
                =~= old(out)@);
        }
        return ;
    }
    proof {
        assert(-0x1000000000000000000 <= s * sub_x <= 0x1000000000000000000
            && -0x1000000000000000000 <= s * sub_y <= 0x1000000000000000000
            && -0x1000000000000000000 <= s * sub_z <= 0x1000000000000000000) by (nonlinear_arith)
            requires
                0 <= s <= 2000,
                -0x100000000 <= sub_x <= 0x100000000,
                -0x100000000 <= sub_y <= 0x100000000,
                -0x100000000 <= sub_z <= 0x100000000,
        ;
    }
    let wx = crate::fixed::floor_div_fx(px + (s as i128) * (sub_x as i128), FP_ONE as i128);
    let wy = crate::fixed::floor_div_fx(py + (s as i128) * (sub_y as i128), FP_ONE as i128);
    let wz = crate::fixed::floor_div_fx(pz + (s as i128) * (sub_z as i128), FP_ONE as i128);
    emit_disc(wx, wy, wz, r, id, out);
    emit_segment_discs(px, py, pz, sub_x, sub_y, sub_z, steps, s + 1, r, id, out);
}

/// Runs the turtle over the symbols from `idx` on, appending every
/// emission; the executable mirror of [`turtle_spec`].
#[verifier::rlimit(100)]
fn turtle_exec(
    t: &Tree,
    symbols: &Vec<u8>,
    idx: usize,
    st: TurtleState,
    stack: Vec<TurtleState>,
    out: &mut Vec<(Vec3i, u32)>,
)
    requires
        t.wf(),
        turtle_wf(st),
        idx <= symbols@.len(),
        pos_bound(st, symbols@.len() - idx),
        forall|k: int|
            0 <= k < stack@.len() ==> turtle_wf(#[trigger] stack@[k]) && pos_bound(
                stack@[k],
                symbols@.len() - idx,
            ),
    ensures
        final(out)@ == old(out)@ + turtle_spec(*t, symbols@.skip(idx as int), st, stack@),
    decreases symbols@.len() - idx,
{
    if idx == symbols.len() {
        proof {
            assert(symbols@.skip(idx as int) =~= Seq::<u8>::empty());
            assert(old(out)@ + turtle_spec(*t, symbols@.skip(idx as int), st, stack@)
                =~= old(out)@);
        }
        return ;
    }
    let sym = symbols[idx];
    let ghost suffix = symbols@.skip(idx as int);
    proof {
        assert(suffix[0] == sym);
        assert(suffix.drop_first() =~= symbols@.skip(idx as int + 1));
    }
    let ghost stepped = spec_step(*t, st, stack@, sym);
    let ghost out0 = out@;
    let mut st2 = st;
    let mut stack2 = stack;
    if sym == 70u8 {
        // 'F'
        proof {
            assert(-(FP_ONE as int) * (FP_ONE as int) <= st.pitch.cos as int * st.yaw.cos as int
                <= (FP_ONE as int) * (FP_ONE as int) && -(FP_ONE as int) * (FP_ONE as int)
                <= st.pitch.cos as int * st.yaw.sin as int <= (FP_ONE as int) * (FP_ONE as int))
                by (nonlinear_arith)
                requires
                    -(FP_ONE as int) <= st.pitch.cos as int <= FP_ONE as int,
                    -(FP_ONE as int) <= st.yaw.cos as int <= FP_ONE as int,
                    -(FP_ONE as int) <= st.yaw.sin as int <= FP_ONE as int,
            ;
            crate::fixed::lemma_div_tz_bound(
                st.pitch.cos as int * st.yaw.cos as int,
                FP_ONE as int,
                FP_ONE as int,
            );
            crate::fixed::lemma_div_tz_bound(
                st.pitch.cos as int * st.yaw.sin as int,
                FP_ONE as int,
                FP_ONE as int,
            );
        }
        let dir_x = div_fx(st.pitch.cos as i128 * st.yaw.cos as i128, FP_ONE as i128) as i64;
        let dir_y = st.pitch.sin;
        let dir_z = div_fx(st.pitch.cos as i128 * st.yaw.sin as i128, FP_ONE as i128) as i64;
        proof {
            assert(-(TREE_SCALE_LIMIT as int) * (FP_ONE as int) <= st.length as int
                * dir_x as int <= (TREE_SCALE_LIMIT as int) * (FP_ONE as int)
                && -(TREE_SCALE_LIMIT as int) * (FP_ONE as int) <= st.length as int
                * dir_y as int <= (TREE_SCALE_LIMIT as int) * (FP_ONE as int)
                && -(TREE_SCALE_LIMIT as int) * (FP_ONE as int) <= st.length as int
                * dir_z as int <= (TREE_SCALE_LIMIT as int) * (FP_ONE as int))
                by (nonlinear_arith)
                requires
                    0 <= st.length as int <= TREE_SCALE_LIMIT as int,
                    -(FP_ONE as int) <= dir_x as int <= FP_ONE as int,
                    -(FP_ONE as int) <= dir_y as int <= FP_ONE as int,
                    -(FP_ONE as int) <= dir_z as int <= FP_ONE as int,
            ;
        }
        let dx = div_fx(st.length as i128 * dir_x as i128, FP_ONE as i128) as i64;
        let dy = div_fx(st.length as i128 * dir_y as i128, FP_ONE as i128) as i64;
        let dz = div_fx(st.length as i128 * dir_z as i128, FP_ONE as i128) as i64;
        proof {
            crate::fixed::lemma_div_tz_bound(
                st.length as int * dir_x as int,
                FP_ONE as int,
                TREE_SCALE_LIMIT as int,
            );
            crate::fixed::lemma_div_tz_bound(
                st.length as int * dir_y as int,
                FP_ONE as int,
                TREE_SCALE_LIMIT as int,
            );
            crate::fixed::lemma_div_tz_bound(
                st.length as int * dir_z as int,
                FP_ONE as int,
                TREE_SCALE_LIMIT as int,
            );
        }
        let steps = if st.length / FP_ONE >= 1 {
            st.length / FP_ONE
        } else {
            1i64
        };
        let sub_x = div_fx(dx as i128, steps as i128) as i64;
        let sub_y = div_fx(dy as i128, steps as i128) as i64;
        let sub_z = div_fx(dz as i128, steps as i128) as i64;
        proof {
            crate::fixed::lemma_div_tz_range(dx as int, steps as int);
            crate::fixed::lemma_div_tz_range(dy as int, steps as int);
            crate::fixed::lemma_div_tz_range(dz as int, steps as int);
            vstd::arithmetic::div_mod::lemma_div_is_ordered(
                st.radius as int,
                TREE_SCALE_LIMIT as int,
                FP_ONE as int,
            );
            vstd::arithmetic::div_mod::lemma_div_pos_is_pos(st.radius as int, FP_ONE as int);
            vstd::arithmetic::div_mod::lemma_fundamental_div_mod_converse(
                TREE_SCALE_LIMIT as int,
                FP_ONE as int,
                1000,
                0,
            );
        }
        let trunk_r = crate::fixed::floor_div_fx(st.radius as i128, FP_ONE as i128) as i64;
        emit_segment_discs(
            st.px,
            st.py,
            st.pz,
            sub_x,
            sub_y,
            sub_z,
            steps,
            1,
            trunk_r,
            t.branch_id,
            out,
        );
        st2 = TurtleState {
            px: st.px + dx as i128,
            py: st.py + dy as i128,
            pz: st.pz + dz as i128,
            ..st
        };
        proof {
            assert(stepped == (st2, stack2@, stepped.2));
            assert(out@ == out0 + stepped.2);
        }
    } else if sym == 37u8 {
        // '%'
        let cx = crate::fixed::floor_div_fx(st.px, FP_ONE as i128);
        let cy = crate::fixed::floor_div_fx(st.py, FP_ONE as i128);
        let cz = crate::fixed::floor_div_fx(st.pz, FP_ONE as i128);
        emit_blob_levels(
            cx,
            cy,
            cz,
            t.leaf_radius as i64,
            t.leaf_height as i64,
            -(t.leaf_height as i64),
            t.leaf_id,
            out,
        );
        proof {
            assert(stepped == (st2, stack2@, stepped.2));
            assert(out@ == out0 + stepped.2);
        }
    } else if sym == 43u8 {
        // '+'
        st2 = TurtleState { yaw: rotate_fx(st.yaw, t.branch_drot_angle), ..st };
        proof {
            assert(stepped == (st2, stack2@, Seq::<(Vec3i, u32)>::empty()));
            assert(out@ =~= out0 + stepped.2);
        }
    } else if sym == 45u8 {
        // '-'
        st2 = TurtleState {
            yaw: rotate_fx(
                st.yaw,
                Rotation { cos: t.branch_drot_angle.cos, sin: -t.branch_drot_angle.sin },
            ),
            ..st
        };
        proof {
            assert(stepped == (st2, stack2@, Seq::<(Vec3i, u32)>::empty()));
            assert(out@ =~= out0 + stepped.2);
        }
    } else if sym == 35u8 {
        // '#'
        st2 = TurtleState { pitch: rotate_fx(st.pitch, t.branch_dy_angle), ..st };
        proof {
            assert(stepped == (st2, stack2@, Seq::<(Vec3i, u32)>::empty()));
            assert(out@ =~= out0 + stepped.2);
        }
    } else if sym == 36u8 {
        // '$'
        st2 = TurtleState {
            pitch: rotate_fx(
                st.pitch,
                Rotation { cos: t.branch_dy_angle.cos, sin: -t.branch_dy_angle.sin },
            ),
            ..st
        };
        proof {
            assert(stepped == (st2, stack2@, Seq::<(Vec3i, u32)>::empty()));
            assert(out@ =~= out0 + stepped.2);
        }
    } else if sym == 33u8 {
        // '!'
        proof {
            assert(0 <= st.radius as int * t.branch_radius_factor as int <= st.radius as int
                * FP_ONE as int) by (nonlinear_arith)
                requires
                    0 <= st.radius as int,
                    0 <= t.branch_radius_factor as int <= FP_ONE as int,
            ;
            crate::fixed::lemma_div_tz_bound(
                st.radius as int * t.branch_radius_factor as int,
                FP_ONE as int,
                st.radius as int,
            );
            crate::fixed::lemma_div_tz_range(
                st.radius as int * t.branch_radius_factor as int,
                FP_ONE as int,
            );
        }
        st2 = TurtleState {
            radius: div_fx(st.radius as i128 * t.branch_radius_factor as i128, FP_ONE as i128)
                as i64,
            ..st
        };
        proof {
            assert(stepped == (st2, stack2@, Seq::<(Vec3i, u32)>::empty()));
            assert(out@ =~= out0 + stepped.2);
        }
    } else if sym == 64u8 {
        // '@'
        proof {
            assert(0 <= st.length as int * t.branch_length_factor as int <= st.length as int
                * FP_ONE as int) by (nonlinear_arith)
                requires
                    0 <= st.length as int,
                    0 <= t.branch_length_factor as int <= FP_ONE as int,
            ;
            crate::fixed::lemma_div_tz_bound(
                st.length as int * t.branch_length_factor as int,
                FP_ONE as int,
                st.length as int,
            );
            crate::fixed::lemma_div_tz_range(
                st.length as int * t.branch_length_factor as int,
                FP_ONE as int,
            );
        }
        st2 = TurtleState {
            length: div_fx(st.length as i128 * t.branch_length_factor as i128, FP_ONE as i128)
                as i64,
            ..st
        };
        proof {
            assert(stepped == (st2, stack2@, Seq::<(Vec3i, u32)>::empty()));
            assert(out@ =~= out0 + stepped.2);
        }
    } else if sym == 91u8 {
        // '['
        stack2.push(st);
        proof {
            assert(stepped == (st2, stack2@, Seq::<(Vec3i, u32)>::empty()));
            assert(out@ =~= out0 + stepped.2);
        }
    } else if sym == 93u8 {
        // ']'
        if stack2.len() > 0 {
            match stack2.pop() {
                Some(top) => {
                    st2 = top;
                },
                None => {
                    proof {
                        assert(false);
                    }
                },
            }
        }
        proof {
            assert(stepped == (st2, stack2@, Seq::<(Vec3i, u32)>::empty()));
            assert(out@ =~= out0 + stepped.2);
        }
    } else {
        proof {
            assert(stepped == (st2, stack2@, Seq::<(Vec3i, u32)>::empty()));
            assert(out@ =~= out0 + stepped.2);
        }
    }
    proof {
        assert(turtle_wf(st2));
        assert(pos_bound(st2, symbols@.len() - (idx + 1)));
        assert forall|k: int| 0 <= k < stack2@.len() implies turtle_wf(#[trigger] stack2@[k])
            && pos_bound(stack2@[k], symbols@.len() - (idx + 1)) by {}
    }
    turtle_exec(t, symbols, idx + 1, st2, stack2, out);
    proof {
        assert(out@ =~= out0 + (stepped.2 + turtle_spec(
            *t,
            symbols@.skip(idx as int + 1),
            st2,
            stack2@,
        )));
        assert(turtle_spec(*t, suffix, st, stack@) == stepped.2 + turtle_spec(
            *t,
            suffix.drop_first(),
            stepped.0,
            stepped.1,
        ));
    }
}

/// The first tree registered under a name, if any.
pub open spec fn first_tree(list: Seq<(Seq<char>, Tree)>, name: Seq<char>) -> Option<Tree>
    decreases list.len(),
{
    if list.len() == 0 {
        None
    } else if list[0].0 == name {
        Some(list[0].1)
    } else {
        first_tree(list.drop_first(), name)
    }
}

/// Every write of the sequence uses one of the tree's two blocks.
pub open spec fn write_blocks_ok(t: Tree, writes: Seq<(Vec3i, u32)>) -> bool {
    forall|k: int|
        0 <= k < writes.len() ==> (#[trigger] writes[k]).1 == t.spec_leaf_id() || writes[k].1
            == t.spec_branch_id()
}

/// Concatenating write lists of one block keeps that block.
proof fn lemma_concat_ids(a: Seq<(Vec3i, u32)>, b: Seq<(Vec3i, u32)>, id: u32)
    requires
        forall|k: int| 0 <= k < a.len() ==> (#[trigger] a[k]).1 == id,
        forall|k: int| 0 <= k < b.len() ==> (#[trigger] b[k]).1 == id,
    ensures
        forall|k: int| 0 <= k < (a + b).len() ==> (#[trigger] (a + b)[k]).1 == id,
{
    assert forall|k: int| 0 <= k < (a + b).len() implies (#[trigger] (a + b)[k]).1 == id by {
        if k < a.len() {
            assert((a + b)[k] == a[k]);
        } else {
            assert((a + b)[k] == b[k - a.len()]);
        }
    }
}

/// A disc row writes only its own block.
proof fn lemma_disc_row_id(cx: int, y: int, cz: int, r: int, dx: int, dz: int, id: u32)
    ensures
        forall|k: int|
            0 <= k < disc_row(cx, y, cz, r, dx, dz, id).len() ==> (#[trigger] disc_row(
                cx,
                y,
                cz,
                r,
                dx,
                dz,
                id,
            )[k]).1 == id,
    decreases r - dz + 1,
{
    if dz > r {
    } else {
        lemma_disc_row_id(cx, y, cz, r, dx, dz + 1, id);
        let head = if dx * dx + dz * dz <= r * r && fits_i32(cx + dx) && fits_i32(y)
            && fits_i32(cz + dz) {
            seq![(Vec3i((cx + dx) as i32, y as i32, (cz + dz) as i32), id)]
        } else {
            Seq::<(Vec3i, u32)>::empty()
        };
        lemma_concat_ids(head, disc_row(cx, y, cz, r, dx, dz + 1, id), id);
    }
}

/// A disc writes only its own block.
proof fn lemma_disc_rows_id(cx: int, y: int, cz: int, r: int, dx: int, id: u32)
    ensures
        forall|k: int|
            0 <= k < disc_rows(cx, y, cz, r, dx, id).len() ==> (#[trigger] disc_rows(
                cx,
                y,
                cz,
                r,
                dx,
                id,
            )[k]).1 == id,
    decreases r - dx + 1,
{
    if dx > r {
    } else {
        lemma_disc_row_id(cx, y, cz, r, dx, -r, id);
        lemma_disc_rows_id(cx, y, cz, r, dx + 1, id);
        lemma_concat_ids(
            disc_row(cx, y, cz, r, dx, -r, id),
            disc_rows(cx, y, cz, r, dx + 1, id),
            id,
        );
    }
}

/// A leaf blob writes only its own block.
proof fn lemma_blob_id(cx: int, cy: int, cz: int, r: int, h: int, dy: int, id: u32)
    ensures
        forall|k: int|
            0 <= k < blob_levels(cx, cy, cz, r, h, dy, id).len() ==> (#[trigger] blob_levels(
                cx,
                cy,
                cz,
                r,
                h,
                dy,
                id,
            )[k]).1 == id,
    decreases h - dy + 1,
{
    if dy > h {
    } else {
        lemma_disc_rows_id(cx, cy + dy, cz, r, -r, id);
        lemma_blob_id(cx, cy, cz, r, h, dy + 1, id);
        lemma_concat_ids(
            disc(cx, cy + dy, cz, r, id),
            blob_levels(cx, cy, cz, r, h, dy + 1, id),
            id,
        );
    }
}

/// A trunk segment writes only its own block.
proof fn lemma_segment_id(
    px: int,
    py: int,
    pz: int,
    sub_x: int,
    sub_y: int,
    sub_z: int,
    steps: int,
    st: int,
    r: int,
    id: u32,
)
    ensures
        forall|k: int|
            0 <= k < segment_discs(px, py, pz, sub_x, sub_y, sub_z, steps, st, r, id).len()
                ==> (#[trigger] segment_discs(
                px,
                py,
                pz,
                sub_x,
                sub_y,
                sub_z,
                steps,
                st,
                r,
                id,
            )[k]).1 == id,
    decreases steps - st + 1,
{
    if st > steps {
    } else {
        lemma_disc_rows_id(
            to_voxel(px + st * sub_x),
            to_voxel(py + st * sub_y),
            to_voxel(pz + st * sub_z),
            r,
            -r,
            id,
        );
        lemma_segment_id(px, py, pz, sub_x, sub_y, sub_z, steps, st + 1, r, id);
        lemma_concat_ids(
            disc(
                to_voxel(px + st * sub_x),
                to_voxel(py + st * sub_y),
                to_voxel(pz + st * sub_z),
                r,
                id,
            ),
            segment_discs(px, py, pz, sub_x, sub_y, sub_z, steps, st + 1, r, id),
            id,
        );
    }
}

/// A turtle run writes only the tree's leaf and branch blocks.
pub proof fn lemma_turtle_blocks(
    t: Tree,
    symbols: Seq<u8>,
    st: TurtleState,
    stack: Seq<TurtleState>,
)
    ensures
        write_blocks_ok(t, turtle_spec(t, symbols, st, stack)),
    decreases symbols.len(),
{
    if symbols.len() == 0 {
    } else {
        let sym = symbols[0];
        let stepped = spec_step(t, st, stack, sym);
        if sym == 70u8 {
            let dir_x = div_tz(st.pitch.cos * st.yaw.cos, FP_ONE as int);
            let dir_z = div_tz(st.pitch.cos * st.yaw.sin, FP_ONE as int);
            let dx = div_tz(st.length * dir_x, FP_ONE as int);
            let dy = div_tz(st.length * st.pitch.sin as int, FP_ONE as int);
            let dz = div_tz(st.length * dir_z, FP_ONE as int);
            let steps = if st.length as int / (FP_ONE as int) >= 1 {
                st.length as int / (FP_ONE as int)
            } else {
                1
            };
            lemma_segment_id(
                st.px as int,
                st.py as int,
                st.pz as int,
                div_tz(dx, steps),
                div_tz(dy, steps),
                div_tz(dz, steps),
                steps,
                1,
                to_voxel(st.radius as int),
                t.spec_branch_id(),
            );
        } else if sym == 37u8 {
            lemma_blob_id(
                to_voxel(st.px as int),
                to_voxel(st.py as int),
                to_voxel(st.pz as int),
                t.spec_leaf_radius() as int,
                t.spec_leaf_height() as int,
                -(t.spec_leaf_height() as int),
                t.spec_leaf_id(),
            );
        }
        lemma_turtle_blocks(t, symbols.drop_first(), stepped.0, stepped.1);
    }
}

/// A named registry of trees gated by one placement noise field and its
/// threshold.
pub struct Trees {
    pub seed: u32,
    pub options: NoiseOptions,
    threshold: i64,
    registered: Vec<(String, Tree)>,
}

impl Trees {
    /// The placement field's seed.
    pub closed spec fn spec_seed(self) -> u32 {
        self.seed
    }

    /// The placement field's noise parameters.
    pub closed spec fn spec_options(self) -> NoiseOptions {
        self.options
    }

    /// The placement threshold, fixed point.
    pub closed spec fn spec_threshold(self) -> i64 {
        self.threshold
    }

    /// The registered trees, in registration order.
    pub closed spec fn spec_registered(self) -> Seq<(Seq<char>, Tree)> {
        Seq::new(self.registered@.len(), |i: int| (self.registered@[i].0@, self.registered@[i].1))
    }

    /// Whether a tree type name was registered.
    pub open spec fn has_tree(self, name: Seq<char>) -> bool {
        first_tree(self.spec_registered(), name) is Some
    }

    /// All registered trees are well configured.
    pub open spec fn wf(self) -> bool {
        forall|i: int|
            0 <= i < self.spec_registered().len() ==> (#[trigger] self.spec_registered()[i]).1.wf()
    }

    /// A registry over one placement field: no trees, threshold zero.
    pub fn new(seed: u32, options: &NoiseOptions) -> (r: Trees)
        ensures
            r.wf(),
            r.spec_seed() == seed,
            r.spec_options() == *options,
            r.spec_threshold() == 0,
            r.spec_registered() =~= Seq::<(Seq<char>, Tree)>::empty(),
    {
        Trees { seed, options: *options, threshold: 0, registered: Vec::new() }
    }

    /// Sets the placement threshold.
    pub fn set_threshold(&mut self, threshold: i64)
        ensures
            final(self).spec_threshold() == threshold,
            final(self).spec_registered() == old(self).spec_registered(),
            final(self).wf() == old(self).wf(),
            final(self).spec_seed() == old(self).spec_seed(),
            final(self).spec_options() == old(self).spec_options(),
    {
        self.threshold = threshold;
        proof {
            assert(self.spec_registered() =~= old(self).spec_registered());
        }
    }

    /// Registers a tree under a type name.
    pub fn register(&mut self, name: &str, tree: Tree)
        requires
            tree.wf(),
        ensures
            final(self).spec_registered() == old(self).spec_registered().push((name@, tree)),
            final(self).spec_threshold() == old(self).spec_threshold(),
            old(self).wf() ==> final(self).wf(),
            final(self).spec_seed() == old(self).spec_seed(),
            final(self).spec_options() == old(self).spec_options(),
    {
        self.registered.push((name.to_owned(), tree));
        proof {
            assert(self.spec_registered() =~= old(self).spec_registered().push((name@, tree)));
        }
    }

    /// Whether a column's raw placement sample plants a root here: the
    /// sample meets the threshold.
    pub fn should_plant(&self, raw: i64) -> (r: bool)
        ensures
            r == (raw >= self.spec_threshold()),
    {
        raw >= self.threshold
    }

    /// Expands the named tree at a root voxel into its write list, exactly
    /// [`generate_spec`] of the earliest tree registered under the name.
    pub fn generate(&self, tree_type: &str, root: Vec3i) -> (r: Vec<(Vec3i, u32)>)
        requires
            self.wf(),
            self.has_tree(tree_type@),
        ensures
            r@ == generate_spec(first_tree(self.spec_registered(), tree_type@).unwrap(), root),
            write_blocks_ok(first_tree(self.spec_registered(), tree_type@).unwrap(), r@),
    {
        let wanted = tree_type.to_owned();
        let n = self.registered.len();
        let mut i: usize = 0;
        proof {
            assert(self.spec_registered().skip(0) =~= self.spec_registered());
        }
        while i < n
            invariant
                self.wf(),
                n == self.registered@.len(),
                i <= n,
                wanted@ == tree_type@,
                self.has_tree(tree_type@),
                first_tree(self.spec_registered(), tree_type@) == first_tree(
                    self.spec_registered().skip(i as int),
                    tree_type@,
                ),
            decreases n - i,
        {
            proof {
                let t = self.spec_registered().skip(i as int);
                assert(t[0] == self.spec_registered()[i as int]);
                assert(t.drop_first() =~= self.spec_registered().skip(i as int + 1));
            }
            if self.registered[i].0 == wanted {
                let tree = &self.registered[i].1;
                let ghost gt = self.spec_registered()[i as int].1;
                proof {
                    assert(first_tree(self.spec_registered(), tree_type@) == Some(gt));
                }
                return Self::run_tree(tree, root);
            }
            i = i + 1;
        }
        proof {
            assert(self.spec_registered().skip(n as int) =~= Seq::<(Seq<char>, Tree)>::empty());
            assert(false);
        }
        unreached()
    }

    /// Expands one tree at a root voxel.
    fn run_tree(tree: &Tree, root: Vec3i) -> (r: Vec<(Vec3i, u32)>)
        requires
            tree.wf(),
        ensures
            r@ == generate_spec(*tree, root),
            write_blocks_ok(*tree, r@),
    {
        let symbols = tree.system.expand();
        // The runtime length pins the symbol count within the machine's
        // address range, which the position budget needs.
        let n_syms = symbols.len();
        let st0 = TurtleState {
            px: root.0 as i128 * FP_ONE as i128 + (FP_ONE / 2) as i128,
            py: root.1 as i128 * FP_ONE as i128,
            pz: root.2 as i128 * FP_ONE as i128 + (FP_ONE / 2) as i128,
            yaw: Rotation { cos: FP_ONE, sin: 0 },
            pitch: Rotation { cos: 0, sin: FP_ONE },
            radius: tree.branch_initial_radius,
            length: tree.branch_initial_length,
        };
        proof {
            assert(st0 == initial_turtle(*tree, root));
            assert(pos_bound(st0, symbols@.len() as int));
        }
        let mut out: Vec<(Vec3i, u32)> = Vec::new();
        turtle_exec(tree, &symbols, 0, st0, Vec::new(), &mut out);
        proof {
            assert(symbols@.skip(0) =~= symbols@);
            assert(out@ =~= generate_spec(*tree, root));
            lemma_turtle_blocks(*tree, symbols@, st0, Seq::empty());
        }
        out
    }
}

/// The placement grids as mathematical sequences.
pub open spec fn grids_view(p: Seq<Vec<i64>>) -> Seq<Seq<i64>> {
    Seq::new(p.len(), |i: int| p[i]@)
}

/// The voxel a cell holds after a write plan is applied in order over a
/// starting chunk: the last write naming the cell, or the original voxel.
pub open spec fn cell_result(c: Chunk, plan: Seq<(Vec3i, u32)>, x: int, y: int, z: int) -> u32
    decreases plan.len(),
{
    if plan.len() == 0 {
        c.voxel(x, y, z)
    } else {
        let w = plan.last();
        if w.0.0 == x && w.0.1 == y && w.0.2 == z {
            w.1
        } else {
            cell_result(c, plan.drop_last(), x, y, z)
        }
    }
}

/// The tree-placement pipeline stage: a list of tree registries, each with
/// its own placement field, applied to every column whose surface block is
/// dirt or a grass block.
pub struct TreeStage {
    all_trees: Vec<(Trees, String)>,
}

impl TreeStage {
    /// The registries and the tree type each plants, in registration
    /// order.
    pub closed spec fn spec_all_trees(self) -> Seq<(Trees, Seq<char>)> {
        Seq::new(self.all_trees@.len(), |i: int| (self.all_trees@[i].0, self.all_trees@[i].1@))
    }

    /// Every registry well formed and holding its named tree.
    pub open spec fn wf(self) -> bool {
        forall|i: int|
            0 <= i < self.spec_all_trees().len() ==> (#[trigger] self.spec_all_trees()[i]).0.wf()
                && self.spec_all_trees()[i].0.has_tree(self.spec_all_trees()[i].1)
    }

    /// The planting plan of one column, for the registries from `ti` on:
    /// each registry whose placement sample for this column meets its
    /// threshold contributes its tree's writes, rooted at `(x, h, z)`.
    pub open spec fn plan_trees(
        self,
        placement: Seq<Seq<i64>>,
        c: Chunk,
        x: int,
        z: int,
        h: int,
        ti: int,
    ) -> Seq<(Vec3i, u32)>
        decreases self.spec_all_trees().len() - ti,
    {
        if ti < 0 || ti >= self.spec_all_trees().len() {
            Seq::empty()
        } else {
            let pair = self.spec_all_trees()[ti];
            let sample = placement[ti][(x - c.spec_min().0) * c.size_z() + (z - c.spec_min().2)];
            (if sample >= pair.0.spec_threshold() {
                generate_spec(
                    first_tree(pair.0.spec_registered(), pair.1).unwrap(),
                    Vec3i(x as i32, h as i32, z as i32),
                )
            } else {
                Seq::empty()
            }) + self.plan_trees(placement, c, x, z, h, ti + 1)
        }
    }

    /// The planting plan of one column: nothing unless the column's top
    /// voxel holds the dirt or grass block, else every registry's writes
    /// in registration order.
    pub open spec fn plan_column(
        self,
        placement: Seq<Seq<i64>>,
        c: Chunk,
        dirt: u32,
        grass: u32,
        x: int,
        z: int,
    ) -> Seq<(Vec3i, u32)> {
        let h = c.spec_top(x, z, c.spec_max().1 as int);
        let id = c.voxel(x, h, z);
        if c.spec_min().1 < c.spec_max().1 && (id == dirt || id == grass) {
            self.plan_trees(placement, c, x, z, h, 0)
        } else {
            Seq::empty()
        }
    }

    /// The plans of the columns at `x` from `z` on.
    pub open spec fn plan_cols_z(
        self,
        placement: Seq<Seq<i64>>,
        c: Chunk,
        dirt: u32,
        grass: u32,
        x: int,
        z: int,
    ) -> Seq<(Vec3i, u32)>
        decreases c.spec_max().2 - z,
    {
        if z < c.spec_min().2 || z >= c.spec_max().2 {
            Seq::empty()
        } else {
            self.plan_column(placement, c, dirt, grass, x, z) + self.plan_cols_z(
                placement,
                c,
                dirt,
                grass,
                x,
                z + 1,
            )
        }
    }

    /// The plans of the columns from `x` on, in x-major order.
    pub open spec fn plan_cols_x(
        self,
        placement: Seq<Seq<i64>>,
        c: Chunk,
        dirt: u32,
        grass: u32,
        x: int,
    ) -> Seq<(Vec3i, u32)>
        decreases c.spec_max().0 - x,
    {
        if x < c.spec_min().0 || x >= c.spec_max().0 {
            Seq::empty()
        } else {
            self.plan_cols_z(placement, c, dirt, grass, x, c.spec_min().2 as int)
                + self.plan_cols_x(placement, c, dirt, grass, x + 1)
        }
    }

    /// The stage's whole planting plan for a chunk, decided against the
    /// chunk as it stands before any write.
    pub open spec fn plan_spec(
        self,
        placement: Seq<Seq<i64>>,
        c: Chunk,
        dirt: u32,
        grass: u32,
    ) -> Seq<(Vec3i, u32)> {
        self.plan_cols_x(placement, c, dirt, grass, c.spec_min().0 as int)
    }

    /// An empty stage.
    pub fn new() -> (r: TreeStage)
        ensures
            r.wf(),
            r.spec_all_trees() =~= Seq::<(Trees, Seq<char>)>::empty(),
    {
        TreeStage { all_trees: Vec::new() }
    }

    /// Adds a registry and the tree type it plants.
    pub fn with(self, trees: Trees, tree_type: &str) -> (r: TreeStage)
        requires
            trees.wf(),
            trees.has_tree(tree_type@),
        ensures
            r.spec_all_trees() == self.spec_all_trees().push((trees, tree_type@)),
            self.wf() ==> r.wf(),
    {
        let mut all_trees = self.all_trees;
        all_trees.push((trees, tree_type.to_owned()));
        let r = TreeStage { all_trees };
        proof {
            assert(r.spec_all_trees() =~= self.spec_all_trees().push((trees, tree_type@)));
        }
        r
    }

    /// Computes the stage's planting plan for a chunk without touching
    /// it: for each column whose top voxel holds the registry's "Dirt" or
    /// "Grass Block", each tree registry in registration order whose raw
    /// placement sample meets its threshold contributes its tree's writes,
    /// rooted at the column's surface. `placement` holds one raw sample
    /// grid per registry, in x-major order over the chunk's horizontal
    /// footprint.
    pub fn plan(
        &self,
        chunk: &Chunk,
        registry: &BlockRegistry,
        placement: &Vec<Vec<i64>>,
    ) -> (r: Vec<(Vec3i, u32)>)
        requires
            chunk.wf(),
            self.wf(),
            registry.has_block("Dirt"@),
            registry.has_block("Grass Block"@),
            placement@.len() == self.spec_all_trees().len(),
            forall|i: int|
                0 <= i < placement@.len() ==> (#[trigger] placement@[i])@.len() == chunk.size_x()
                    * chunk.size_z(),
        ensures
            r@ == self.plan_spec(
                grids_view(placement@),
                *chunk,
                first_block_id(registry.spec_blocks(), "Dirt"@).unwrap(),
                first_block_id(registry.spec_blocks(), "Grass Block"@).unwrap(),
            ),
    {
        let dirt = match registry.get_block_by_name("Dirt") {
            Some(b) => b.id,
            None => {
                proof {
                    assert(false);
                }
                unreached()
            },
        };
        let grass = match registry.get_block_by_name("Grass Block") {
            Some(b) => b.id,
            None => {
                proof {
                    assert(false);
                }
                unreached()
            },
        };
        let min = chunk.min();
        let max = chunk.max();
        let sz = max.2 as i128 - min.2 as i128;
        let ghost gplace = grids_view(placement@);
        let ghost full = self.plan_spec(gplace, *chunk, dirt, grass);
        let mut out: Vec<(Vec3i, u32)> = Vec::new();
        let mut vx = min.0;
        proof {
            assert(full =~= out@ + self.plan_cols_x(gplace, *chunk, dirt, grass, vx as int));
        }
        while vx < max.0
            invariant
                chunk.wf(),
                self.wf(),
                min == chunk.spec_min(),
                max == chunk.spec_max(),
                sz == chunk.size_z(),
                gplace == grids_view(placement@),
                placement@.len() == self.spec_all_trees().len(),
                forall|i: int|
                    0 <= i < placement@.len() ==> (#[trigger] placement@[i])@.len()
                        == chunk.size_x() * chunk.size_z(),
                full == self.plan_spec(gplace, *chunk, dirt, grass),
                min.0 <= vx <= max.0,
                full == out@ + self.plan_cols_x(gplace, *chunk, dirt, grass, vx as int),
            decreases max.0 - vx,
        {
            let mut vz = min.2;
            proof {
                assert(self.plan_cols_x(gplace, *chunk, dirt, grass, vx as int)
                    == self.plan_cols_z(gplace, *chunk, dirt, grass, vx as int, min.2 as int)
                    + self.plan_cols_x(gplace, *chunk, dirt, grass, vx as int + 1));
                assert(out@ + (self.plan_cols_z(gplace, *chunk, dirt, grass, vx as int, min.2 as int)
                    + self.plan_cols_x(gplace, *chunk, dirt, grass, vx as int + 1)) =~= out@
                    + self.plan_cols_z(gplace, *chunk, dirt, grass, vx as int, min.2 as int)
                    + self.plan_cols_x(gplace, *chunk, dirt, grass, vx as int + 1));
            }
            while vz < max.2
                invariant
                    chunk.wf(),
                    self.wf(),
                    min == chunk.spec_min(),
                    max == chunk.spec_max(),
                    sz == chunk.size_z(),
                    gplace == grids_view(placement@),
                    placement@.len() == self.spec_all_trees().len(),
                    forall|i: int|
                        0 <= i < placement@.len() ==> (#[trigger] placement@[i])@.len()
                            == chunk.size_x() * chunk.size_z(),
                    min.0 <= vx < max.0,
                    min.2 <= vz <= max.2,
                    full == out@ + self.plan_cols_z(gplace, *chunk, dirt, grass, vx as int, vz as int)
                        + self.plan_cols_x(gplace, *chunk, dirt, grass, vx as int + 1),
                decreases max.2 - vz,
            {
                let ghost col_plan = self.plan_column(gplace, *chunk, dirt, grass, vx as int, vz as int);
                let ghost rest = self.plan_cols_z(gplace, *chunk, dirt, grass, vx as int, vz as int + 1)
                    + self.plan_cols_x(gplace, *chunk, dirt, grass, vx as int + 1);
                proof {
                    assert(self.plan_cols_z(gplace, *chunk, dirt, grass, vx as int, vz as int)
                        == col_plan + self.plan_cols_z(gplace, *chunk, dirt, grass, vx as int, vz as int + 1));
                    assert(full =~= out@ + col_plan + rest);
                }
                if min.1 < max.1 {
                    let height = chunk.get_max_height(vx, vz);
                    let id = chunk.get_voxel(vx, height, vz);
                    if id == dirt || id == grass {
                        proof {
                            assert(col_plan == self.plan_trees(
                                gplace,
                                *chunk,
                                vx as int,
                                vz as int,
                                height as int,
                                0,
                            ));
                        }
                        let mut ti: usize = 0;
                        let n_trees = self.all_trees.len();
                        while ti < n_trees
                            invariant
                                chunk.wf(),
                                self.wf(),
                                min == chunk.spec_min(),
                                max == chunk.spec_max(),
                                sz == chunk.size_z(),
                                gplace == grids_view(placement@),
                                placement@.len() == self.spec_all_trees().len(),
                                n_trees == self.spec_all_trees().len(),
                                forall|i: int|
                                    0 <= i < placement@.len() ==> (#[trigger] placement@[i])@.len()
                                        == chunk.size_x() * chunk.size_z(),
                                min.0 <= vx < max.0,
                                min.2 <= vz < max.2,
                                ti <= n_trees,
                                full == out@ + self.plan_trees(
                                    gplace,
                                    *chunk,
                                    vx as int,
                                    vz as int,
                                    height as int,
                                    ti as int,
                                ) + rest,
                            decreases n_trees - ti,
                        {
                            let ghost tail_plan = self.plan_trees(
                                gplace,
                                *chunk,
                                vx as int,
                                vz as int,
                                height as int,
                                ti as int + 1,
                            );
                            let samples = &placement[ti];
                            let slen = samples.len();
                            let xr = vx as i128 - min.0 as i128;
                            let zr = vz as i128 - min.2 as i128;
                            proof {
                                assert(-0x40000000000000000 <= xr * sz && xr * sz
                                    <= 0x40000000000000000) by (nonlinear_arith)
                                    requires
                                        -0x200000000 <= xr <= 0x200000000,
                                        -0x200000000 <= sz <= 0x200000000,
                                ;
                                assert(0 <= xr * sz + zr && xr * sz + zr < (max.0 - min.0) * sz)
                                    by (nonlinear_arith)
                                    requires
                                        0 <= xr && xr < max.0 - min.0,
                                        0 <= zr < sz,
                                ;
                                assert((max.0 - min.0) * sz == chunk.size_x() * chunk.size_z());
                                assert(xr * sz + zr < slen);
                            }
                            let ci = (xr * sz + zr) as usize;
                            proof {
                                assert(xr == vx - min.0 && zr == vz - min.2);
                                assert(xr * sz == (vx - min.0) * sz) by (nonlinear_arith)
                                    requires
                                        xr == vx - min.0,
                                ;
                                assert(ci == (vx - min.0) * chunk.size_z() + (vz - min.2));
                                assert(gplace[ti as int] == samples@);
                            }
                            let raw = samples[ci];
                            let trees = &self.all_trees[ti].0;
                            if trees.should_plant(raw) {
                                let mut writes = trees.generate(
                                    self.all_trees[ti].1.as_str(),
                                    Vec3i(vx, height, vz),
                                );
                                out.append(&mut writes);
                                proof {
                                    assert(full =~= out@ + tail_plan + rest);
                                }
                            } else {
                                proof {
                                    assert(full =~= out@ + tail_plan + rest);
                                }
                            }
                            ti = ti + 1;
                        }
                        proof {
                            assert(self.plan_trees(
                                gplace,
                                *chunk,
                                vx as int,
                                vz as int,
                                height as int,
                                n_trees as int,
                            ) =~= Seq::<(Vec3i, u32)>::empty());
                            assert(full =~= out@ + self.plan_cols_z(
                                gplace,
                                *chunk,
                                dirt,
                                grass,
                                vx as int,
                                vz as int + 1,
                            ) + self.plan_cols_x(gplace, *chunk, dirt, grass, vx as int + 1));
                        }
                    } else {
                        proof {
                            assert(col_plan =~= Seq::<(Vec3i, u32)>::empty());
                            assert(full =~= out@ + self.plan_cols_z(
                                gplace,
                                *chunk,
                                dirt,
                                grass,
                                vx as int,
                                vz as int + 1,
                            ) + self.plan_cols_x(gplace, *chunk, dirt, grass, vx as int + 1));
                        }
                    }
                } else {
                    proof {
                        assert(col_plan =~= Seq::<(Vec3i, u32)>::empty());
                        assert(full =~= out@ + self.plan_cols_z(
                            gplace,
                            *chunk,
                            dirt,
                            grass,
                            vx as int,
                            vz as int + 1,
                        ) + self.plan_cols_x(gplace, *chunk, dirt, grass, vx as int + 1));
                    }
                }
                vz = vz + 1;
            }
            proof {
                assert(self.plan_cols_z(gplace, *chunk, dirt, grass, vx as int, max.2 as int)
                    =~= Seq::<(Vec3i, u32)>::empty());
                assert(full =~= out@ + self.plan_cols_x(gplace, *chunk, dirt, grass, vx as int + 1));
            }
            vx = vx + 1;
        }
        proof {
            assert(self.plan_cols_x(gplace, *chunk, dirt, grass, max.0 as int)
                =~= Seq::<(Vec3i, u32)>::empty());
            assert(out@ =~= full);
        }
        out
    }

    /// Plants the trees over one chunk: computes the plan against the
    /// chunk as given, then applies every in-bounds write in order.
    /// Afterward each cell holds exactly what the plan's in-order
    /// application leaves there — the last write naming the cell, or the
    /// cell's previous voxel — so columns the plan never names are
    /// untouched.
    pub fn process(
        &self,
        chunk: &mut Chunk,
        registry: &BlockRegistry,
        placement: &Vec<Vec<i64>>,
    )
        requires
            old(chunk).wf(),
            self.wf(),
            registry.has_block("Dirt"@),
            registry.has_block("Grass Block"@),
            placement@.len() == self.spec_all_trees().len(),
            forall|i: int|
                0 <= i < placement@.len() ==> (#[trigger] placement@[i])@.len() == old(
                    chunk,
                ).size_x() * old(chunk).size_z(),
        ensures
            final(chunk).wf(),
            final(chunk).spec_min() == old(chunk).spec_min(),
            final(chunk).spec_max() == old(chunk).spec_max(),
            forall|x: int, y: int, z: int|
                final(chunk).contains(x, y, z) ==> final(chunk).voxel(x, y, z) == cell_result(
                    *old(chunk),
                    self.plan_spec(
                        grids_view(placement@),
                        *old(chunk),
                        first_block_id(registry.spec_blocks(), "Dirt"@).unwrap(),
                        first_block_id(registry.spec_blocks(), "Grass Block"@).unwrap(),
                    ),
                    x,
                    y,
                    z,
                ),
    {
        let writes = self.plan(&*chunk, registry, placement);
        let ghost gplan = writes@;
        let n = writes.len();
        let mut k: usize = 0;
        proof {
            assert(gplan.take(0) =~= Seq::<(Vec3i, u32)>::empty());
        }
        while k < n
            invariant
                chunk.wf(),
                chunk.spec_min() == old(chunk).spec_min(),
                chunk.spec_max() == old(chunk).spec_max(),
                n == writes@.len(),
                gplan == writes@,
                k <= n,
                forall|x: int, y: int, z: int|
                    chunk.contains(x, y, z) ==> chunk.voxel(x, y, z) == cell_result(
                        *old(chunk),
                        gplan.take(k as int),
                        x,
                        y,
                        z,
                    ),
            decreases n - k,
        {
            let w = writes[k].0;
            let wid = writes[k].1;
            if chunk.contains_voxel(w.0, w.1, w.2) {
                chunk.set_voxel(w.0, w.1, w.2, wid);
            }
            proof {
                let pre = gplan.take(k as int);
                let post = gplan.take(k as int + 1);
                assert(post.drop_last() =~= pre);
                assert(post.last() == gplan[k as int]);
            }
            k = k + 1;
        }
        proof {
            assert(gplan.take(n as int) =~= gplan);
        }
    }
}

} // verus!
