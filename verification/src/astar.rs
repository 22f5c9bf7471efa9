//! Voxel-aware A* path search.
//!
//! The search graph is implicit in a voxel region: an agent of a given
//! height stands on a solid voxel and moves to one of four cardinal or four
//! diagonal neighbor columns, stepping across (cost 1 cardinal, 2 diagonal),
//! up one level (cost 2 / 3) or down one level (cost 2 / 3); diagonal moves
//! additionally need both adjacent cardinal cells clear, so no path cuts
//! through a solid corner. Expansion is capped by a node budget: when the
//! budget runs out no further successors are generated and the search
//! degrades to "no path", which bounds per-tick latency by design.
//!
//! A returned path is proved valid: consecutive nodes are linked by the
//! successor relation and the step costs sum to the returned cost. A
//! search that drains its open list without ever hitting the budget has
//! seen everything reachable, so its "no path" answer is proved complete;
//! only a budget-exhausted "no path" promises nothing more.

use vstd::prelude::*;

use crate::chunk::{Chunk, AIR};
use crate::fixed::int_sqrt;

verus! {

/// Node-expansion budget of one search, bounding per-tick latency.
pub const MAX_DEPTH_SEARCH: u32 = 2048;

/// Magnitude bound on searchable coordinates: the search is confined to
/// this cube, far beyond any world's extent.
pub const COORD_LIMIT: i32 = 0x4000_0000;

/// Tallest agent the walkability test accepts, in voxels.
pub const MAX_AGENT_HEIGHT: u32 = 64;

/// An integer voxel coordinate triple, used both as search-graph vertex and
/// as published waypoint.
#[derive(Clone, Copy, Debug, PartialEq, Eq, Hash, Structural)]
pub struct PathNode(pub i32, pub i32, pub i32);

/// Whether a coordinate triple lies in the searchable cube.
pub open spec fn in_cube(x: int, y: int, z: int) -> bool {
    &&& -COORD_LIMIT <= x <= COORD_LIMIT
    &&& -COORD_LIMIT <= y <= COORD_LIMIT
    &&& -COORD_LIMIT <= z <= COORD_LIMIT
}

/// Whether a node lies in the searchable cube.
pub open spec fn node_in_cube(n: PathNode) -> bool {
    in_cube(n.0 as int, n.1 as int, n.2 as int)
}

/// A solid (non-air) voxel; everything outside the region is air.
pub open spec fn solid_at(c: Chunk, x: int, y: int, z: int) -> bool {
    c.contains(x, y, z) && c.voxel(x, y, z) != AIR
}

/// A column an agent of height `h` can stand in: the cell itself and the
/// `h` cells above it are clear, and the cell below is solid.
pub open spec fn walkable(c: Chunk, h: u32, x: int, y: int, z: int) -> bool {
    &&& !solid_at(c, x, y, z)
    &&& forall|i: int| 1 <= i <= h ==> !(#[trigger] solid_at(c, x, y + i, z))
    &&& solid_at(c, x, y - 1, z)
}

/// Clearance to rise one level out of the cell at `(x, y, z)`: the `h + 1`
/// cells above it are clear.
pub open spec fn headroom(c: Chunk, h: u32, x: int, y: int, z: int) -> bool {
    forall|i: int| 1 <= i <= h + 1 ==> !(#[trigger] solid_at(c, x, y + i, z))
}

/// A node from in-cube integer coordinates.
pub open spec fn mk_node(x: int, y: int, z: int) -> PathNode
    recommends
        in_cube(x, y, z),
{
    PathNode(x as i32, y as i32, z as i32)
}

/// The move one cardinal direction offers, in priority order: step across
/// (cost 1), step up (cost 2, needing headroom above the source), step down
/// (cost 2); `None` when the direction is blocked. Only in-cube targets are
/// offered.
pub open spec fn cardinal_case(c: Chunk, h: u32, n: PathNode, dx: int, dz: int) -> Option<
    (PathNode, u32),
> {
    let x = n.0 as int;
    let y = n.1 as int;
    let z = n.2 as int;
    if in_cube(x + dx, y, z + dz) && walkable(c, h, x + dx, y, z + dz) {
        Some((mk_node(x + dx, y, z + dz), 1u32))
    } else if in_cube(x + dx, y + 1, z + dz) && walkable(c, h, x + dx, y + 1, z + dz) && headroom(
        c,
        h,
        x,
        y,
        z,
    ) {
        Some((mk_node(x + dx, y + 1, z + dz), 2u32))
    } else if in_cube(x + dx, y - 1, z + dz) && walkable(c, h, x + dx, y - 1, z + dz) {
        Some((mk_node(x + dx, y - 1, z + dz), 2u32))
    } else {
        None
    }
}

/// The move one diagonal direction offers: as the cardinal cases with costs
/// 2 / 3 / 3, each additionally requiring both adjacent cardinal cells
/// clear at the relevant level.
pub open spec fn diagonal_case(c: Chunk, h: u32, n: PathNode, dx: int, dz: int) -> Option<
    (PathNode, u32),
> {
    let x = n.0 as int;
    let y = n.1 as int;
    let z = n.2 as int;
    let corner_same = !solid_at(c, x + dx, y, z) && !solid_at(c, x, y, z + dz);
    let corner_up = !solid_at(c, x + dx, y + 1, z) && !solid_at(c, x, y + 1, z + dz);
    if in_cube(x + dx, y, z + dz) && walkable(c, h, x + dx, y, z + dz) && corner_same {
        Some((mk_node(x + dx, y, z + dz), 2u32))
    } else if in_cube(x + dx, y + 1, z + dz) && walkable(c, h, x + dx, y + 1, z + dz) && headroom(
        c,
        h,
        x,
        y,
        z,
    ) && corner_up {
        Some((mk_node(x + dx, y + 1, z + dz), 3u32))
    } else if in_cube(x + dx, y - 1, z + dz) && walkable(c, h, x + dx, y - 1, z + dz)
        && corner_same {
        Some((mk_node(x + dx, y - 1, z + dz), 3u32))
    } else {
        None
    }
}

/// An optional move as a zero- or one-element sequence.
pub open spec fn case_seq(o: Option<(PathNode, u32)>) -> Seq<(PathNode, u32)> {
    match o {
        Some(p) => seq![p],
        None => Seq::empty(),
    }
}

/// Every move an agent may take from `n`, in fixed order: the four cardinal
/// directions `+x, -x, +z, -z`, then the four diagonals `+x+z, +x-z, -x+z,
/// -x-z`.
pub open spec fn successors_spec(c: Chunk, h: u32, n: PathNode) -> Seq<(PathNode, u32)> {
    case_seq(cardinal_case(c, h, n, 1, 0)) + case_seq(cardinal_case(c, h, n, -1, 0)) + case_seq(
        cardinal_case(c, h, n, 0, 1),
    ) + case_seq(cardinal_case(c, h, n, 0, -1)) + case_seq(diagonal_case(c, h, n, 1, 1))
        + case_seq(diagonal_case(c, h, n, 1, -1)) + case_seq(diagonal_case(c, h, n, -1, 1))
        + case_seq(diagonal_case(c, h, n, -1, -1))
}

/// A waypoint sequence is a valid path of the given total cost: it is
/// non-empty, and each node is linked to the next by the successor
/// relation, the step costs summing to the total.
pub open spec fn path_ok(c: Chunk, h: u32, nodes: Seq<PathNode>, total: int) -> bool
    decreases nodes.len(),
{
    if nodes.len() == 0 {
        false
    } else if nodes.len() == 1 {
        total == 0
    } else {
        exists|cost: u32|
            #[trigger] successors_spec(c, h, nodes[0]).contains((nodes[1], cost)) && path_ok(
                c,
                h,
                nodes.drop_first(),
                total - cost,
            )
    }
}

/// Squared Euclidean distance between nodes.
pub open spec fn node_dist2(a: PathNode, b: PathNode) -> int {
    (a.0 - b.0) * (a.0 - b.0) + (a.1 - b.1) * (a.1 - b.1) + (a.2 - b.2) * (a.2 - b.2)
}

impl PathNode {
    /// Euclidean distance to `o`, rounded down.
    pub fn distance(&self, o: &PathNode) -> (r: u64)
        requires
            node_in_cube(*self),
            node_in_cube(*o),
        ensures
            r * r <= node_dist2(*self, *o) < (r + 1) * (r + 1),
    {
        let dx = self.0 as i64 - o.0 as i64;
        let dy = self.1 as i64 - o.1 as i64;
        let dz = self.2 as i64 - o.2 as i64;
        proof {
            assert(0 <= dx * dx <= 0x4000000000000000 && 0 <= dy * dy <= 0x4000000000000000 && 0
                <= dz * dz <= 0x4000000000000000) by (nonlinear_arith)
                requires
                    -0x80000000 <= dx <= 0x80000000,
                    -0x80000000 <= dy <= 0x80000000,
                    -0x80000000 <= dz <= 0x80000000,
            ;
        }
        let d2 = (dx * dx) as u64 + (dy * dy) as u64 + (dz * dz) as u64;
        int_sqrt(d2)
    }
}

/// One entry of the search arena: a reached node, the arena index of the
/// node it was reached from, the cost of that step, and the total cost from
/// the start.
struct ArenaEntry {
    node: PathNode,
    parent: usize,
    step_cost: u32,
    g: u32,
}

/// The arena is well formed up to its length: the root is the start with
/// zero cost, every later entry points to an earlier parent and is a
/// successor of it, all nodes lie in the searchable cube, and costs grow by
/// the step cost.
spec fn arena_wf(c: Chunk, h: u32, arena: Seq<ArenaEntry>, start: PathNode) -> bool {
    &&& arena.len() >= 1
    &&& arena[0].node == start
    &&& arena[0].g == 0
    &&& forall|i: int| 0 <= i < arena.len() ==> node_in_cube((#[trigger] arena[i]).node)
    &&& forall|i: int|
        1 <= i < arena.len() ==> {
            &&& (#[trigger] arena[i]).parent < i
            &&& successors_spec(c, h, arena[arena[i].parent as int].node).contains(
                (arena[i].node, arena[i].step_cost),
            )
            &&& arena[i].g == arena[arena[i].parent as int].g + arena[i].step_cost
            &&& arena[i].g <= 3 * i
        }
}

/// Some entry of the seen list carries node `n`.
pub open spec fn in_seen(seen: Seq<(PathNode, u32)>, n: PathNode) -> bool {
    exists|k: int| 0 <= k < seen.len() && (#[trigger] seen[k]).0 == n
}

/// Every successor of `n` has been seen.
#[verifier::opaque]
spec fn node_closed(c: Chunk, h: u32, seen: Seq<(PathNode, u32)>, n: PathNode) -> bool {
    forall|k: int|
        0 <= k < successors_spec(c, h, n).len() ==> in_seen(
            seen,
            (#[trigger] successors_spec(c, h, n)[k]).0,
        )
}

/// A seen node is accounted for: it still waits in the open list, or it was
/// expanded (and is not the goal, whose pop would have ended the search).
#[verifier::opaque]
spec fn covered_by_search(
    c: Chunk,
    h: u32,
    goal: PathNode,
    seen: Seq<(PathNode, u32)>,
    arena: Seq<ArenaEntry>,
    open: Seq<(usize, u64)>,
    n: PathNode,
) -> bool {
    (exists|k: int|
        0 <= k < open.len() && arena[(#[trigger] open[k]).0 as int].node == n) || (n != goal
        && node_closed(c, h, seen, n))
}

/// Entry `k0` of `before` still stands somewhere in `after`.
spec fn entry_preserved(before: Seq<(usize, u64)>, after: Seq<(usize, u64)>, k0: int) -> bool {
    exists|k1: int| 0 <= k1 < after.len() && after[k1] == before[k0]
}

/// The entry is one of the list's.
spec fn entry_among(entry: (usize, u64), list: Seq<(usize, u64)>) -> bool {
    exists|k0: int| 0 <= k0 < list.len() && list[k0] == entry
}

/// A valid path from `start` to `goal` exists.
pub open spec fn path_exists(c: Chunk, h: u32, start: PathNode, goal: PathNode) -> bool {
    exists|nodes: Seq<PathNode>, cost: u32|
        #![trigger path_ok(c, h, nodes, cost as int)]
        path_ok(c, h, nodes, cost as int) && nodes.len() >= 1 && nodes[0] == start
            && nodes.last() == goal
}

/// A longer seen list still carries everything a prefix of it carries.
proof fn lemma_in_seen_extends(s1: Seq<(PathNode, u32)>, s2: Seq<(PathNode, u32)>, n: PathNode)
    requires
        s1.len() <= s2.len(),
        forall|k: int| 0 <= k < s1.len() ==> s2[k] == #[trigger] s1[k],
        in_seen(s1, n),
    ensures
        in_seen(s2, n),
{
    let k = choose|k: int| 0 <= k < s1.len() && (#[trigger] s1[k]).0 == n;
    assert((s2[k]).0 == n);
}

/// Any path starting inside a successor-closed, goal-free seen set stays
/// inside it, so it cannot end at the goal.
proof fn lemma_closed_seen_blocks_paths(
    c: Chunk,
    h: u32,
    goal: PathNode,
    seen: Seq<(PathNode, u32)>,
    nodes: Seq<PathNode>,
    cost: int,
)
    requires
        path_ok(c, h, nodes, cost),
        in_seen(seen, nodes[0]),
        forall|n: PathNode| #[trigger] in_seen(seen, n) ==> n != goal && node_closed(c, h, seen, n),
    ensures
        nodes.last() != goal,
    decreases nodes.len(),
{
    reveal(node_closed);
    if nodes.len() == 1 {
    } else {
        let cost0 = choose|cost0: u32|
            #[trigger] successors_spec(c, h, nodes[0]).contains((nodes[1], cost0)) && path_ok(
                c,
                h,
                nodes.drop_first(),
                cost - cost0,
            );
        assert(in_seen(seen, nodes[1])) by {
            let k = choose|k: int|
                0 <= k < successors_spec(c, h, nodes[0]).len() && successors_spec(
                    c,
                    h,
                    nodes[0],
                )[k] == (nodes[1], cost0);
            assert(node_closed(c, h, seen, nodes[0]));
            assert(in_seen(seen, (successors_spec(c, h, nodes[0])[k]).0));
        }
        assert(nodes.drop_first()[0] == nodes[1]);
        lemma_closed_seen_blocks_paths(c, h, goal, seen, nodes.drop_first(), cost - cost0);
        assert(nodes.drop_first().last() == nodes.last());
    }
}

/// Once the open list drains with the budget intact, the seen set is
/// successor-closed and goal-free, so no path can exist.
proof fn lemma_no_path_on_drain(
    c: Chunk,
    h: u32,
    start: PathNode,
    goal: PathNode,
    seen: Seq<(PathNode, u32)>,
    arena: Seq<ArenaEntry>,
    open: Seq<(usize, u64)>,
)
    requires
        open.len() == 0,
        in_seen(seen, start),
        forall|n: PathNode|
            #[trigger] in_seen(seen, n) ==> covered_by_search(c, h, goal, seen, arena, open, n),
    ensures
        !path_exists(c, h, start, goal),
{
    reveal(node_closed);
    reveal(covered_by_search);
    if path_exists(c, h, start, goal) {
        let (nodes, cost) = choose|nodes: Seq<PathNode>, cost: u32|
            #![trigger path_ok(c, h, nodes, cost as int)]
            path_ok(c, h, nodes, cost as int) && nodes.len() >= 1 && nodes[0] == start
                && nodes.last() == goal;
        assert forall|n: PathNode| #[trigger] in_seen(seen, n) implies n != goal && node_closed(
            c,
            h,
            seen,
            n,
        ) by {
            assert(covered_by_search(c, h, goal, seen, arena, open, n));
        }
        lemma_closed_seen_blocks_paths(c, h, goal, seen, nodes, cost as int);
        assert(false);
    }
}

/// After one node is popped and fully expanded, every seen node is covered
/// again: the expanded node is now successor-closed, the others keep their
/// open entries (relocated by the swap-remove) or their closedness, and
/// newly adopted nodes carry their own fresh entries.
proof fn lemma_restore_coverage(
    c: Chunk,
    h: u32,
    goal: PathNode,
    seen_before: Seq<(PathNode, u32)>,
    seen_now: Seq<(PathNode, u32)>,
    arena_before: Seq<ArenaEntry>,
    arena_now: Seq<ArenaEntry>,
    open_before: Seq<(usize, u64)>,
    open_mid: Seq<(usize, u64)>,
    open_now: Seq<(usize, u64)>,
    best: int,
    idx: int,
    current: PathNode,
    succs: Seq<(PathNode, u32)>,
)
    requires
        forall|n: PathNode|
            #[trigger] in_seen(seen_before, n) ==> covered_by_search(
                c,
                h,
                goal,
                seen_before,
                arena_before,
                open_before,
                n,
            ),
        0 <= best < open_before.len(),
        forall|k0: int|
            0 <= k0 < open_before.len() && k0 != best ==> #[trigger] entry_preserved(
                open_before,
                open_mid,
                k0,
            ),
        (open_before[best]).0 == idx,
        0 <= idx < arena_before.len(),
        arena_before[idx].node == current,
        current != goal,
        forall|k: int|
            0 <= k < open_before.len() ==> (#[trigger] open_before[k]).0 < arena_before.len(),
        seen_before.len() <= seen_now.len(),
        forall|k: int| 0 <= k < seen_before.len() ==> seen_now[k] == #[trigger] seen_before[k],
        arena_before.len() <= arena_now.len(),
        forall|i: int| 0 <= i < arena_before.len() ==> arena_now[i] == #[trigger] arena_before[i],
        open_mid.len() <= open_now.len(),
        forall|k: int| 0 <= k < open_mid.len() ==> open_now[k] == #[trigger] open_mid[k],
        succs == successors_spec(c, h, current),
        forall|k: int| 0 <= k < succs.len() ==> in_seen(seen_now, (#[trigger] succs[k]).0),
        forall|n: PathNode|
            #![trigger in_seen(seen_before, n)]
            in_seen(seen_now, n) && !in_seen(seen_before, n) ==> exists|k: int|
                open_mid.len() <= k < open_now.len() && arena_now[(#[trigger] open_now[k]).0
                    as int].node == n,
    ensures
        forall|n: PathNode|
            #[trigger] in_seen(seen_now, n) ==> covered_by_search(
                c,
                h,
                goal,
                seen_now,
                arena_now,
                open_now,
                n,
            ),
{
    reveal(node_closed);
    reveal(covered_by_search);
    assert forall|n: PathNode| #[trigger] in_seen(seen_now, n) implies covered_by_search(
        c,
        h,
        goal,
        seen_now,
        arena_now,
        open_now,
        n,
    ) by {
        if in_seen(seen_before, n) {
            assert(covered_by_search(c, h, goal, seen_before, arena_before, open_before, n));
            if exists|k: int|
                0 <= k < open_before.len() && arena_before[(#[trigger] open_before[k]).0
                    as int].node == n {
                let k0 = choose|k: int|
                    0 <= k < open_before.len() && arena_before[(#[trigger] open_before[k]).0
                        as int].node == n;
                if k0 == best {
                    assert(n == current);
                    assert(node_closed(c, h, seen_now, current)) by {
                        assert forall|k2: int|
                            0 <= k2 < successors_spec(c, h, current).len() implies in_seen(
                            seen_now,
                            (#[trigger] successors_spec(c, h, current)[k2]).0,
                        ) by {
                            assert(in_seen(seen_now, (succs[k2]).0));
                        }
                    }
                } else {
                    assert(entry_preserved(open_before, open_mid, k0));
                    let k1 = choose|k1: int|
                        0 <= k1 < open_mid.len() && open_mid[k1] == open_before[k0];
                    assert(open_now[k1] == open_before[k0]);
                    assert(arena_now[(open_now[k1]).0 as int].node == n);
                }
            } else {
                assert(n != goal);
                assert(node_closed(c, h, seen_now, n)) by {
                    assert forall|k2: int|
                        0 <= k2 < successors_spec(c, h, n).len() implies in_seen(
                        seen_now,
                        (#[trigger] successors_spec(c, h, n)[k2]).0,
                    ) by {
                        lemma_in_seen_extends(
                            seen_before,
                            seen_now,
                            (successors_spec(c, h, n)[k2]).0,
                        );
                    }
                }
            }
        }
    }
}

/// Voxel-aware A* search.
pub struct AStar;

impl AStar {
    /// Removes and returns a least-priority open entry's arena index, by
    /// swapping the tail entry into its place, together with the removed
    /// position. Every other entry survives.
    fn pop_best(open: &mut Vec<(usize, u64)>) -> (r: (usize, Ghost<int>))
        requires
            old(open)@.len() >= 1,
        ensures
            final(open)@.len() == old(open)@.len() - 1,
            0 <= r.1@ < old(open)@.len(),
            (old(open)@[r.1@]).0 == r.0,
            forall|k0: int|
                0 <= k0 < old(open)@.len() && k0 != r.1@ ==> #[trigger] entry_preserved(
                    old(open)@,
                    final(open)@,
                    k0,
                ),
            forall|k1: int|
                0 <= k1 < final(open)@.len() ==> entry_among(
                    #[trigger] final(open)@[k1],
                    old(open)@,
                ),
    {
        let mut best: usize = 0;
        let mut bi: usize = 1;
        let n = open.len();
        while bi < n
            invariant
                n == open@.len(),
                n >= 1,
                bi <= n,
                best < n,
            decreases n - bi,
        {
            if open[bi].1 < open[best].1 {
                best = bi;
            }
            bi = bi + 1;
        }
        let ghost open_before = open@;
        let (idx, _pri) = open[best];
        let last = open.len() - 1;
        let tail_entry = open[last];
        open.set(best, tail_entry);
        open.pop();
        proof {
            assert forall|k0: int|
                0 <= k0 < open_before.len() && k0 != best implies #[trigger] entry_preserved(
                open_before,
                open@,
                k0,
            ) by {
                if k0 == open_before.len() - 1 {
                    assert(open@[best as int] == open_before[k0]);
                } else {
                    assert(open@[k0] == open_before[k0]);
                }
            }
            assert forall|k1: int| 0 <= k1 < open@.len() implies entry_among(
                #[trigger] open@[k1],
                open_before,
            ) by {
                if k1 == best && best < open@.len() {
                    assert(open@[k1] == open_before[open_before.len() - 1]);
                } else {
                    assert(open@[k1] == open_before[k1]);
                }
            }
            assert((open_before[best as int]).0 == idx);
        }
        (idx, Ghost(best as int))
    }

    /// Searches for a path from `start` to `goal` for an agent of the given
    /// height, expanding at most `max_visits` nodes. Returns the result and
    /// whether the expansion budget was ever exhausted.
    ///
    /// A `Some((nodes, cost))` result is a proved-valid path: it begins at
    /// `start`, ends at `goal`, every consecutive pair is linked by the
    /// voxel successor relation, and the step costs sum to `cost`. When
    /// `start == goal` the result is that single node with cost zero. A
    /// `None` result with the budget never exhausted is a proved negative:
    /// no valid path from `start` to `goal` exists at all. A `None` with
    /// the budget exhausted is the deliberate degraded outcome that bounds
    /// per-tick latency, and promises nothing more.
    #[verifier::rlimit(100)]
    pub fn calculate(c: &Chunk, height: u32, start: PathNode, goal: PathNode, max_visits: u32) -> (r:
        (Option<(Vec<PathNode>, u32)>, bool))
        requires
            c.wf(),
            node_in_cube(start),
            node_in_cube(goal),
            height <= MAX_AGENT_HEIGHT,
            max_visits <= MAX_DEPTH_SEARCH,
        ensures
            r.0 matches Some(p) ==> {
                &&& p.0@.len() >= 1
                &&& p.0@[0] == start
                &&& p.0@.last() == goal
                &&& path_ok(*c, height, p.0@, p.1 as int)
            },
            start == goal ==> (r.0 matches Some(p) && p.0@ =~= seq![start] && p.1 == 0 && !r.1),
            r.0 is None && !r.1 ==> !path_exists(*c, height, start, goal),
    {
        if start == goal {
            let mut nodes: Vec<PathNode> = Vec::new();
            nodes.push(start);
            return (Some((nodes, 0)), false);
        }
        let mut arena: Vec<ArenaEntry> = Vec::new();
        arena.push(ArenaEntry { node: start, parent: 0, step_cost: 0, g: 0 });
        // Open list of (arena index, priority); seen list of (node, best g).
        let mut open: Vec<(usize, u64)> = Vec::new();
        open.push((0, 0));
        let mut seen: Vec<(PathNode, u32)> = Vec::new();
        seen.push((start, 0));
        let mut expansions: u32 = 0;
        let mut exhausted = false;
        proof {
            assert((seen@[0]).0 == start);
            assert forall|n: PathNode| #[trigger] in_seen(seen@, n) implies covered_by_search(
                *c,
                height,
                goal,
                seen@,
                arena@,
                open@,
                n,
            ) by {
                reveal(covered_by_search);
                let k = choose|k: int| 0 <= k < seen@.len() && (#[trigger] seen@[k]).0 == n;
                assert(n == start);
                assert(arena@[(open@[0]).0 as int].node == n);
            }
        }
        loop
            invariant
                c.wf(),
                node_in_cube(start),
                node_in_cube(goal),
                height <= MAX_AGENT_HEIGHT,
                max_visits <= MAX_DEPTH_SEARCH,
                start != goal,
                arena_wf(*c, height, arena@, start),
                arena@.len() <= 1 + 8 * expansions,
                expansions <= max_visits,
                forall|k: int| 0 <= k < open@.len() ==> (#[trigger] open@[k]).0 < arena@.len(),
                open@.len() <= arena@.len(),
                in_seen(seen@, start),
                !exhausted ==> forall|n: PathNode|
                    #[trigger] in_seen(seen@, n) ==> covered_by_search(
                        *c,
                        height,
                        goal,
                        seen@,
                        arena@,
                        open@,
                        n,
                    ),
            decreases (max_visits - expansions) * 9 + open@.len(),
        {
            if open.len() == 0 {
                proof {
                    if !exhausted {
                        lemma_no_path_on_drain(*c, height, start, goal, seen@, arena@, open@);
                    }
                }
                return (None, exhausted);
            }
            let ghost open_before = open@;
            let ghost seen_before = seen@;
            let ghost arena_before = arena@;
            // Pop the open entry with the least priority.
            let (idx, popped_at) = Self::pop_best(&mut open);
            let ghost open_mid = open@;
            let ghost best = popped_at@;
            proof {
                assert forall|k: int| 0 <= k < open@.len() implies (#[trigger] open@[k]).0
                    < arena@.len() by {
                    assert(entry_among(open@[k], open_before));
                    let k0 = choose|k0: int|
                        0 <= k0 < open_before.len() && open_before[k0] == open@[k];
                }
            }
            let current = arena[idx].node;
            let current_g = arena[idx].g;
            if current == goal {
                return (Some(Self::reconstruct(c, height, &arena, idx, start)), exhausted);
            }
            if expansions >= max_visits {
                exhausted = true;
                continue ;
            }
            expansions = expansions + 1;
            let succs = Self::successors(c, height, current);
            let ghost open_after_pop = open@.len();
            let mut si: usize = 0;
            while si < succs.len()
                invariant
                    c.wf(),
                    node_in_cube(start),
                    node_in_cube(goal),
                    height <= MAX_AGENT_HEIGHT,
                    start != goal,
                    expansions <= max_visits,
                    max_visits <= MAX_DEPTH_SEARCH,
                    expansions >= 1,
                    arena_wf(*c, height, arena@, start),
                    idx < arena@.len(),
                    arena@[idx as int].node == current,
                    arena@[idx as int].g == current_g,
                    succs@.len() <= 8,
                    si <= succs@.len(),
                    forall|k: int|
                        0 <= k < succs@.len() ==> successors_spec(*c, height, current).contains(
                            #[trigger] succs@[k],
                        ) && node_in_cube(succs@[k].0) && 1 <= succs@[k].1 <= 3,
                    arena@.len() <= 1 + 8 * (expansions - 1) + si,
                    current != goal,
                    0 <= best < open_before.len(),
                    (open_before[best]).0 == idx,
                    idx < arena_before.len(),
                    arena_before[idx as int].node == current,
                    forall|k: int|
                        0 <= k < open_before.len() ==> (#[trigger] open_before[k]).0
                            < arena_before.len(),
                    forall|k0: int|
                        0 <= k0 < open_before.len() && k0 != best ==> #[trigger] entry_preserved(
                            open_before,
                            open_mid,
                            k0,
                        ),
                    !exhausted ==> forall|n: PathNode|
                        #[trigger] in_seen(seen_before, n) ==> covered_by_search(
                            *c,
                            height,
                            goal,
                            seen_before,
                            arena_before,
                            open_before,
                            n,
                        ),
                    forall|k: int| 0 <= k < open@.len() ==> (#[trigger] open@[k]).0
                        < arena@.len(),
                    open@.len() <= arena@.len(),
                    open@.len() <= open_after_pop + si,
                    arena_before.len() <= arena@.len(),
                    forall|i: int|
                        0 <= i < arena_before.len() ==> arena@[i] == #[trigger] arena_before[i],
                    seen_before.len() <= seen@.len(),
                    forall|k: int|
                        0 <= k < seen_before.len() ==> seen@[k] == #[trigger] seen_before[k],
                    open_mid.len() <= open@.len(),
                    forall|k: int| 0 <= k < open_mid.len() ==> open@[k] == #[trigger] open_mid[k],
                    forall|k: int| 0 <= k < si ==> in_seen(seen@, (#[trigger] succs@[k]).0),
                    forall|n: PathNode|
                        #![trigger in_seen(seen_before, n)]
                        in_seen(seen@, n) && !in_seen(seen_before, n) ==> exists|k: int|
                            open_mid.len() <= k < open@.len() && arena@[(#[trigger] open@[k]).0
                                as int].node == n,
                decreases succs@.len() - si,
            {
                let snode = succs[si].0;
                let scost = succs[si].1;
                let ghost seen_prev = seen@;
                let ghost open_prev = open@;
                let ghost arena_prev = arena@;
                Self::try_add(c, height, &mut arena, &mut open, &mut seen, idx, snode, scost, goal, start);
                proof {
                    assert forall|k: int| 0 <= k < si + 1 implies in_seen(
                        seen@,
                        (#[trigger] succs@[k]).0,
                    ) by {
                        if k < si {
                            lemma_in_seen_extends(seen_prev, seen@, (succs@[k]).0);
                        }
                    }
                    assert forall|n: PathNode|
                        #![trigger in_seen(seen_before, n)]
                        in_seen(seen@, n) && !in_seen(seen_before, n) implies exists|k: int|
                            open_mid.len() <= k < open@.len() && arena@[(#[trigger] open@[k]).0
                                as int].node == n by {
                        if in_seen(seen_prev, n) {
                            let k0 = choose|k: int|
                                open_mid.len() <= k < open_prev.len() && arena_prev[(
                                #[trigger] open_prev[k]).0 as int].node == n;
                            assert(open@[k0] == open_prev[k0]);
                            assert(arena@[(open@[k0]).0 as int].node == n);
                        } else {
                            // Just adopted: `n` must be this step's node.
                            let ks = choose|k: int|
                                0 <= k < seen@.len() && (#[trigger] seen@[k]).0 == n;
                            assert(seen@.len() == seen_prev.len() + 1);
                            if ks < seen_prev.len() {
                                assert((seen_prev[ks]).0 == n);
                                assert(false);
                            }
                            assert(n == snode);
                            assert((open@.last()).0 == arena_prev.len());
                            assert(arena@[(open@[open@.len() - 1]).0 as int].node == n);
                        }
                    }
                }
                si = si + 1;
            }
            proof {
                if !exhausted {
                    lemma_restore_coverage(
                        *c,
                        height,
                        goal,
                        seen_before,
                        seen@,
                        arena_before,
                        arena@,
                        open_before,
                        open_mid,
                        open@,
                        best,
                        idx as int,
                        current,
                        succs@,
                    );
                }
                assert((max_visits - (expansions - 1)) * 9 == (max_visits - expansions) * 9 + 9)
                    by (nonlinear_arith)
                    requires
                        expansions >= 1,
                ;
            }
        }
    }

    /// Records one candidate move in the search state: unless the node was
    /// already reached at no greater cost, remembers it, links it into the
    /// arena and queues it with its cost-plus-heuristic priority.
    fn try_add(
        c: &Chunk,
        height: u32,
        arena: &mut Vec<ArenaEntry>,
        open: &mut Vec<(usize, u64)>,
        seen: &mut Vec<(PathNode, u32)>,
        idx: usize,
        snode: PathNode,
        scost: u32,
        goal: PathNode,
        start: PathNode,
    )
        requires
            c.wf(),
            height <= MAX_AGENT_HEIGHT,
            arena_wf(*c, height, old(arena)@, start),
            idx < old(arena)@.len(),
            old(arena)@.len() <= 0x100000,
            node_in_cube(snode),
            node_in_cube(goal),
            1 <= scost <= 3,
            successors_spec(*c, height, old(arena)@[idx as int].node).contains((snode, scost)),
            forall|k: int|
                0 <= k < old(open)@.len() ==> (#[trigger] old(open)@[k]).0 < old(arena)@.len(),
        ensures
            arena_wf(*c, height, final(arena)@, start),
            old(arena)@.len() <= final(arena)@.len() <= old(arena)@.len() + 1,
            forall|i: int|
                0 <= i < old(arena)@.len() ==> final(arena)@[i] == #[trigger] old(arena)@[i],
            final(open)@.len() <= old(open)@.len() + (final(arena)@.len() - old(arena)@.len()),
            forall|k: int|
                0 <= k < final(open)@.len() ==> (#[trigger] final(open)@[k]).0
                    < final(arena)@.len(),
            forall|k: int| 0 <= k < old(open)@.len() ==> final(open)@[k] == #[trigger] old(
                open,
            )@[k],
            forall|k: int| 0 <= k < old(seen)@.len() ==> final(seen)@[k] == #[trigger] old(
                seen,
            )@[k],
            old(seen)@.len() <= final(seen)@.len(),
            in_seen(final(seen)@, snode),
            (final(seen)@ == old(seen)@ && final(arena)@ == old(arena)@ && final(open)@ == old(
                open,
            )@) || (final(arena)@.len() == old(arena)@.len() + 1 && final(arena)@.last().node
                == snode && final(open)@.len() == old(open)@.len() + 1
                && (final(open)@.last()).0 == old(arena)@.len() && final(seen)@.len() == old(
                seen,
            )@.len() + 1 && (final(seen)@.last()).0 == snode),
    {
        let tentative = arena[idx].g + scost;
        // Look the node up among the already-seen ones.
        let mut known_better = false;
        let mut ki: usize = 0;
        let n_seen = seen.len();
        while ki < n_seen
            invariant
                ki <= n_seen,
                n_seen == seen@.len(),
                known_better ==> in_seen(seen@, snode),
            decreases n_seen - ki,
        {
            if seen[ki].0 == snode && seen[ki].1 <= tentative {
                known_better = true;
                proof {
                    assert((seen@[ki as int]).0 == snode);
                }
            }
            ki = ki + 1;
        }
        if known_better {
            return ;
        }
        seen.push((snode, tentative));
        let aidx = arena.len();
        proof {
            assert((seen@.last()).0 == snode);
            if idx > 0 {
                assert(arena@[idx as int].g <= 3 * idx);
            }
            assert(3 * idx + 3 <= 3 * aidx) by (nonlinear_arith)
                requires
                    idx < aidx,
            ;
        }
        let ghost arena_before = arena@;
        arena.push(ArenaEntry { node: snode, parent: idx, step_cost: scost, g: tentative });
        let hval = snode.distance(&goal) / 3;
        open.push((aidx, tentative as u64 + hval));
        proof {
            assert(arena_wf(*c, height, arena@, start)) by {
                assert(forall|i: int|
                    0 <= i < arena@.len() - 1 ==> arena@[i] == arena_before[i]);
            }
        }
    }

    /// Walks the arena's parent links back from `goal_idx` and returns the
    /// forward path with its total cost.
    fn reconstruct(c: &Chunk, height: u32, arena: &Vec<ArenaEntry>, goal_idx: usize, start: PathNode) -> (r:
        (Vec<PathNode>, u32))
        requires
            arena_wf(*c, height, arena@, start),
            goal_idx < arena@.len(),
        ensures
            r.0@.len() >= 1,
            r.0@[0] == start,
            r.0@.last() == arena@[goal_idx as int].node,
            r.1 == arena@[goal_idx as int].g,
            path_ok(*c, height, r.0@, r.1 as int),
    {
        let total = arena[goal_idx].g;
        let mut backward: Vec<PathNode> = Vec::new();
        let mut cur: usize = goal_idx;
        backward.push(arena[goal_idx].node);
        proof {
            assert(backward@.reverse() =~= seq![arena@[goal_idx as int].node]);
        }
        while cur != 0
            invariant
                arena_wf(*c, height, arena@, start),
                goal_idx < arena@.len(),
                cur < arena@.len(),
                total == arena@[goal_idx as int].g,
                backward@.len() >= 1,
                backward@[0] == arena@[goal_idx as int].node,
                backward@.last() == arena@[cur as int].node,
                path_ok(
                    *c,
                    height,
                    backward@.reverse(),
                    total - arena@[cur as int].g,
                ),
            decreases cur,
        {
            let parent = arena[cur].parent;
            let ghost old_backward = backward@;
            let ghost step = arena@[cur as int].step_cost;
            backward.push(arena[parent].node);
            proof {
                let rev = backward@.reverse();
                assert(rev =~= seq![arena@[parent as int].node] + old_backward.reverse());
                assert(rev[0] == arena@[parent as int].node);
                assert(rev.drop_first() =~= old_backward.reverse());
                assert(successors_spec(*c, height, arena@[parent as int].node).contains(
                    (arena@[cur as int].node, step),
                ));
                assert(rev.drop_first()[0] == arena@[cur as int].node);
                assert(path_ok(*c, height, rev, total - arena@[parent as int].g)) by {
                    assert(exists|cost: u32|
                        #[trigger] successors_spec(*c, height, rev[0]).contains(
                            (rev[1], cost),
                        ) && path_ok(
                            *c,
                            height,
                            rev.drop_first(),
                            total - arena@[parent as int].g - cost,
                        )) by {
                        assert(successors_spec(*c, height, rev[0]).contains((rev[1], step))
                            && path_ok(
                            *c,
                            height,
                            rev.drop_first(),
                            total - arena@[parent as int].g - step,
                        ));
                    }
                }
            }
            cur = parent;
        }
        // Reverse the backward walk into the forward path.
        let n = backward.len();
        let mut nodes: Vec<PathNode> = Vec::new();
        let mut i: usize = 0;
        while i < n
            invariant
                n == backward@.len(),
                i <= n,
                nodes@.len() == i,
                forall|t: int| 0 <= t < i ==> #[trigger] nodes@[t] == backward@[n - 1 - t],
            decreases n - i,
        {
            nodes.push(backward[n - 1 - i]);
            i = i + 1;
        }
        proof {
            assert(nodes@ =~= backward@.reverse());
        }
        (nodes, total)
    }

    /// Whether an agent of height `h` can stand at the given coordinates.
    fn is_walkable(c: &Chunk, h: u32, x: i32, y: i32, z: i32) -> (r: bool)
        requires
            c.wf(),
            h <= MAX_AGENT_HEIGHT,
            -COORD_LIMIT - 2 <= x <= COORD_LIMIT + 2,
            -COORD_LIMIT - 2 <= y <= COORD_LIMIT + 2,
            -COORD_LIMIT - 2 <= z <= COORD_LIMIT + 2,
        ensures
            r == walkable(*c, h, x as int, y as int, z as int),
    {
        if Self::is_solid(c, x, y, z) {
            return false;
        }
        let mut i: u32 = 1;
        while i <= h
            invariant
                c.wf(),
                h <= MAX_AGENT_HEIGHT,
                -COORD_LIMIT - 2 <= x <= COORD_LIMIT + 2,
                -COORD_LIMIT - 2 <= y <= COORD_LIMIT + 2,
                -COORD_LIMIT - 2 <= z <= COORD_LIMIT + 2,
                1 <= i <= h + 1,
                forall|j: int| 1 <= j < i ==> !(#[trigger] solid_at(*c, x as int, y as int + j, z as int)),
            decreases h + 1 - i,
        {
            if Self::is_solid(c, x, y + i as i32, z) {
                return false;
            }
            i = i + 1;
        }
        Self::is_solid(c, x, y - 1, z)
    }

    /// Whether an agent in the cell at the given coordinates can rise one
    /// level.
    fn has_headroom(c: &Chunk, h: u32, x: i32, y: i32, z: i32) -> (r: bool)
        requires
            c.wf(),
            h <= MAX_AGENT_HEIGHT,
            -COORD_LIMIT - 2 <= x <= COORD_LIMIT + 2,
            -COORD_LIMIT - 2 <= y <= COORD_LIMIT + 2,
            -COORD_LIMIT - 2 <= z <= COORD_LIMIT + 2,
        ensures
            r == headroom(*c, h, x as int, y as int, z as int),
    {
        let mut i: u32 = 1;
        while i <= h + 1
            invariant
                c.wf(),
                h <= MAX_AGENT_HEIGHT,
                -COORD_LIMIT - 2 <= x <= COORD_LIMIT + 2,
                -COORD_LIMIT - 2 <= y <= COORD_LIMIT + 2,
                -COORD_LIMIT - 2 <= z <= COORD_LIMIT + 2,
                1 <= i <= h + 2,
                forall|j: int| 1 <= j < i ==> !(#[trigger] solid_at(*c, x as int, y as int + j, z as int)),
            decreases h + 2 - i,
        {
            if Self::is_solid(c, x, y + i as i32, z) {
                return false;
            }
            i = i + 1;
        }
        true
    }

    /// Whether the voxel at the given coordinates is solid.
    fn is_solid(c: &Chunk, x: i32, y: i32, z: i32) -> (r: bool)
        requires
            c.wf(),
        ensures
            r == solid_at(*c, x as int, y as int, z as int),
    {
        c.get_voxel(x, y, z) != AIR
    }

    /// Every move an agent of the given height may take from `node`,
    /// exactly as [`successors_spec`] lists them.
    fn successors(c: &Chunk, h: u32, node: PathNode) -> (r: Vec<(PathNode, u32)>)
        requires
            c.wf(),
            h <= MAX_AGENT_HEIGHT,
            node_in_cube(node),
        ensures
            r@ == successors_spec(*c, h, node),
            r@.len() <= 8,
            forall|k: int|
                0 <= k < r@.len() ==> successors_spec(*c, h, node).contains(#[trigger] r@[k])
                    && node_in_cube(r@[k].0) && 1 <= r@[k].1 <= 3,
    {
        let mut out: Vec<(PathNode, u32)> = Vec::new();
        Self::push_cardinal(c, h, node, 1, 0, &mut out);
        Self::push_cardinal(c, h, node, -1, 0, &mut out);
        Self::push_cardinal(c, h, node, 0, 1, &mut out);
        Self::push_cardinal(c, h, node, 0, -1, &mut out);
        Self::push_diagonal(c, h, node, 1, 1, &mut out);
        Self::push_diagonal(c, h, node, 1, -1, &mut out);
        Self::push_diagonal(c, h, node, -1, 1, &mut out);
        Self::push_diagonal(c, h, node, -1, -1, &mut out);
        proof {
            assert(out@ =~= successors_spec(*c, h, node));
            assert forall|k: int| 0 <= k < out@.len() implies successors_spec(
                *c,
                h,
                node,
            ).contains(#[trigger] out@[k]) && node_in_cube(out@[k].0) && 1 <= out@[k].1
                <= 3 by {
                assert(successors_spec(*c, h, node)[k] == out@[k]);
                lemma_case_bounds(*c, h, node, out@[k]);
            }
        }
        out
    }

    /// Appends one cardinal direction's move, if any.
    fn push_cardinal(c: &Chunk, h: u32, n: PathNode, dx: i32, dz: i32, out: &mut Vec<
        (PathNode, u32),
    >)
        requires
            c.wf(),
            h <= MAX_AGENT_HEIGHT,
            node_in_cube(n),
            -1 <= dx <= 1 && -1 <= dz <= 1,
        ensures
            final(out)@ == old(out)@ + case_seq(
                cardinal_case(*c, h, n, dx as int, dz as int),
            ),
    {
        let x = n.0;
        let y = n.1;
        let z = n.2;
        let nx = x + dx;
        let nz = z + dz;
        if Self::cube_ok(nx, y, nz) && Self::is_walkable(c, h, nx, y, nz) {
            out.push((PathNode(nx, y, nz), 1));
        } else if Self::cube_ok(nx, y + 1, nz) && Self::is_walkable(c, h, nx, y + 1, nz)
            && Self::has_headroom(c, h, x, y, z) {
            out.push((PathNode(nx, y + 1, nz), 2));
        } else if Self::cube_ok(nx, y - 1, nz) && Self::is_walkable(c, h, nx, y - 1, nz) {
            out.push((PathNode(nx, y - 1, nz), 2));
        } else {
            proof {
                assert(old(out)@ + case_seq(cardinal_case(*c, h, n, dx as int, dz as int))
                    =~= old(out)@);
            }
        }
    }

    /// Appends one diagonal direction's move, if any.
    fn push_diagonal(c: &Chunk, h: u32, n: PathNode, dx: i32, dz: i32, out: &mut Vec<
        (PathNode, u32),
    >)
        requires
            c.wf(),
            h <= MAX_AGENT_HEIGHT,
            node_in_cube(n),
            -1 <= dx <= 1 && -1 <= dz <= 1,
        ensures
            final(out)@ == old(out)@ + case_seq(
                diagonal_case(*c, h, n, dx as int, dz as int),
            ),
    {
        let x = n.0;
        let y = n.1;
        let z = n.2;
        let nx = x + dx;
        let nz = z + dz;
        let corner_same = !Self::is_solid(c, nx, y, z) && !Self::is_solid(c, x, y, nz);
        let corner_up = !Self::is_solid(c, nx, y + 1, z) && !Self::is_solid(c, x, y + 1, nz);
        if Self::cube_ok(nx, y, nz) && Self::is_walkable(c, h, nx, y, nz) && corner_same {
            out.push((PathNode(nx, y, nz), 2));
        } else if Self::cube_ok(nx, y + 1, nz) && Self::is_walkable(c, h, nx, y + 1, nz)
            && Self::has_headroom(c, h, x, y, z) && corner_up {
            out.push((PathNode(nx, y + 1, nz), 3));
        } else if Self::cube_ok(nx, y - 1, nz) && Self::is_walkable(c, h, nx, y - 1, nz)
            && corner_same {
            out.push((PathNode(nx, y - 1, nz), 3));
        } else {
            proof {
                assert(old(out)@ + case_seq(diagonal_case(*c, h, n, dx as int, dz as int))
                    =~= old(out)@);
            }
        }
    }

    /// Whether coordinates lie in the searchable cube.
    fn cube_ok(x: i32, y: i32, z: i32) -> (r: bool)
        ensures
            r == in_cube(x as int, y as int, z as int),
    {
        -COORD_LIMIT <= x && x <= COORD_LIMIT && -COORD_LIMIT <= y && y <= COORD_LIMIT
            && -COORD_LIMIT <= z && z <= COORD_LIMIT
    }
}

/// Every move a case offers has an in-cube target and a step cost between
/// one and three.
proof fn lemma_case_bounds(c: Chunk, h: u32, n: PathNode, p: (PathNode, u32))
    requires
        exists|k: int|
            0 <= k < successors_spec(c, h, n).len() && #[trigger] successors_spec(c, h, n)[k]
                == p,
    ensures
        node_in_cube(p.0),
        1 <= p.1 <= 3,
{
}

} // verus!
