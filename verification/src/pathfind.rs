//! Per-tick path computation for agents.
//!
//! Each tick, an agent with a target snaps its own position and the target
//! to the voxels they stand in, runs the capped A* search between them, and
//! stores the waypoints in its path state. A result whose node count is
//! less than the agent's current cursor is stale — the cursor is already
//! past its end — and is discarded rather than applied; a search that found
//! nothing, or that gave up on its expansion budget, clears the path: "no
//! path available this tick", a defined outcome rather than an error.

use vstd::prelude::*;

use crate::astar::{node_in_cube, path_exists, path_ok, solid_at, AStar, PathNode,
    MAX_AGENT_HEIGHT, MAX_DEPTH_SEARCH};
use crate::chunk::Chunk;
use crate::components::PathComp;

verus! {

/// `r` is `n` snapped to the voxel the agent stands in: same column, the
/// highest cell at or below `n` with solid ground underneath, or the bottom
/// of the region when the whole column below hangs in air.
pub open spec fn standable(c: Chunk, n: PathNode, r: PathNode) -> bool {
    &&& r.0 == n.0 && r.2 == n.2
    &&& c.spec_min().1 <= r.1 <= n.1
    &&& solid_at(c, r.0 as int, r.1 - 1, r.2 as int) || r.1 == c.spec_min().1
    &&& forall|j: int| r.1 < j <= n.1 ==> !(#[trigger] solid_at(c, n.0 as int, j - 1, n.2 as int))
}

/// A position snaps to exactly one standable voxel.
pub proof fn lemma_standable_unique(c: Chunk, n: PathNode, r1: PathNode, r2: PathNode)
    requires
        standable(c, n, r1),
        standable(c, n, r2),
    ensures
        r1 == r2,
{
    if r1.1 < r2.1 {
        assert(!solid_at(c, n.0 as int, r2.1 - 1, n.2 as int));
        assert(r2.1 == c.spec_min().1);
        assert(false);
    } else if r2.1 < r1.1 {
        assert(!solid_at(c, n.0 as int, r1.1 - 1, n.2 as int));
        assert(r1.1 == c.spec_min().1);
        assert(false);
    }
}

/// How one path-finding tick ended for the agent.
#[derive(Clone, Copy, Debug, PartialEq, Eq, Structural)]
pub enum RunOutcome {
    /// A path was found and stored.
    Applied,
    /// A path was found but its node count is less than the agent's
    /// cursor; it was discarded as stale.
    Stale,
    /// The search proved there is no path between the snapped positions.
    NoPath,
    /// The search gave up on its expansion budget.
    Exhausted,
}

/// The per-tick path-finding system.
pub struct PathFindingSystem;

impl PathFindingSystem {
    /// Snaps a voxel coordinate down to the cell the agent stands in.
    pub fn get_standable_voxel(c: &Chunk, n: PathNode) -> (r: PathNode)
        requires
            c.wf(),
            node_in_cube(n),
            -crate::astar::COORD_LIMIT <= c.spec_min().1 <= n.1,
        ensures
            standable(*c, n, r),
            node_in_cube(r),
    {
        let mut y = n.1;
        let bottom = c.min().1;
        while y > bottom
            invariant
                c.wf(),
                node_in_cube(n),
                bottom == c.spec_min().1,
                -crate::astar::COORD_LIMIT <= bottom,
                bottom <= y <= n.1,
                forall|j: int| y < j <= n.1 ==> !(#[trigger] solid_at(*c, n.0 as int, j - 1, n.2 as int)),
            decreases y - bottom,
        {
            if c.get_voxel(n.0, y - 1, n.2) != crate::chunk::AIR {
                return PathNode(n.0, y, n.2);
            }
            y = y - 1;
        }
        PathNode(n.0, y, n.2)
    }

    /// One agent's tick: snap the body and target positions to standable
    /// voxels, search between them, and store the result. The outcome says
    /// exactly what happened: `Applied` if and only if a path is stored
    /// (valid, from snap to snap, at least as long as the cursor); `Stale`
    /// when a found path was shorter than the cursor and discarded;
    /// `NoPath` when the search proved no path exists between the snaps;
    /// `Exhausted` when the expansion budget ran out. When the two
    /// positions snap to the same voxel and the cursor is at most one, the
    /// trivial path is always applied. The cursor itself is left alone.
    pub fn run(
        &self,
        c: &Chunk,
        height: u32,
        body: PathNode,
        target: PathNode,
        max_visits: u32,
        path: &mut PathComp,
    ) -> (r: RunOutcome)
        requires
            c.wf(),
            node_in_cube(body),
            node_in_cube(target),
            -crate::astar::COORD_LIMIT <= c.spec_min().1,
            c.spec_min().1 <= body.1,
            c.spec_min().1 <= target.1,
            height <= MAX_AGENT_HEIGHT,
            max_visits <= MAX_DEPTH_SEARCH,
        ensures
            final(path).current_index == old(path).current_index,
            (r == RunOutcome::Applied) <==> final(path).path is Some,
            match final(path).path {
                Some(nodes) => exists|s: PathNode, g: PathNode, cost: u32|
                    #![trigger standable(*c, body, s), standable(*c, target, g), path_ok(*c, height, nodes@, cost as int)]
                    {
                        &&& standable(*c, body, s)
                        &&& standable(*c, target, g)
                        &&& nodes@.len() >= old(path).current_index
                        &&& nodes@.len() >= 1
                        &&& nodes@[0] == s
                        &&& nodes@.last() == g
                        &&& path_ok(*c, height, nodes@, cost as int)
                    },
                None => true,
            },
            r == RunOutcome::Stale ==> exists|s: PathNode, g: PathNode, nodes: Seq<PathNode>, cost: u32|
                #![trigger standable(*c, body, s), standable(*c, target, g), path_ok(*c, height, nodes, cost as int)]
                {
                    &&& standable(*c, body, s)
                    &&& standable(*c, target, g)
                    &&& path_ok(*c, height, nodes, cost as int)
                    &&& nodes.len() >= 1
                    &&& nodes[0] == s
                    &&& nodes.last() == g
                    &&& nodes.len() < old(path).current_index
                },
            r == RunOutcome::NoPath ==> forall|s: PathNode, g: PathNode|
                standable(*c, body, s) && standable(*c, target, g) ==> !(#[trigger] path_exists(
                    *c,
                    height,
                    s,
                    g,
                )),
            ((exists|s: PathNode| standable(*c, body, s) && #[trigger] standable(*c, target, s))
                && old(path).current_index <= 1) ==> r == RunOutcome::Applied,
    {
        let start = Self::get_standable_voxel(c, body);
        let goal = Self::get_standable_voxel(c, target);
        proof {
            if exists|s: PathNode| standable(*c, body, s) && #[trigger] standable(*c, target, s) {
                let s = choose|s: PathNode|
                    standable(*c, body, s) && #[trigger] standable(*c, target, s);
                lemma_standable_unique(*c, body, s, start);
                lemma_standable_unique(*c, target, s, goal);
                assert(start == goal);
            }
        }
        let (found, exhausted) = AStar::calculate(c, height, start, goal, max_visits);
        match found {
            Some((nodes, cost)) => {
                if nodes.len() < path.current_index {
                    let ghost gnodes = nodes@;
                    path.path = None;
                    proof {
                        assert(standable(*c, body, start) && standable(*c, target, goal)
                            && path_ok(*c, height, gnodes, cost as int) && gnodes.len() >= 1
                            && gnodes[0] == start && gnodes.last() == goal && gnodes.len() < old(
                            path,
                        ).current_index);
                    }
                    RunOutcome::Stale
                } else {
                    let ghost gnodes = nodes@;
                    path.path = Some(nodes);
                    proof {
                        assert(standable(*c, body, start) && standable(*c, target, goal)
                            && gnodes.len() >= old(path).current_index && gnodes[0] == start
                            && gnodes.last() == goal && path_ok(*c, height, gnodes, cost as int));
                        match &path.path {
                            Some(n2) => {
                                assert(n2@ == gnodes);
                                assert(path_ok(*c, height, n2@, cost as int));
                            },
                            None => {
                                assert(false);
                            },
                        }
                    }
                    RunOutcome::Applied
                }
            },
            None => {
                path.path = None;
                if exhausted {
                    RunOutcome::Exhausted
                } else {
                    proof {
                        assert forall|s: PathNode, g: PathNode|
                            standable(*c, body, s) && standable(*c, target, g) implies !(
                        #[trigger] path_exists(*c, height, s, g)) by {
                            lemma_standable_unique(*c, body, s, start);
                            lemma_standable_unique(*c, target, g, goal);
                        }
                    }
                    RunOutcome::NoPath
                }
            },
        }
    }
}

} // verus!
