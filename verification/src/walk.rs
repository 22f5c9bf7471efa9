//! Steering along a computed path.
//!
//! Each tick the walk system advances an agent's path cursor past every
//! waypoint it already stands on, decides whether the next step climbs (and
//! so needs a jump), skips the corner waypoint of a diagonal step, and
//! issues a walk intent toward the center of the target voxel's horizontal
//! footprint. An agent whose path is missing or fully consumed gets a stop
//! intent, and a consumed path is cleared.

use vstd::prelude::*;

use crate::astar::PathNode;
use crate::components::PathComp;
use crate::fixed::FP_ONE;

verus! {

/// What the steering tells the agent's body to do this tick: walk toward a
/// fixed-point target (possibly jumping first), or stop.
#[derive(Clone, Copy, Debug, PartialEq, Eq, Structural)]
pub enum Intent {
    /// Walk toward the target point, with the tick's time delta; `jump` is
    /// set when the coming step climbs one level.
    Walk { target_x: i64, target_y: i32, target_z: i64, jump: bool, delta: i64 },
    /// Hold still.
    Stop,
}

/// The cursor advanced past every waypoint equal to the agent's position,
/// while a next waypoint remains.
pub open spec fn advanced_cursor(nodes: Seq<PathNode>, i: int, pos: PathNode) -> int
    recommends
        0 <= i < nodes.len(),
    decreases nodes.len() - i,
{
    if i + 1 < nodes.len() && nodes[i] == pos {
        advanced_cursor(nodes, i + 1, pos)
    } else {
        i
    }
}

/// The coming step climbs: the next waypoint is higher than the current
/// one.
pub open spec fn step_climbs(nodes: Seq<PathNode>, i: int) -> bool {
    i + 1 < nodes.len() && nodes[i].1 < nodes[i + 1].1
}

/// The coming step is diagonal: the next waypoint differs from the current
/// one on both horizontal axes.
pub open spec fn step_diagonal(nodes: Seq<PathNode>, i: int) -> bool {
    i + 1 < nodes.len() && nodes[i].0 != nodes[i + 1].0 && nodes[i].2 != nodes[i + 1].2
}

/// The cursor the tick finally steers toward: the advanced cursor, plus one
/// more when the coming step is diagonal, to target the far cell directly
/// rather than the intermediate corner.
pub open spec fn target_cursor(nodes: Seq<PathNode>, i: int, pos: PathNode) -> int {
    let a = advanced_cursor(nodes, i, pos);
    if step_diagonal(nodes, a) {
        a + 1
    } else {
        a
    }
}

/// The fixed-point center of a voxel's horizontal footprint.
pub open spec fn footprint_center_x(n: PathNode) -> int {
    n.0 * FP_ONE + FP_ONE / 2
}

/// The fixed-point center of a voxel's horizontal footprint.
pub open spec fn footprint_center_z(n: PathNode) -> int {
    n.2 * FP_ONE + FP_ONE / 2
}

/// The walk-towards steering system.
pub struct WalkTowardsSystem;

impl WalkTowardsSystem {
    /// One steering tick for one agent. Stops (and keeps the state
    /// unchanged) without a path; stops and clears a path whose remaining
    /// waypoints are already reached; otherwise advances the cursor, skips
    /// a diagonal corner, and walks toward the target waypoint's footprint
    /// center, jumping when the coming step climbs.
    pub fn tick(&self, path: &mut PathComp, position: PathNode, delta: i64) -> (r: Intent)
        ensures
            old(path).path is None ==> r == Intent::Stop && final(path).path is None
                && final(path).current_index == old(path).current_index,
            old(path).path matches Some(nodes) ==> {
                if old(path).current_index >= nodes@.len() {
                    r == Intent::Stop && final(path).path is None
                } else {
                    let a = advanced_cursor(nodes@, old(path).current_index as int, position);
                    if nodes@[a] == position {
                        r == Intent::Stop && final(path).path is None
                    } else {
                        let t = target_cursor(nodes@, old(path).current_index as int, position);
                        &&& final(path).path == old(path).path
                        &&& final(path).current_index == t
                        &&& r == (Intent::Walk {
                            target_x: footprint_center_x(nodes@[t]) as i64,
                            target_y: nodes@[t].1,
                            target_z: footprint_center_z(nodes@[t]) as i64,
                            jump: step_climbs(nodes@, a),
                            delta,
                        })
                    }
                }
            },
    {
        let has_path = match &path.path {
            Some(_) => true,
            None => false,
        };
        if !has_path {
            return Intent::Stop;
        }
        let nodes_len = match &path.path {
            Some(nodes) => nodes.len(),
            None => 0,
        };
        if path.current_index >= nodes_len {
            path.path = None;
            return Intent::Stop;
        }
        let mut cursor = path.current_index;
        let ghost gnodes = match old(path).path {
            Some(nodes) => nodes@,
            None => Seq::empty(),
        };
        let (exhausted, jump, target) = match &path.path {
            Some(nodes) => {
                let n = nodes.len();
                while cursor + 1 < n && nodes[cursor] == position
                    invariant
                        gnodes == nodes@,
                        n == nodes@.len(),
                        cursor < n,
                        advanced_cursor(nodes@, cursor as int, position) == advanced_cursor(
                            gnodes,
                            old(path).current_index as int,
                            position,
                        ),
                    decreases nodes@.len() - cursor,
                {
                    cursor = cursor + 1;
                }
                proof {
                    assert(advanced_cursor(gnodes, old(path).current_index as int, position)
                        == cursor);
                }
                if nodes[cursor] == position {
                    (true, false, PathNode(0, 0, 0))
                } else {
                    let jump = cursor + 1 < n && nodes[cursor].1 < nodes[cursor + 1].1;
                    if cursor + 1 < n && nodes[cursor].0 != nodes[cursor + 1].0
                        && nodes[cursor].2 != nodes[cursor + 1].2 {
                        cursor = cursor + 1;
                    }
                    (false, jump, nodes[cursor])
                }
            },
            None => {
                proof {
                    assert(false);
                }
                unreached()
            },
        };
        if exhausted {
            path.path = None;
            return Intent::Stop;
        }
        let target_x = target.0 as i64 * FP_ONE + FP_ONE / 2;
        let target_z = target.2 as i64 * FP_ONE + FP_ONE / 2;
        path.current_index = cursor;
        Intent::Walk { target_x, target_y: target.1, target_z, jump, delta }
    }
}

} // verus!
