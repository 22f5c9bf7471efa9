use voxel_core::astar::{AStar, PathNode, MAX_DEPTH_SEARCH};
use voxel_core::chunk::{Chunk, Vec3i};

/// An open plane: solid floor at y = 4 over the whole region, air above,
/// so that agents stand at y = 5.
fn flat_plane() -> Chunk {
    let mut c = Chunk::new(Vec3i(-3, 0, -3), Vec3i(14, 10, 14));
    let mut x = -3;
    while x < 14 {
        let mut z = -3;
        while z < 14 {
            c.set_voxel(x, 4, z, 1);
            z += 1;
        }
        x += 1;
    }
    c
}

#[test]
fn flat_plane_path_costs_the_diagonal_aware_minimum() {
    let c = flat_plane();
    let (r, exhausted) =
        AStar::calculate(&c, 1, PathNode(0, 5, 0), PathNode(10, 5, 10), MAX_DEPTH_SEARCH);
    assert!(!exhausted);
    let (nodes, cost) = r.expect("a path across the open plane");
    // Ten diagonal steps at cost 2 each; no cheaper mix exists.
    assert_eq!(cost, 20);
    assert_eq!(nodes.len(), 11);
    assert_eq!(nodes[0], PathNode(0, 5, 0));
    assert_eq!(*nodes.last().unwrap(), PathNode(10, 5, 10));
}

#[test]
fn equal_start_and_goal_yield_a_zero_length_path() {
    let c = flat_plane();
    let (r, exhausted) =
        AStar::calculate(&c, 1, PathNode(3, 5, 3), PathNode(3, 5, 3), MAX_DEPTH_SEARCH);
    assert!(!exhausted);
    let (nodes, cost) = r.expect("the trivial path");
    assert_eq!(cost, 0);
    assert_eq!(nodes, vec![PathNode(3, 5, 3)]);
}

#[test]
fn an_enclosed_goal_has_no_path() {
    let mut c = flat_plane();
    // Wall the goal cell in on all sides and above.
    for dx in -1..=1 {
        for dz in -1..=1 {
            for y in 5..8 {
                if !(dx == 0 && dz == 0 && y == 5) {
                    c.set_voxel(5 + dx, y, 5 + dz, 1);
                }
            }
        }
    }
    let (r, exhausted) =
        AStar::calculate(&c, 1, PathNode(0, 5, 0), PathNode(5, 5, 5), MAX_DEPTH_SEARCH);
    // The search drained without hitting its budget: a proved negative.
    assert!(!exhausted);
    assert!(r.is_none());
}

#[test]
fn stepping_up_a_ledge_costs_two() {
    let mut c = Chunk::new(Vec3i(-1, 0, -1), Vec3i(4, 10, 2));
    // Floor at y = 4; one raised cell at x = 1 making a single step up.
    for x in -1..4 {
        c.set_voxel(x, 4, 0, 1);
    }
    c.set_voxel(1, 5, 0, 1);
    c.set_voxel(2, 5, 0, 1);
    let (r, _) = AStar::calculate(&c, 1, PathNode(0, 5, 0), PathNode(2, 6, 0), MAX_DEPTH_SEARCH);
    let (nodes, cost) = r.expect("a step-up path");
    assert_eq!(cost, 3);
    assert_eq!(nodes, vec![PathNode(0, 5, 0), PathNode(1, 6, 0), PathNode(2, 6, 0)]);
}

#[test]
fn diagonals_never_cut_through_a_solid_corner() {
    let mut c = Chunk::new(Vec3i(-1, 0, -1), Vec3i(3, 10, 3));
    for x in -1..3 {
        for z in -1..3 {
            c.set_voxel(x, 4, z, 1);
        }
    }
    // Solid pillars on both cardinal cells flanking the diagonal.
    for y in 5..8 {
        c.set_voxel(1, y, 0, 1);
        c.set_voxel(0, y, 1, 1);
    }
    let (r, _) = AStar::calculate(&c, 1, PathNode(0, 5, 0), PathNode(1, 5, 1), MAX_DEPTH_SEARCH);
    // The diagonal through the corner is not offered, so any path must go
    // around: more than the two nodes of a direct diagonal step.
    let (nodes, cost) = r.expect("a path around the corner");
    assert!(nodes.len() > 2);
    assert!(cost > 2);
}

#[test]
fn the_expansion_budget_degrades_to_no_path() {
    let c = flat_plane();
    // One visit expands only the start node, never reaching the goal.
    let (r, exhausted) = AStar::calculate(&c, 1, PathNode(0, 5, 0), PathNode(10, 5, 10), 1);
    assert!(r.is_none());
    assert!(exhausted);
}
