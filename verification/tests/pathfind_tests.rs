use voxel_core::astar::{PathNode, MAX_DEPTH_SEARCH};
use voxel_core::chunk::{Chunk, Vec3i};
use voxel_core::components::PathComp;
use voxel_core::pathfind::{PathFindingSystem, RunOutcome};

fn small_plane() -> Chunk {
    let mut c = Chunk::new(Vec3i(-2, 0, -2), Vec3i(8, 10, 8));
    for x in -2..8 {
        for z in -2..8 {
            c.set_voxel(x, 4, z, 1);
        }
    }
    c
}

#[test]
fn positions_snap_down_to_the_standing_cell() {
    let c = small_plane();
    let snapped = PathFindingSystem::get_standable_voxel(&c, PathNode(1, 8, 1));
    assert_eq!(snapped, PathNode(1, 5, 1));
    // Already standing: unchanged.
    let snapped = PathFindingSystem::get_standable_voxel(&c, PathNode(1, 5, 1));
    assert_eq!(snapped, PathNode(1, 5, 1));
}

#[test]
fn a_found_path_is_applied_to_the_agent() {
    let c = small_plane();
    let sys = PathFindingSystem;
    let mut path = PathComp::new();
    // Body and target hang in the air; both snap onto the plane.
    let outcome = sys.run(&c, 1, PathNode(0, 8, 0), PathNode(3, 8, 3), MAX_DEPTH_SEARCH, &mut path);
    assert_eq!(outcome, RunOutcome::Applied);
    let nodes = path.path.expect("a path across the plane");
    assert_eq!(nodes[0], PathNode(0, 5, 0));
    assert_eq!(*nodes.last().unwrap(), PathNode(3, 5, 3));
}

#[test]
fn a_stale_result_is_discarded() {
    let c = small_plane();
    let sys = PathFindingSystem;
    let mut path = PathComp { path: None, current_index: 1000 };
    // Any path found here is far shorter than the cursor, so it is stale.
    let outcome = sys.run(&c, 1, PathNode(0, 8, 0), PathNode(3, 8, 3), MAX_DEPTH_SEARCH, &mut path);
    assert_eq!(outcome, RunOutcome::Stale);
    assert!(path.path.is_none());
    assert_eq!(path.current_index, 1000);
}

#[test]
fn an_unreachable_target_clears_the_path() {
    let mut c = small_plane();
    // Wall in the target cell.
    for dx in -1..=1 {
        for dz in -1..=1 {
            for y in 5..8 {
                if !(dx == 0 && dz == 0 && y == 5) {
                    c.set_voxel(3 + dx, y, 3 + dz, 1);
                }
            }
        }
    }
    let sys = PathFindingSystem;
    let mut path = PathComp {
        path: Some(vec![PathNode(0, 5, 0)]),
        current_index: 0,
    };
    let outcome = sys.run(&c, 1, PathNode(0, 8, 0), PathNode(3, 8, 3), MAX_DEPTH_SEARCH, &mut path);
    // The walled-in target is a proved negative, not budget exhaustion.
    assert_eq!(outcome, RunOutcome::NoPath);
    assert!(path.path.is_none());
}

#[test]
fn coinciding_positions_apply_the_trivial_path() {
    let c = small_plane();
    let sys = PathFindingSystem;
    let mut path = PathComp::new();
    let outcome = sys.run(&c, 1, PathNode(2, 8, 2), PathNode(2, 8, 2), MAX_DEPTH_SEARCH, &mut path);
    assert_eq!(outcome, RunOutcome::Applied);
    assert_eq!(path.path, Some(vec![PathNode(2, 5, 2)]));
}
