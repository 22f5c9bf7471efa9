use voxel_core::astar::PathNode;
use voxel_core::components::PathComp;
use voxel_core::fixed::FP_ONE;
use voxel_core::walk::{Intent, WalkTowardsSystem};

#[test]
fn a_climbing_step_issues_a_jump_intent() {
    let sys = WalkTowardsSystem;
    let mut path = PathComp {
        path: Some(vec![PathNode(1, 5, 0), PathNode(1, 6, 0)]),
        current_index: 0,
    };
    let intent = sys.tick(&mut path, PathNode(0, 5, 0), 16_000);
    match intent {
        Intent::Walk { jump, target_y, delta, .. } => {
            assert!(jump);
            assert_eq!(target_y, 5);
            assert_eq!(delta, 16_000);
        },
        Intent::Stop => panic!("expected a walk intent"),
    }
}

#[test]
fn a_level_step_clears_the_jump() {
    let sys = WalkTowardsSystem;
    let mut path = PathComp {
        path: Some(vec![PathNode(1, 5, 0), PathNode(2, 5, 0)]),
        current_index: 0,
    };
    match sys.tick(&mut path, PathNode(0, 5, 0), 1) {
        Intent::Walk { jump, .. } => assert!(!jump),
        Intent::Stop => panic!("expected a walk intent"),
    }
}

#[test]
fn the_cursor_advances_past_reached_waypoints() {
    let sys = WalkTowardsSystem;
    let mut path = PathComp {
        path: Some(vec![PathNode(0, 5, 0), PathNode(1, 5, 0), PathNode(2, 5, 0)]),
        current_index: 0,
    };
    match sys.tick(&mut path, PathNode(0, 5, 0), 1) {
        Intent::Walk { target_x, target_z, .. } => {
            // The agent stands on waypoint zero; it is steered toward the
            // center of waypoint one's footprint.
            assert_eq!(target_x, FP_ONE + FP_ONE / 2);
            assert_eq!(target_z, FP_ONE / 2);
        },
        Intent::Stop => panic!("expected a walk intent"),
    }
    assert_eq!(path.current_index, 1);
}

#[test]
fn a_diagonal_step_skips_the_corner_waypoint() {
    let sys = WalkTowardsSystem;
    let mut path = PathComp {
        path: Some(vec![PathNode(1, 5, 1), PathNode(2, 5, 2)]),
        current_index: 0,
    };
    match sys.tick(&mut path, PathNode(0, 5, 0), 1) {
        Intent::Walk { target_x, target_z, .. } => {
            assert_eq!(target_x, 2 * FP_ONE + FP_ONE / 2);
            assert_eq!(target_z, 2 * FP_ONE + FP_ONE / 2);
        },
        Intent::Stop => panic!("expected a walk intent"),
    }
    assert_eq!(path.current_index, 1);
}

#[test]
fn standing_on_the_final_waypoint_consumes_the_path() {
    let sys = WalkTowardsSystem;
    let mut path = PathComp {
        path: Some(vec![PathNode(0, 5, 0), PathNode(3, 5, 0)]),
        current_index: 1,
    };
    let intent = sys.tick(&mut path, PathNode(3, 5, 0), 1);
    assert_eq!(intent, Intent::Stop);
    assert!(path.path.is_none());
}

#[test]
fn an_agent_without_a_path_stops() {
    let sys = WalkTowardsSystem;
    let mut path = PathComp::new();
    assert_eq!(sys.tick(&mut path, PathNode(0, 0, 0), 1), Intent::Stop);
    assert!(path.path.is_none());
}
