use voxel_core::kdtree::KdTree;
use voxel_core::observe::EntityObserveSystem;

#[test]
fn two_entities_target_each_other() {
    let bodies = vec![(1u64, (0i64, 0i64, 0i64)), (2u64, (5i64, 0i64, 0i64))];
    let mut tree = KdTree::new();
    tree.add_entity(1, (0, 0, 0));
    tree.add_entity(2, (5, 0, 0));
    let sys = EntityObserveSystem;
    let targets = sys.run(&tree, &bodies);
    assert_eq!(targets, vec![Some((5, 0, 0)), Some((0, 0, 0))]);
}

#[test]
fn a_lone_entity_finds_no_target() {
    let bodies = vec![(1u64, (0i64, 0i64, 0i64))];
    let mut tree = KdTree::new();
    tree.add_entity(1, (0, 0, 0));
    let sys = EntityObserveSystem;
    let targets = sys.run(&tree, &bodies);
    assert_eq!(targets, vec![None]);
}

#[test]
fn a_neighbor_without_a_body_gives_no_target() {
    // Entity 9 is indexed but has no body this tick.
    let bodies = vec![(1u64, (0i64, 0i64, 0i64))];
    let mut tree = KdTree::new();
    tree.add_entity(1, (0, 0, 0));
    tree.add_entity(9, (2, 0, 0));
    let sys = EntityObserveSystem;
    let targets = sys.run(&tree, &bodies);
    assert_eq!(targets, vec![None]);
}
