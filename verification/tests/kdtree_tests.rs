use voxel_core::kdtree::KdTree;

#[test]
fn search_returns_the_nearest_other_points_sorted() {
    let mut tree = KdTree::new();
    tree.add_entity(1, (0, 0, 0));
    tree.add_entity(2, (3, 0, 0));
    tree.add_entity(3, (10, 0, 0));
    tree.add_entity(4, (0, 4, 0));

    // Querying from an inserted point drops the exact self-match and
    // returns the others by ascending squared distance.
    let r = tree.search((0, 0, 0), 2);
    assert_eq!(r, vec![(9, 2), (16, 4)]);

    let r = tree.search((0, 0, 0), 10);
    assert_eq!(r, vec![(9, 2), (16, 4), (100, 3)]);
}

#[test]
fn search_from_an_uninserted_point_drops_a_genuine_neighbor() {
    let mut tree = KdTree::new();
    tree.add_entity(1, (0, 0, 0));
    tree.add_entity(2, (2, 0, 0));
    // The drop-first policy assumes the caller is in the index; from an
    // outside point it discards the true nearest neighbor.
    let r = tree.search((1, 0, 0), 1);
    assert_eq!(r, vec![(1, 2)]);
}

#[test]
fn empty_partitions_yield_empty_results() {
    let tree = KdTree::new();
    assert_eq!(tree.search((0, 0, 0), 5), vec![]);
    assert_eq!(tree.search_player((0, 0, 0), 5, true), vec![]);
    assert_eq!(tree.search_entity((0, 0, 0), 5, false), vec![]);
}

#[test]
fn partition_flags_control_the_over_fetch() {
    let mut tree = KdTree::new();
    tree.add_player(7, (0, 0, 0));
    tree.add_player(8, (5, 0, 0));
    // A non-player caller keeps the exact match.
    assert_eq!(tree.search_player((0, 0, 0), 1, false), vec![(0, 7)]);
    // A player caller over-fetches and drops its own entry.
    assert_eq!(tree.search_player((0, 0, 0), 1, true), vec![(25, 8)]);
}

#[test]
fn players_and_entities_share_only_the_combined_partition() {
    let mut tree = KdTree::new();
    tree.add_player(1, (0, 0, 0));
    tree.add_entity(2, (1, 0, 0));
    assert_eq!(tree.search_player((0, 0, 0), 5, false), vec![(0, 1)]);
    assert_eq!(tree.search_entity((0, 0, 0), 5, false), vec![(1, 2)]);
    assert_eq!(tree.search((0, 0, 0), 5), vec![(1, 2)]);
}

#[test]
fn reset_clears_all_three_partitions() {
    let mut tree = KdTree::new();
    tree.add_player(1, (0, 0, 0));
    tree.add_entity(2, (1, 0, 0));
    tree.reset();
    assert_eq!(tree.search((0, 0, 0), 5), vec![]);
    assert_eq!(tree.search_player((0, 0, 0), 5, false), vec![]);
    assert_eq!(tree.search_entity((0, 0, 0), 5, false), vec![]);
}
