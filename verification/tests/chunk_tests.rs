use voxel_core::chunk::{Chunk, Vec3i};
use voxel_core::components::{PathComp, RoleComp, Text, TextComp};
use voxel_core::registry::BlockRegistry;

#[test]
fn voxels_read_back_what_was_written() {
    let mut c = Chunk::new(Vec3i(-2, 0, -2), Vec3i(2, 4, 2));
    assert_eq!(c.get_voxel(-2, 0, -2), 0);
    c.set_voxel(-2, 0, -2, 42);
    c.set_voxel(1, 3, 1, 7);
    assert_eq!(c.get_voxel(-2, 0, -2), 42);
    assert_eq!(c.get_voxel(1, 3, 1), 7);
    assert_eq!(c.get_voxel(0, 0, 0), 0);
}

#[test]
fn reads_outside_the_bounds_answer_air() {
    let c = Chunk::new(Vec3i(0, 0, 0), Vec3i(2, 2, 2));
    assert_eq!(c.get_voxel(5, 0, 0), 0);
    assert_eq!(c.get_voxel(0, -1, 0), 0);
    assert_eq!(c.get_voxel(-1, 0, 100), 0);
}

#[test]
fn max_height_finds_the_top_non_air_voxel() {
    let mut c = Chunk::new(Vec3i(0, 0, 0), Vec3i(2, 8, 2));
    assert_eq!(c.get_max_height(0, 0), 0);
    c.set_voxel(0, 2, 0, 1);
    c.set_voxel(0, 5, 0, 1);
    assert_eq!(c.get_max_height(0, 0), 5);
    assert_eq!(c.get_max_height(1, 1), 0);
}

#[test]
fn block_names_resolve_to_the_earliest_registration() {
    let mut r = BlockRegistry::new();
    r.register("Stone", 1);
    r.register("Dirt", 2);
    r.register("Stone", 9);
    let b = r.get_block_by_name("Stone").expect("a stone block");
    assert_eq!(b.id, 1);
    assert_eq!(b.name, "Stone");
    assert!(r.get_block_by_name("Marble").is_none());
}

#[test]
fn component_values_hold_their_payloads() {
    let text = TextComp::new("hello there");
    assert_eq!(text.0, "hello there");
    let raw = Text(String::from("floating"));
    assert_eq!(raw.0, "floating");
    let role = RoleComp(String::from("guide"));
    assert_eq!(role.0, "guide");
    let path = PathComp::new();
    assert!(path.path.is_none());
    assert_eq!(path.current_index, 0);
}
