use voxel_core::lsystem::LSystem;

#[test]
fn zero_iterations_return_the_initiator_unchanged() {
    let sys = LSystem::new().initiator("F%[F%]").iterations(0).build();
    assert_eq!(sys.expand(), b"F%[F%]".to_vec());
}

#[test]
fn one_pass_rewrites_every_symbol() {
    let sys = LSystem::new()
        .initiator("AB")
        .rule(b'A', "AB")
        .rule(b'B', "A")
        .iterations(1)
        .build();
    assert_eq!(sys.expand(), b"ABA".to_vec());
}

#[test]
fn two_passes_compose() {
    let sys = LSystem::new()
        .initiator("A")
        .rule(b'A', "AB")
        .rule(b'B', "A")
        .iterations(2)
        .build();
    // A -> AB -> ABA.
    assert_eq!(sys.expand(), b"ABA".to_vec());
}

#[test]
fn symbols_without_rules_pass_through_unchanged() {
    let sys = LSystem::new()
        .initiator("F+[X]")
        .rule(b'X', "FX")
        .iterations(3)
        .build();
    assert_eq!(sys.expand(), b"F+[FFFX]".to_vec());
}

#[test]
fn the_earliest_rule_for_a_symbol_wins() {
    let sys = LSystem::new()
        .initiator("A")
        .rule(b'A', "B")
        .rule(b'A', "C")
        .iterations(1)
        .build();
    assert_eq!(sys.expand(), b"B".to_vec());
}

#[test]
fn expansion_is_deterministic() {
    let sys = LSystem::new()
        .initiator("X")
        .rule(b'X', "FF$[B]+$[B]+$[B]FFFF")
        .rule(b'B', "F!$@!F$F%")
        .iterations(4)
        .build();
    assert_eq!(sys.expand(), sys.expand());
}
