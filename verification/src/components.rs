//! Per-entity component data.
//!
//! Plain value types attached to entities by the hosting engine's component
//! store: a floating text label, a role name, and the pathfinding state
//! that the path search writes and the steering consumes.

use vstd::prelude::*;

use crate::astar::PathNode;

verus! {

/// A floating text label shown above an entity.
pub struct TextComp(pub String);

impl TextComp {
    /// Makes a label from its text.
    pub fn new(text: &str) -> (r: TextComp)
        ensures
            r.0@ == text@,
    {
        TextComp(text.to_owned())
    }
}

/// The text carried by a floating-text entity.
pub struct Text(pub String);

/// An entity's role name.
pub struct RoleComp(pub String);

/// An agent's pathfinding state: the waypoints the path search last found,
/// if any, and the cursor of the waypoint currently steered toward.
pub struct PathComp {
    pub path: Option<Vec<PathNode>>,
    pub current_index: usize,
}

impl PathComp {
    /// A fresh state: no path, cursor at the start.
    pub fn new() -> (r: PathComp)
        ensures
            r.path is None,
            r.current_index == 0,
    {
        PathComp { path: None, current_index: 0 }
    }
}

} // verus!
