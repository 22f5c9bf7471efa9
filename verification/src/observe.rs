//! Target acquisition from the spatial index.
//!
//! Once per tick, after the index is rebuilt, each entity looks up its
//! nearest neighbor in the "all" partition and takes that entity's current
//! position as its target; entities with no neighbor get no target.

use vstd::prelude::*;

use crate::fixed::fp_in_range;
use crate::kdtree::{search_result, KdTree, Neighbor};

verus! {

/// The position of the first entry carrying `id`, if any.
pub open spec fn position_of(list: Seq<(u64, (i64, i64, i64))>, id: u64) -> Option<
    (i64, i64, i64),
>
    decreases list.len(),
{
    if list.len() == 0 {
        None
    } else if list[0].0 == id {
        Some(list[0].1)
    } else {
        position_of(list.drop_first(), id)
    }
}

/// Body `i` was given the right target: the position of the first result
/// of a nearest-neighbor query from its own position, or none on an empty
/// result or an unknown entity.
pub open spec fn observed(
    tree_all: Seq<(u64, (i64, i64, i64))>,
    bodies: Seq<(u64, (i64, i64, i64))>,
    i: int,
    target: Option<(i64, i64, i64)>,
) -> bool {
    exists|nb: Seq<Neighbor>|
        #[trigger] search_result(tree_all, bodies[i].1, 1, nb) && target == (if nb.len() > 0 {
            position_of(bodies, nb[0].1)
        } else {
            None
        })
}

/// The per-tick target-acquisition system.
pub struct EntityObserveSystem;

impl EntityObserveSystem {
    /// Picks each body's target: the position of its nearest neighbor in
    /// the index's "all" partition (the body's own entry excluded by the
    /// index's drop-first policy), or none when the query comes back empty
    /// or names an entity with no body.
    pub fn run(&self, tree: &KdTree, bodies: &Vec<(u64, (i64, i64, i64))>) -> (r: Vec<
        Option<(i64, i64, i64)>,
    >)
        requires
            tree.wf(),
            forall|i: int|
                0 <= i < bodies@.len() ==> fp_in_range((#[trigger] bodies@[i]).1.0) && fp_in_range(
                    bodies@[i].1.1,
                ) && fp_in_range(bodies@[i].1.2),
        ensures
            r@.len() == bodies@.len(),
            forall|i: int|
                0 <= i < bodies@.len() ==> #[trigger] observed(
                    tree.spec_all(),
                    bodies@,
                    i,
                    r@[i],
                ),
    {
        let n = bodies.len();
        let mut out: Vec<Option<(i64, i64, i64)>> = Vec::new();
        let mut i: usize = 0;
        while i < n
            invariant
                tree.wf(),
                n == bodies@.len(),
                i <= n,
                out@.len() == i,
                forall|k: int|
                    0 <= k < bodies@.len() ==> fp_in_range((#[trigger] bodies@[k]).1.0)
                        && fp_in_range(bodies@[k].1.1) && fp_in_range(bodies@[k].1.2),
                forall|k: int|
                    0 <= k < i ==> #[trigger] observed(tree.spec_all(), bodies@, k, out@[k]),
            decreases n - i,
        {
            let pos = bodies[i].1;
            let found = tree.search(pos, 1);
            let target = if found.len() > 0 {
                Self::lookup(bodies, found[0].1)
            } else {
                None
            };
            proof {
                assert(observed(tree.spec_all(), bodies@, i as int, target)) by {
                    assert(search_result(tree.spec_all(), bodies@[i as int].1, 1, found@)
                        && target == (if found@.len() > 0 {
                        position_of(bodies@, found@[0].1)
                    } else {
                        None
                    }));
                }
            }
            out.push(target);
            i = i + 1;
        }
        out
    }

    /// The position of the first body carrying an entity ID.
    fn lookup(bodies: &Vec<(u64, (i64, i64, i64))>, id: u64) -> (r: Option<(i64, i64, i64)>)
        ensures
            r == position_of(bodies@, id),
    {
        let n = bodies.len();
        let mut i: usize = 0;
        proof {
            assert(bodies@.skip(0) =~= bodies@);
        }
        while i < n
            invariant
                n == bodies@.len(),
                i <= n,
                position_of(bodies@, id) == position_of(bodies@.skip(i as int), id),
            decreases n - i,
        {
            proof {
                let t = bodies@.skip(i as int);
                assert(t[0] == bodies@[i as int]);
                assert(t.drop_first() =~= bodies@.skip(i as int + 1));
            }
            if bodies[i].0 == id {
                return Some(bodies[i].1);
            }
            i = i + 1;
        }
        proof {
            assert(bodies@.skip(n as int) =~= Seq::<(u64, (i64, i64, i64))>::empty());
        }
        None
    }
}

} // verus!
