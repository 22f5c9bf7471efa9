//! World-wide spatial index for positional queries.
//!
//! Three searchable partitions over live entity positions — all entities,
//! players, and non-player entities — rebuilt from scratch once per tick.
//! A query returns the nearest entries by squared Euclidean distance,
//! sorted ascending. Queries that name a point already inserted in the
//! partition over-fetch one entry and drop the first result, excluding the
//! exact self-match; the caller says whether its own position is in the
//! partition through the `is_player` / `is_entity` flag, as `search` on the
//! "all" partition always assumes.
//!
//! Positions are fixed-point coordinates; entities are plain numeric IDs
//! handed in by the hosting engine.

use vstd::prelude::*;

use crate::fixed::fp_in_range;
use crate::terrain::dist2;

verus! {

/// One indexed entry: entity ID and position.
pub type Entry = (u64, (i64, i64, i64));

/// A returned neighbor: squared distance to the query point and entity ID.
pub type Neighbor = (i128, u64);

/// All positions of a partition are within fixed-point range.
pub open spec fn entries_wf(list: Seq<Entry>) -> bool {
    forall|i: int|
        0 <= i < list.len() ==> fp_in_range((#[trigger] list[i]).1.0) && fp_in_range(list[i].1.1)
            && fp_in_range(list[i].1.2)
}

/// `sel` picks the results out of the partition: one distinct source index
/// per result, with matching entity and distance, and every unselected
/// entry at least as far as every selected one.
pub open spec fn selection_ok(
    list: Seq<Entry>,
    point: (i64, i64, i64),
    full: Seq<Neighbor>,
    sel: Seq<int>,
) -> bool {
    &&& sel.len() == full.len()
    &&& forall|k: int|
        0 <= k < sel.len() ==> 0 <= #[trigger] sel[k] < list.len() && full[k].1
            == list[sel[k]].0 && full[k].0 == dist2(list[sel[k]].1, point)
    &&& forall|k1: int, k2: int| 0 <= k1 < k2 < sel.len() ==> #[trigger] sel[k1] != #[trigger] sel[k2]
    &&& forall|j: int, k: int|
        #![trigger full[k], dist2(list[j].1, point)]
        0 <= j < list.len() && 0 <= k < sel.len() && (forall|t: int|
            0 <= t < sel.len() ==> #[trigger] sel[t] != j) ==> full[k].0 <= dist2(
            list[j].1,
            point,
        )
}

/// The `n` nearest entries of a partition, sorted by ascending squared
/// distance: as many as asked for, or the whole partition if smaller.
pub open spec fn is_nearest(
    list: Seq<Entry>,
    point: (i64, i64, i64),
    n: int,
    full: Seq<Neighbor>,
) -> bool {
    &&& full.len() == if n <= list.len() {
        n
    } else {
        list.len() as int
    }
    &&& forall|k: int| 0 <= k < full.len() - 1 ==> (#[trigger] full[k]).0 <= full[k + 1].0
    &&& exists|sel: Seq<int>| selection_ok(list, point, full, sel)
}

/// What a query with the over-fetch-and-drop policy returns: the `count +
/// 1` nearest entries with the first dropped when any were found.
pub open spec fn search_result(
    list: Seq<Entry>,
    point: (i64, i64, i64),
    count: int,
    r: Seq<Neighbor>,
) -> bool {
    exists|full: Seq<Neighbor>|
        #[trigger] is_nearest(list, point, count + 1, full) && r == if full.len() == 0 {
            full
        } else {
            full.drop_first()
        }
}

/// Source index `j` is accounted for: either selected already or still in
/// the scratch pool.
spec fn covered(sel: Seq<int>, scratch: Seq<(i128, u64, usize)>, j: int) -> bool {
    (exists|k: int| 0 <= k < sel.len() && #[trigger] sel[k] == j) || (exists|k: int|
        0 <= k < scratch.len() && (#[trigger] scratch[k]).2 == j)
}

/// The three-way spatial index.
pub struct KdTree {
    all: Vec<Entry>,
    players: Vec<Entry>,
    entities: Vec<Entry>,
}

impl Default for KdTree {
    /// An empty index.
    fn default() -> (r: KdTree)
        ensures
            r.wf(),
            r.spec_all().len() == 0,
            r.spec_players().len() == 0,
            r.spec_entities().len() == 0,
    {
        KdTree::new()
    }
}

impl KdTree {
    /// The combined partition, in insertion order.
    pub closed spec fn spec_all(self) -> Seq<Entry> {
        self.all@
    }

    /// The player partition, in insertion order.
    pub closed spec fn spec_players(self) -> Seq<Entry> {
        self.players@
    }

    /// The non-player partition, in insertion order.
    pub closed spec fn spec_entities(self) -> Seq<Entry> {
        self.entities@
    }

    /// Structural invariant: every stored position in range.
    pub open spec fn wf(self) -> bool {
        entries_wf(self.spec_all()) && entries_wf(self.spec_players()) && entries_wf(
            self.spec_entities(),
        )
    }

    /// An empty index.
    pub fn new() -> (r: KdTree)
        ensures
            r.wf(),
            r.spec_all().len() == 0,
            r.spec_players().len() == 0,
            r.spec_entities().len() == 0,
    {
        KdTree { all: Vec::new(), players: Vec::new(), entities: Vec::new() }
    }

    /// Clears all three partitions, ready for this tick's rebuild.
    pub fn reset(&mut self)
        ensures
            final(self).wf(),
            final(self).spec_all().len() == 0,
            final(self).spec_players().len() == 0,
            final(self).spec_entities().len() == 0,
    {
        self.all = Vec::new();
        self.players = Vec::new();
        self.entities = Vec::new();
    }

    /// Inserts a player into the player partition and into "all".
    pub fn add_player(&mut self, ent: u64, point: (i64, i64, i64))
        requires
            old(self).wf(),
            fp_in_range(point.0) && fp_in_range(point.1) && fp_in_range(point.2),
        ensures
            final(self).wf(),
            final(self).spec_players() == old(self).spec_players().push((ent, point)),
            final(self).spec_all() == old(self).spec_all().push((ent, point)),
            final(self).spec_entities() == old(self).spec_entities(),
    {
        self.players.push((ent, point));
        self.all.push((ent, point));
    }

    /// Inserts a non-player entity into the entity partition and into
    /// "all".
    pub fn add_entity(&mut self, ent: u64, point: (i64, i64, i64))
        requires
            old(self).wf(),
            fp_in_range(point.0) && fp_in_range(point.1) && fp_in_range(point.2),
        ensures
            final(self).wf(),
            final(self).spec_entities() == old(self).spec_entities().push((ent, point)),
            final(self).spec_all() == old(self).spec_all().push((ent, point)),
            final(self).spec_players() == old(self).spec_players(),
    {
        self.entities.push((ent, point));
        self.all.push((ent, point));
    }

    /// Queries the combined partition: fetches the `count + 1` nearest and
    /// drops the first result when any were found, excluding the exact
    /// self-match of a caller whose own position is inserted. (A caller
    /// whose position is not inserted loses a genuine nearest neighbor to
    /// this policy.)
    pub fn search(&self, point: (i64, i64, i64), count: usize) -> (r: Vec<Neighbor>)
        requires
            self.wf(),
            fp_in_range(point.0) && fp_in_range(point.1) && fp_in_range(point.2),
            count < usize::MAX,
        ensures
            search_result(self.spec_all(), point, count as int, r@),
            r@.len() <= count,
    {
        let mut full = Self::nearest(&self.all, point, count + 1);
        let ghost pre = full@;
        if full.len() > 0 {
            full.remove(0);
            proof {
                assert(full@ =~= pre.drop_first());
            }
        }
        proof {
            assert(is_nearest(self.spec_all(), point, count + 1, pre));
        }
        full
    }

    /// Queries the player partition; `is_player` says whether the caller's
    /// own position was inserted there, and so whether to over-fetch and
    /// drop the self-match.
    pub fn search_player(&self, point: (i64, i64, i64), count: usize, is_player: bool) -> (r: Vec<
        Neighbor,
    >)
        requires
            self.wf(),
            fp_in_range(point.0) && fp_in_range(point.1) && fp_in_range(point.2),
            count < usize::MAX,
        ensures
            is_player ==> search_result(self.spec_players(), point, count as int, r@),
            !is_player ==> is_nearest(self.spec_players(), point, count as int, r@),
            r@.len() <= count,
    {
        if is_player {
            let mut full = Self::nearest(&self.players, point, count + 1);
            let ghost pre = full@;
            if full.len() > 0 {
                full.remove(0);
                proof {
                    assert(full@ =~= pre.drop_first());
                }
            }
            proof {
                assert(is_nearest(self.spec_players(), point, count + 1, pre));
            }
            full
        } else {
            Self::nearest(&self.players, point, count)
        }
    }

    /// Queries the non-player partition; `is_entity` says whether the
    /// caller's own position was inserted there.
    pub fn search_entity(&self, point: (i64, i64, i64), count: usize, is_entity: bool) -> (r: Vec<
        Neighbor,
    >)
        requires
            self.wf(),
            fp_in_range(point.0) && fp_in_range(point.1) && fp_in_range(point.2),
            count < usize::MAX,
        ensures
            is_entity ==> search_result(self.spec_entities(), point, count as int, r@),
            !is_entity ==> is_nearest(self.spec_entities(), point, count as int, r@),
            r@.len() <= count,
    {
        if is_entity {
            let mut full = Self::nearest(&self.entities, point, count + 1);
            let ghost pre = full@;
            if full.len() > 0 {
                full.remove(0);
                proof {
                    assert(full@ =~= pre.drop_first());
                }
            }
            proof {
                assert(is_nearest(self.spec_entities(), point, count + 1, pre));
            }
            full
        } else {
            Self::nearest(&self.entities, point, count)
        }
    }

    /// The `n` nearest entries of one partition, by selection: repeatedly
    /// takes a closest remaining entry.
    fn nearest(list: &Vec<Entry>, point: (i64, i64, i64), n: usize) -> (r: Vec<Neighbor>)
        requires
            entries_wf(list@),
            fp_in_range(point.0) && fp_in_range(point.1) && fp_in_range(point.2),
        ensures
            is_nearest(list@, point, n as int, r@),
            r@.len() <= n,
    {
        // Scratch entries carry (distance, entity, source index).
        let mut scratch: Vec<(i128, u64, usize)> = Vec::new();
        let len = list.len();
        let mut i: usize = 0;
        while i < len
            invariant
                entries_wf(list@),
                fp_in_range(point.0) && fp_in_range(point.1) && fp_in_range(point.2),
                len == list@.len(),
                i <= len,
                scratch@.len() == i,
                forall|k: int|
                    0 <= k < i ==> (#[trigger] scratch@[k]).2 == k && scratch@[k].1
                        == list@[k].0 && scratch@[k].0 == dist2(list@[k].1, point),
            decreases len - i,
        {
            let e = list[i];
            let d = crate::terrain::dist2_fx(e.1, point);
            scratch.push((d, e.0, i));
            i = i + 1;
        }
        let m = if n <= len {
            n
        } else {
            len
        };
        let mut out: Vec<Neighbor> = Vec::new();
        let ghost gsel: Seq<int> = Seq::empty();
        let mut sel: Ghost<Seq<int>> = Ghost(gsel);
        let mut t: usize = 0;
        proof {
            assert forall|j: int| 0 <= j < len implies #[trigger] covered(
                sel@,
                scratch@,
                j,
            ) by {
                assert((scratch@[j]).2 == j);
            }
        }
        while t < m
            invariant
                entries_wf(list@),
                fp_in_range(point.0) && fp_in_range(point.1) && fp_in_range(point.2),
                m <= len == list@.len(),
                t <= m,
                out@.len() == t,
                sel@.len() == t,
                scratch@.len() == len - t,
                // Scratch entries stay faithful to the source list.
                forall|k: int|
                    0 <= k < scratch@.len() ==> 0 <= (#[trigger] scratch@[k]).2 < len
                        && scratch@[k].1 == list@[scratch@[k].2 as int].0 && scratch@[k].0
                        == dist2(list@[scratch@[k].2 as int].1, point),
                // Selected source indices are in range and faithful.
                forall|k: int|
                    0 <= k < t ==> 0 <= #[trigger] sel@[k] < len && out@[k].1
                        == list@[sel@[k]].0 && out@[k].0 == dist2(list@[sel@[k]].1, point),
                // Each source index sits either in the selection or in the
                // scratch, never both.
                forall|k1: int, k2: int|
                    0 <= k1 < t && 0 <= k2 < scratch@.len() ==> #[trigger] sel@[k1]
                        != (#[trigger] scratch@[k2]).2,
                forall|k1: int, k2: int| 0 <= k1 < k2 < t ==> #[trigger] sel@[k1] != #[trigger] sel@[k2],
                forall|k1: int, k2: int|
                    0 <= k1 < k2 < scratch@.len() ==> (#[trigger] scratch@[k1]).2
                        != (#[trigger] scratch@[k2]).2,
                forall|j: int| 0 <= j < len ==> #[trigger] covered(sel@, scratch@, j),
                // Sorted output, each at most every remaining distance.
                forall|k: int| 0 <= k < t - 1 ==> (#[trigger] out@[k]).0 <= out@[k + 1].0,
                forall|k1: int, k2: int|
                    0 <= k1 < t && 0 <= k2 < scratch@.len() ==> (#[trigger] out@[k1]).0
                        <= (#[trigger] scratch@[k2]).0,
            decreases m - t,
        {
            // Find a minimum-distance scratch entry.
            let mut q: usize = 0;
            let mut qi: usize = 1;
            while qi < scratch.len()
                invariant
                    scratch@.len() >= 1,
                    qi <= scratch@.len(),
                    q < scratch@.len(),
                    forall|k: int| 0 <= k < qi ==> (#[trigger] scratch@[q as int]).0
                        <= (#[trigger] scratch@[k]).0,
                decreases scratch@.len() - qi,
            {
                if scratch[qi].0 < scratch[q].0 {
                    q = qi;
                }
                qi = qi + 1;
            }
            let picked = scratch[q];
            let ghost scratch_before = scratch@;
            let ghost sel_before = sel@;
            scratch.swap_remove(q);
            proof {
                assert forall|k: int| 0 <= k < scratch@.len() implies exists|k0: int|
                    0 <= k0 < scratch_before.len() && k0 != q && #[trigger] scratch@[k]
                        == scratch_before[k0] by {
                    if k == q && q < scratch@.len() {
                        assert(scratch@[k] == scratch_before[scratch_before.len() - 1]);
                    } else {
                        assert(scratch@[k] == scratch_before[k]);
                    }
                }
            }
            out.push((picked.0, picked.1));
            proof {
                sel@ = sel@.push(picked.2 as int);
            }
            t = t + 1;
            proof {
                assert forall|j: int| 0 <= j < len implies #[trigger] covered(
                    sel@,
                    scratch@,
                    j,
                ) by {
                    assert(covered(sel_before, scratch_before, j));
                    if j == picked.2 {
                        assert(sel@[t - 1] == j);
                    } else if exists|k: int| 0 <= k < sel_before.len() && #[trigger] sel_before[k]
                        == j {
                        let k = choose|k: int|
                            0 <= k < sel_before.len() && #[trigger] sel_before[k] == j;
                        assert(sel@[k] == j);
                    } else {
                        let k0 = choose|k: int|
                            0 <= k < scratch_before.len() && (#[trigger] scratch_before[k]).2
                                == j;
                        if k0 == q {
                            assert(picked.2 == j);
                            assert(false);
                        } else if k0 == scratch_before.len() - 1 {
                            assert(q < scratch@.len());
                            assert(scratch@[q as int] == scratch_before[k0]);
                            assert((scratch@[q as int]).2 == j);
                        } else {
                            assert(scratch@[k0] == scratch_before[k0]);
                            assert((scratch@[k0]).2 == j);
                        }
                    }
                }
            }
        }
        proof {
            assert forall|j: int, k: int|
                #![trigger out@[k], dist2(list@[j].1, point)]
                0 <= j < list@.len() && 0 <= k < sel@.len() && (forall|t2: int|
                    0 <= t2 < sel@.len() ==> #[trigger] sel@[t2] != j) implies out@[k].0 <= dist2(
                list@[j].1,
                point,
            ) by {
                assert(covered(sel@, scratch@, j));
                let k2 = choose|k2: int|
                    0 <= k2 < scratch@.len() && (#[trigger] scratch@[k2]).2 == j;
                assert(out@[k].0 <= scratch@[k2].0);
                assert(scratch@[k2].0 == dist2(list@[j].1, point));
            }
            assert(selection_ok(list@, point, out@, sel@));
            assert(is_nearest(list@, point, n as int, out@));
        }
        out
    }
}

/// `nb` reports a real entry of the partition other than the one at
/// `self_idx`, with its true distance to the query point.
pub open spec fn is_other_entry(
    list: Seq<Entry>,
    point: (i64, i64, i64),
    self_idx: int,
    nb: Neighbor,
) -> bool {
    exists|j: int|
        0 <= j < list.len() && j != self_idx && nb.1 == (#[trigger] list[j]).0 && nb.0 == dist2(
            list[j].1,
            point,
        )
}

/// Squared Euclidean distance is non-negative, and zero exactly between
/// equal points.
pub proof fn lemma_dist2_zero(a: (i64, i64, i64), b: (i64, i64, i64))
    ensures
        dist2(a, b) >= 0,
        dist2(a, b) == 0 <==> a == b,
{
    let dx = a.0 - b.0;
    let dy = a.1 - b.1;
    let dz = a.2 - b.2;
    assert(dx * dx >= 0 && dy * dy >= 0 && dz * dz >= 0 && (dx * dx == 0 ==> dx == 0) && (dy * dy
        == 0 ==> dy == 0) && (dz * dz == 0 ==> dz == 0) && (dx == 0 ==> dx * dx == 0) && (dy == 0
        ==> dy * dy == 0) && (dz == 0 ==> dz * dz == 0)) by (nonlinear_arith);
}

/// Searching from one of several distinctly-positioned inserted points
/// yields at most `count` of the OTHER points: the exact self-match is the
/// dropped first result, every returned neighbor is a different inserted
/// entry at strictly positive distance, and the results come sorted by
/// ascending distance.
pub proof fn lemma_search_excludes_self(
    list: Seq<Entry>,
    point: (i64, i64, i64),
    count: int,
    r: Seq<Neighbor>,
    self_idx: int,
)
    requires
        count >= 0,
        search_result(list, point, count, r),
        0 <= self_idx < list.len(),
        list[self_idx].1 == point,
        forall|i: int, j: int| 0 <= i < j < list.len() ==> (#[trigger] list[i]).1 != (#[trigger] list[j]).1,
    ensures
        r.len() <= count,
        forall|k: int| 0 <= k < r.len() - 1 ==> (#[trigger] r[k]).0 <= r[k + 1].0,
        forall|k: int| 0 <= k < r.len() ==> (#[trigger] r[k]).0 > 0,
        forall|k: int| 0 <= k < r.len() ==> is_other_entry(list, point, self_idx, #[trigger] r[k]),
{
    let full = choose|full: Seq<Neighbor>|
        #[trigger] is_nearest(list, point, count + 1, full) && r == if full.len() == 0 {
            full
        } else {
            full.drop_first()
        };
    assert(full.len() >= 1);
    let sel = choose|sel: Seq<int>| selection_ok(list, point, full, sel);
    // The self entry is selected: otherwise everything selected would sit
    // at distance zero, on the self entry's position.
    assert(exists|t: int| 0 <= t < sel.len() && #[trigger] sel[t] == self_idx) by {
        if forall|t: int| 0 <= t < sel.len() ==> #[trigger] sel[t] != self_idx {
            assert(full[0].0 <= dist2(list[self_idx].1, point));
            lemma_dist2_zero(list[self_idx].1, point);
            lemma_dist2_zero(list[sel[0]].1, point);
            assert(full[0].0 == dist2(list[sel[0]].1, point) >= 0);
            assert(list[sel[0]].1 == point);
            if sel[0] < self_idx {
                assert(list[sel[0]].1 != list[self_idx].1);
            } else {
                assert(list[self_idx].1 != list[sel[0]].1);
            }
            assert(false);
        }
    }
    let tstar = choose|t: int| 0 <= t < sel.len() && #[trigger] sel[t] == self_idx;
    lemma_dist2_zero(list[self_idx].1, point);
    assert(full[tstar].0 == 0);
    // The first result is the self entry: it is sorted to the front.
    assert(full[0].0 == 0) by {
        lemma_dist2_zero(list[sel[0]].1, point);
        if tstar > 0 {
            lemma_sorted_prefix(full, 0, tstar);
        }
    }
    assert(sel[0] == self_idx) by {
        lemma_dist2_zero(list[sel[0]].1, point);
        assert(list[sel[0]].1 == point);
        if sel[0] < self_idx {
            assert(list[sel[0]].1 != list[self_idx].1);
            assert(false);
        } else if sel[0] > self_idx {
            assert(list[self_idx].1 != list[sel[0]].1);
            assert(false);
        }
    }
    assert(r == full.drop_first());
    assert forall|k: int| 0 <= k < r.len() implies is_other_entry(
        list,
        point,
        self_idx,
        #[trigger] r[k],
    ) by {
        assert(r[k] == full[k + 1]);
        let j = sel[k + 1];
        assert(sel[0] != sel[k + 1]);
        assert(0 <= j < list.len() && j != self_idx && r[k].1 == list[j].0 && r[k].0 == dist2(
            list[j].1,
            point,
        ));
    }
    assert forall|k: int| 0 <= k < r.len() implies (#[trigger] r[k]).0 > 0 by {
        assert(r[k] == full[k + 1]);
        let j = sel[k + 1];
        assert(sel[0] != sel[k + 1]);
        lemma_dist2_zero(list[j].1, point);
        if j < self_idx {
            assert(list[j].1 != list[self_idx].1);
        } else {
            assert(list[self_idx].1 != list[j].1);
        }
    }
    assert forall|k: int| 0 <= k < r.len() - 1 implies (#[trigger] r[k]).0 <= r[k + 1].0 by {
        assert(r[k] == full[k + 1] && r[k + 1] == full[k + 2]);
    }
}

/// In a sorted neighbor list, earlier entries are no farther.
proof fn lemma_sorted_prefix(full: Seq<Neighbor>, i: int, j: int)
    requires
        forall|k: int| 0 <= k < full.len() - 1 ==> (#[trigger] full[k]).0 <= full[k + 1].0,
        0 <= i <= j < full.len(),
    ensures
        full[i].0 <= full[j].0,
    decreases j - i,
{
    if i < j {
        lemma_sorted_prefix(full, i, j - 1);
        assert(full[j - 1].0 <= full[j].0);
    }
}

} // verus!
