//! The calibration landmarks: four corners and the points placed on the
//! edges between them.
//!
//! Where a landmark lies is left to the holder of the calibration: the
//! place `P` of a landmark is carried along untouched. An edge point is
//! ordered by its edge and by a key that grows with its position along
//! the edge.

use vstd::prelude::*;
use crate::stable_sort::{
    lemma_stable_sorted_is_ordered, lemma_stable_sorted_permutes, lemma_stable_sorted_rearranges,
    ordered_by_rank, sort_stable, stable_sorted, Ranked,
};

verus! {

/// The first identifier given to an edge point; smaller ones are kept for
/// the corners.
pub const FIRST_EDGE_POINT_ID: usize = 100;

/// The identifier that a calibration without edge points gives out next.
pub fn default_next_id() -> (id: usize)
    ensures
        id == FIRST_EDGE_POINT_ID,
{
    FIRST_EDGE_POINT_ID
}

/// Kind of a landmark.
#[derive(Debug, Clone, Copy, PartialEq, Eq, Structural)]
pub enum PointType {
    Corner,
    Edge,
}

/// A landmark on one of the four edges.
#[derive(Debug, Clone, Copy)]
pub struct EdgePoint<P> {
    /// Identifier, never given out twice.
    pub id: usize,
    /// The edge it lies on: 0 top, 1 right, 2 bottom, 3 left.
    pub edge: usize,
    /// Key of its position along the edge, growing from the edge's first
    /// corner to its second.
    pub t_key: u64,
    /// Where it lies.
    pub place: P,
}

impl<P> EdgePoint<P> {
    /// A point with the given identifier, edge, position key and place.
    pub fn new(id: usize, edge: usize, t_key: u64, place: P) -> (r: Self)
        ensures
            r == (EdgePoint { id, edge, t_key, place }),
    {
        EdgePoint { id, edge, t_key, place }
    }
}

impl<P> Ranked for EdgePoint<P> {
    /// By edge, then by position along it.
    open spec fn rank(&self) -> (int, int) {
        (self.edge as int, self.t_key as int)
    }

    fn rank_of(&self) -> (r: (u64, u64)) {
        (self.edge as u64, self.t_key)
    }
}

/// Whether no identifier occurs twice.
pub open spec fn distinct_ids<P>(points: Seq<EdgePoint<P>>) -> bool {
    forall|i: int, j: int|
        0 <= i < j < points.len() ==> (#[trigger] points[i]).id != (#[trigger] points[j]).id
}

/// Whether every point is one that a counter now at `next_id` gave out,
/// and lies on one of the four edges.
pub open spec fn points_valid<P>(points: Seq<EdgePoint<P>>, next_id: usize) -> bool {
    forall|i: int|
        0 <= i < points.len() ==> FIRST_EDGE_POINT_ID <= (#[trigger] points[i]).id < next_id
            && points[i].edge <= 3
}

/// Position of the first point with the identifier, or the length where
/// there is none.
pub open spec fn position_of_id<P>(points: Seq<EdgePoint<P>>, id: usize) -> int
    decreases points.len(),
{
    if points.len() == 0 {
        0
    } else if points[0].id == id {
        0
    } else {
        1 + position_of_id(points.skip(1), id)
    }
}

/// `position_of_id` names the first point with the identifier.
pub proof fn lemma_position_of_id<P>(points: Seq<EdgePoint<P>>, id: usize)
    ensures
        0 <= position_of_id(points, id) <= points.len(),
        position_of_id(points, id) < points.len() ==> points[position_of_id(points, id)].id == id,
        forall|j: int| 0 <= j < position_of_id(points, id) ==> (#[trigger] points[j]).id != id,
    decreases points.len(),
{
    if points.len() > 0 && points[0].id != id {
        let rest = points.skip(1);
        lemma_position_of_id(rest, id);
        assert forall|j: int| 0 <= j < position_of_id(points, id) implies (#[trigger] points[j]).id
            != id by {
            if j > 0 {
                assert(points[j] == rest[j - 1]);
            }
        }
    }
}

/// A point with the identifier before which none has it is the one that
/// `position_of_id` gives; so is the length where none has it.
pub proof fn lemma_position_of_id_is<P>(points: Seq<EdgePoint<P>>, id: usize, at: int)
    requires
        0 <= at <= points.len(),
        at < points.len() ==> points[at].id == id,
        forall|j: int| 0 <= j < at ==> (#[trigger] points[j]).id != id,
    ensures
        position_of_id(points, id) == at,
{
    lemma_position_of_id(points, id);
    let p = position_of_id(points, id);
    if p < at {
        assert(points[p].id != id);
    }
}

/// Sorting keeps identifiers distinct and points valid.
pub proof fn lemma_sorted_points_stay_valid<P>(points: Seq<EdgePoint<P>>, next_id: usize)
    requires
        distinct_ids(points),
        points_valid(points, next_id),
    ensures
        distinct_ids(stable_sorted(points)),
        points_valid(stable_sorted(points), next_id),
        stable_sorted(points).len() == points.len(),
{
    let from = lemma_stable_sorted_rearranges(points);
    let sorted = stable_sorted(points);
    assert forall|i: int| 0 <= i < sorted.len() implies FIRST_EDGE_POINT_ID <= (
    #[trigger] sorted[i]).id < next_id && sorted[i].edge <= 3 by {
        assert(sorted[i] == points[from[i]]);
    }
    assert forall|i: int, j: int| 0 <= i < j < sorted.len() implies (#[trigger] sorted[i]).id != (
    #[trigger] sorted[j]).id by {
        assert(sorted[i] == points[from[i]] && sorted[j] == points[from[j]]);
        assert(from[i] != from[j]);
        if from[i] < from[j] {
            assert(points[from[i]].id != points[from[j]].id);
        } else {
            assert(points[from[j]].id != points[from[i]].id);
        }
    }
}

/// Whether the points of each edge come in the order of their position
/// along it.
pub open spec fn sorted_within_edges<P>(points: Seq<EdgePoint<P>>) -> bool {
    forall|a: int, b: int|
        0 <= a < b < points.len() && (#[trigger] points[a]).edge == (#[trigger] points[b]).edge
            ==> points[a].t_key <= points[b].t_key
}

/// Points ordered by rank are grouped by edge, and on each edge they come
/// in the order of their position along it. This holds of the points of a
/// calibration after every `add_edge_point`.
pub proof fn lemma_ordered_points<P>(points: Seq<EdgePoint<P>>)
    requires
        ordered_by_rank(points),
    ensures
        sorted_within_edges(points),
        forall|a: int, b: int|
            0 <= a < b < points.len() ==> (#[trigger] points[a]).edge <= (#[trigger] points[b]).edge,
{
    assert forall|a: int, b: int|
        0 <= a < b < points.len() && (#[trigger] points[a]).edge == (
        #[trigger] points[b]).edge implies points[a].t_key <= points[b].t_key by {
        assert(!crate::stable_sort::ranks_after(points[a].rank(), points[b].rank()));
    }
    assert forall|a: int, b: int| 0 <= a < b < points.len() implies (#[trigger] points[a]).edge <= (
    #[trigger] points[b]).edge by {
        assert(!crate::stable_sort::ranks_after(points[a].rank(), points[b].rank()));
    }
}

/// The landmarks of a calibration.
#[derive(Debug, Clone)]
pub struct Calibration<P> {
    /// Top left, top right, bottom right, bottom left.
    pub corners: [P; 4],
    /// The points on the edges.
    pub edge_points: Vec<EdgePoint<P>>,
    /// The identifier that the next new edge point gets.
    pub next_edge_point_id: usize,
    /// Whether the calibration is applied.
    pub enabled: bool,
}

/// What an update by identifier changed.
#[derive(Debug, Clone, Copy, PartialEq, Eq, Structural)]
pub enum Updated {
    /// One of the four corners.
    Corner,
    /// An edge point.
    Edge,
    /// Nothing: no landmark has the identifier.
    Nothing,
}

impl<P: Copy> Calibration<P> {
    /// The invariant of a calibration: the counter is at 100 or beyond
    /// and past every identifier in use, no identifier is in use twice,
    /// every edge point lies on one of the four edges, and the points of
    /// each edge come in the order of their position along it.
    pub open spec fn well_formed(&self) -> bool {
        &&& self.next_edge_point_id >= FIRST_EDGE_POINT_ID
        &&& points_valid(self.edge_points@, self.next_edge_point_id)
        &&& distinct_ids(self.edge_points@)
        &&& sorted_within_edges(self.edge_points@)
    }

    /// A calibration with the given corners and no edge points, switched
    /// on.
    pub fn new(corners: [P; 4]) -> (c: Self)
        ensures
            c.corners == corners,
            c.edge_points@.len() == 0,
            c.next_edge_point_id == FIRST_EDGE_POINT_ID,
            c.enabled,
            c.well_formed(),
    {
        Calibration { corners, edge_points: Vec::new(), next_edge_point_id: FIRST_EDGE_POINT_ID, enabled: true }
    }

    /// Checks the invariant, for a calibration that comes from outside.
    pub fn is_well_formed(&self) -> (ok: bool)
        ensures
            ok == self.well_formed(),
    {
        if self.next_edge_point_id < FIRST_EDGE_POINT_ID {
            return false;
        }
        let n: usize = self.edge_points.len();
        let mut i: usize = 0;
        while i < n
            invariant
                i <= n,
                n == self.edge_points@.len(),
                self.next_edge_point_id >= FIRST_EDGE_POINT_ID,
                points_valid(self.edge_points@.take(i as int), self.next_edge_point_id),
                distinct_ids(self.edge_points@.take(i as int)),
                sorted_within_edges(self.edge_points@.take(i as int)),
            decreases n - i,
        {
            let p = self.edge_points[i];
            if p.id < FIRST_EDGE_POINT_ID || p.id >= self.next_edge_point_id || p.edge > 3 {
                assert(!points_valid(self.edge_points@, self.next_edge_point_id));
                return false;
            }
            let mut j: usize = 0;
            while j < i
                invariant
                    j <= i,
                    i < n,
                    n == self.edge_points@.len(),
                    p == self.edge_points@[i as int],
                    forall|k: int| 0 <= k < j ==> (#[trigger] self.edge_points@[k]).id != p.id,
                    forall|k: int|
                        0 <= k < j && (#[trigger] self.edge_points@[k]).edge == p.edge
                            ==> self.edge_points@[k].t_key <= p.t_key,
                decreases i - j,
            {
                let q = self.edge_points[j];
                if q.id == p.id {
                    assert(!distinct_ids(self.edge_points@));
                    return false;
                }
                if q.edge == p.edge && q.t_key > p.t_key {
                    assert(!sorted_within_edges(self.edge_points@));
                    return false;
                }
                j += 1;
            }
            proof {
                let upto = self.edge_points@.take(i + 1);
                let prev = self.edge_points@.take(i as int);
                assert forall|a: int| 0 <= a < upto.len() implies FIRST_EDGE_POINT_ID <= (
                #[trigger] upto[a]).id < self.next_edge_point_id && upto[a].edge <= 3 by {
                    if a < i {
                        assert(upto[a] == prev[a]);
                    }
                }
                assert forall|a: int, b: int| 0 <= a < b < upto.len() implies (#[trigger] upto[a]).id
                    != (#[trigger] upto[b]).id by {
                    if b < i {
                        assert(upto[a] == prev[a] && upto[b] == prev[b]);
                    } else {
                        assert(upto[a] == self.edge_points@[a]);
                    }
                }
                assert forall|a: int, b: int|
                    0 <= a < b < upto.len() && (#[trigger] upto[a]).edge == (
                    #[trigger] upto[b]).edge implies upto[a].t_key <= upto[b].t_key by {
                    if b < i {
                        assert(upto[a] == prev[a] && upto[b] == prev[b]);
                    } else {
                        assert(upto[a] == self.edge_points@[a]);
                    }
                }
            }
            i += 1;
        }
        assert(self.edge_points@.take(n as int) =~= self.edge_points@);
        true
    }

    /// Position of the first edge point with the identifier.
    pub fn find_edge_point(&self, id: usize) -> (at: Option<usize>)
        ensures
            match at {
                Some(i) => i as int == position_of_id(self.edge_points@, id) && i
                    < self.edge_points@.len(),
                None => position_of_id(self.edge_points@, id) == self.edge_points@.len(),
            },
    {
        let n: usize = self.edge_points.len();
        let mut i: usize = 0;
        while i < n
            invariant
                i <= n,
                n == self.edge_points@.len(),
                forall|j: int| 0 <= j < i ==> (#[trigger] self.edge_points@[j]).id != id,
            decreases n - i,
        {
            if self.edge_points[i].id == id {
                proof {
                    lemma_position_of_id_is(self.edge_points@, id, i as int);
                }
                return Some(i);
            }
            i += 1;
        }
        proof {
            lemma_position_of_id_is(self.edge_points@, id, n as int);
        }
        None
    }

    /// The edge on which the point with the identifier lies.
    pub fn edge_of(&self, id: usize) -> (edge: Option<usize>)
        ensures
            edge == if position_of_id(self.edge_points@, id) < self.edge_points@.len() {
                Some(self.edge_points@[position_of_id(self.edge_points@, id)].edge)
            } else {
                None
            },
    {
        match self.find_edge_point(id) {
            Some(i) => Some(self.edge_points[i].edge),
            None => None,
        }
    }

    /// Adds a point on an edge and returns its identifier, the next of
    /// the counter. The points are then sorted by edge and by position
    /// along the edge, points of equal rank staying in the order they had.
    pub fn add_edge_point(&mut self, edge: usize, t_key: u64, place: P) -> (id: usize)
        requires
            old(self).well_formed(),
            edge <= 3,
            old(self).next_edge_point_id < usize::MAX,
        ensures
            id == old(self).next_edge_point_id,
            id >= FIRST_EDGE_POINT_ID,
            forall|i: int| 0 <= i < old(self).edge_points@.len() ==> (#[trigger] old(self).edge_points@[i]).id < id,
            final(self).next_edge_point_id == id + 1,
            final(self).edge_points@ == stable_sorted(
                old(self).edge_points@.push(EdgePoint { id, edge, t_key, place }),
            ),
            final(self).edge_points@.len() == old(self).edge_points@.len() + 1,
            final(self).edge_points@.to_multiset() == old(self).edge_points@.to_multiset().insert(
                EdgePoint { id, edge, t_key, place },
            ),
            ordered_by_rank(final(self).edge_points@),
            sorted_within_edges(final(self).edge_points@),
            final(self).corners == old(self).corners,
            final(self).enabled == old(self).enabled,
            final(self).well_formed(),
    {
        let id = self.next_edge_point_id;
        self.next_edge_point_id = id + 1;
        let mut points: Vec<EdgePoint<P>> = Vec::new();
        core::mem::swap(&mut points, &mut self.edge_points);
        let ghost before = points@;
        points.push(EdgePoint { id, edge, t_key, place });
        proof {
            let all = points@;
            assert forall|i: int| 0 <= i < all.len() implies FIRST_EDGE_POINT_ID <= (#[trigger] all[i]).id
                < id + 1 && all[i].edge <= 3 by {
                if i < before.len() {
                    assert(all[i] == before[i]);
                }
            }
            assert forall|i: int, j: int| 0 <= i < j < all.len() implies (#[trigger] all[i]).id != (
            #[trigger] all[j]).id by {
                assert(all[i] == before[i]);
                if j < before.len() {
                    assert(all[j] == before[j]);
                }
            }
            lemma_sorted_points_stay_valid(all, (id + 1) as usize);
            lemma_stable_sorted_is_ordered(all);
            lemma_ordered_points(stable_sorted(all));
            lemma_stable_sorted_permutes(all);
            vstd::seq_lib::to_multiset_build(before, EdgePoint { id, edge, t_key, place });
        }
        self.edge_points = sort_stable(points);
        id
    }

    /// Removes every edge point with the identifier and says whether
    /// there was one. The counter stays where it is, so the identifier is
    /// not given out again.
    pub fn remove_edge_point(&mut self, id: usize) -> (removed: bool)
        ensures
            final(self).edge_points@ == old(self).edge_points@.filter(|p: EdgePoint<P>| p.id != id),
            removed == (final(self).edge_points@.len() < old(self).edge_points@.len()),
            removed == (position_of_id(old(self).edge_points@, id) < old(self).edge_points@.len()),
            forall|i: int| 0 <= i < final(self).edge_points@.len() ==> (#[trigger] final(self).edge_points@[i]).id != id,
            final(self).next_edge_point_id == old(self).next_edge_point_id,
            final(self).corners == old(self).corners,
            final(self).enabled == old(self).enabled,
            old(self).well_formed() ==> final(self).well_formed(),
    {
        let ghost keep = |p: EdgePoint<P>| p.id != id;
        let ghost all = self.edge_points@;
        let mut kept: Vec<EdgePoint<P>> = Vec::new();
        let n: usize = self.edge_points.len();
        let mut i: usize = 0;
        let ghost origin: Seq<int> = Seq::empty();
        assert(all.take(0).filter(keep) =~= Seq::<EdgePoint<P>>::empty());
        while i < n
            invariant
                i <= n,
                n == all.len(),
                all == self.edge_points@,
                keep == (|p: EdgePoint<P>| p.id != id),
                kept@ == all.take(i as int).filter(keep),
                kept@.len() <= i,
                (kept@.len() == i) == (forall|j: int| 0 <= j < i ==> (#[trigger] all[j]).id != id),
                origin.len() == kept@.len(),
                forall|k: int|
                    0 <= k < origin.len() ==> 0 <= #[trigger] origin[k] < i && kept@[k] == all[origin[k]],
                forall|a: int, b: int|
                    0 <= a < b < origin.len() ==> #[trigger] origin[a] < #[trigger] origin[b],
                forall|k: int| 0 <= k < kept@.len() ==> (#[trigger] kept@[k]).id != id,
            decreases n - i,
        {
            let p = self.edge_points[i];
            proof {
                let upto = all.take(i + 1);
                assert(upto.drop_last() =~= all.take(i as int));
                assert(upto.last() == p);
                reveal(Seq::filter);
            }
            if p.id != id {
                kept.push(p);
                proof {
                    origin = origin.push(i as int);
                }
            }
            i += 1;
        }
        proof {
            assert(all.take(n as int) =~= all);
            lemma_position_of_id(all, id);
            if kept@.len() == n {
                lemma_position_of_id_is(all, id, n as int);
            }
            if self.well_formed() {
                assert forall|a: int, b: int| 0 <= a < b < kept@.len() implies (#[trigger] kept@[a]).id != (
                #[trigger] kept@[b]).id by {
                    assert(kept@[a] == all[origin[a]] && kept@[b] == all[origin[b]]);
                }
                assert forall|k: int| 0 <= k < kept@.len() implies FIRST_EDGE_POINT_ID <= (
                #[trigger] kept@[k]).id < self.next_edge_point_id && kept@[k].edge <= 3 by {
                    assert(kept@[k] == all[origin[k]]);
                }
                assert forall|a: int, b: int|
                    0 <= a < b < kept@.len() && (#[trigger] kept@[a]).edge == (
                    #[trigger] kept@[b]).edge implies kept@[a].t_key <= kept@[b].t_key by {
                    assert(kept@[a] == all[origin[a]] && kept@[b] == all[origin[b]]);
                    assert(origin[a] < origin[b]);
                }
            }
        }
        self.edge_points = kept;
        self.edge_points.len() < n
    }

    /// Moves the first edge point with the identifier: it gets a new
    /// position key and place, and the points are sorted again by edge
    /// and by position along the edge, as after `add_edge_point`. Says
    /// whether there is such a point; where there is none, nothing
    /// changes.
    pub fn update_edge_point(&mut self, id: usize, t_key: u64, place: P) -> (found: bool)
        ensures
            found == (position_of_id(old(self).edge_points@, id) < old(self).edge_points@.len()),
            final(self).edge_points@ == after_move(old(self).edge_points@, id, t_key, place),
            final(self).edge_points@.len() == old(self).edge_points@.len(),
            found ==> ordered_by_rank(final(self).edge_points@) && sorted_within_edges(
                final(self).edge_points@,
            ),
            final(self).next_edge_point_id == old(self).next_edge_point_id,
            final(self).corners == old(self).corners,
            final(self).enabled == old(self).enabled,
            old(self).well_formed() ==> final(self).well_formed(),
    {
        match self.find_edge_point(id) {
            Some(i) => {
                let ghost before = self.edge_points@;
                let mut points: Vec<EdgePoint<P>> = Vec::new();
                core::mem::swap(&mut points, &mut self.edge_points);
                let p = points[i];
                points.set(i, EdgePoint { id: p.id, edge: p.edge, t_key, place });
                proof {
                    let changed = points@;
                    assert(changed =~= moved(before, i as int, t_key, place));
                    lemma_stable_sorted_is_ordered(changed);
                    lemma_ordered_points(stable_sorted(changed));
                    if old(self).well_formed() {
                        assert forall|a: int, b: int| 0 <= a < b < changed.len() implies (
                        #[trigger] changed[a]).id != (#[trigger] changed[b]).id by {
                            assert(changed[a].id == before[a].id && changed[b].id == before[b].id);
                        }
                        assert forall|k: int| 0 <= k < changed.len() implies FIRST_EDGE_POINT_ID <= (
                        #[trigger] changed[k]).id < self.next_edge_point_id && changed[k].edge
                            <= 3 by {
                            assert(changed[k].id == before[k].id && changed[k].edge == before[k].edge);
                        }
                        lemma_sorted_points_stay_valid(changed, self.next_edge_point_id);
                    }
                }
                self.edge_points = sort_stable(points);
                true
            },
            None => false,
        }
    }

    /// Puts the edge points in order by edge and by position along the
    /// edge, points of equal rank staying in the order they had. For a
    /// calibration that comes from outside and may hold them in any
    /// order.
    pub fn restore_order(&mut self)
        ensures
            final(self).edge_points@ == stable_sorted(old(self).edge_points@),
            final(self).edge_points@.to_multiset() == old(self).edge_points@.to_multiset(),
            sorted_within_edges(final(self).edge_points@),
            final(self).next_edge_point_id == old(self).next_edge_point_id,
            final(self).corners == old(self).corners,
            final(self).enabled == old(self).enabled,
            old(self).next_edge_point_id >= FIRST_EDGE_POINT_ID && points_valid(
                old(self).edge_points@,
                old(self).next_edge_point_id,
            ) && distinct_ids(old(self).edge_points@) ==> final(self).well_formed(),
    {
        let mut points: Vec<EdgePoint<P>> = Vec::new();
        core::mem::swap(&mut points, &mut self.edge_points);
        proof {
            let all = points@;
            let sorted = stable_sorted(all);
            lemma_stable_sorted_is_ordered(all);
            lemma_ordered_points(sorted);
            lemma_stable_sorted_permutes(all);
            if points_valid(all, self.next_edge_point_id) && distinct_ids(all) {
                lemma_sorted_points_stay_valid(all, self.next_edge_point_id);
            }
        }
        self.edge_points = sort_stable(points);
    }

    /// The points on one edge, sorted by position along it.
    pub fn get_edge_points(&self, edge: usize) -> (points: Vec<EdgePoint<P>>)
        ensures
            points@ == stable_sorted(self.edge_points@.filter(|p: EdgePoint<P>| p.edge == edge)),
            ordered_by_rank(points@),
    {
        let ghost keep = |p: EdgePoint<P>| p.edge == edge;
        let mut on_edge: Vec<EdgePoint<P>> = Vec::new();
        let n: usize = self.edge_points.len();
        let mut i: usize = 0;
        assert(self.edge_points@.take(0).filter(keep) =~= Seq::<EdgePoint<P>>::empty());
        while i < n
            invariant
                i <= n,
                n == self.edge_points@.len(),
                keep == (|p: EdgePoint<P>| p.edge == edge),
                on_edge@ == self.edge_points@.take(i as int).filter(keep),
            decreases n - i,
        {
            let p = self.edge_points[i];
            proof {
                let upto = self.edge_points@.take(i + 1);
                assert(upto.drop_last() =~= self.edge_points@.take(i as int));
                assert(upto.last() == p);
                reveal(Seq::filter);
            }
            if p.edge == edge {
                on_edge.push(p);
            }
            i += 1;
        }
        proof {
            assert(self.edge_points@.take(n as int) =~= self.edge_points@);
            lemma_stable_sorted_is_ordered(on_edge@);
        }
        sort_stable(on_edge)
    }
}

/// The points after the first with the identifier is moved: it has its
/// new position key and place and the points are sorted again. Without
/// such a point they are as they were.
pub open spec fn after_move<P>(points: Seq<EdgePoint<P>>, id: usize, t_key: u64, place: P) -> Seq<
    EdgePoint<P>,
> {
    let at = position_of_id(points, id);
    if at < points.len() {
        stable_sorted(moved(points, at, t_key, place))
    } else {
        points
    }
}

/// A sequence of points in which the one at `at` has a new position key
/// and place; a position outside the sequence leaves it as it is.
pub open spec fn moved<P>(points: Seq<EdgePoint<P>>, at: int, t_key: u64, place: P) -> Seq<EdgePoint<P>> {
    if 0 <= at < points.len() {
        points.update(at, EdgePoint { id: points[at].id, edge: points[at].edge, t_key, place })
    } else {
        points
    }
}

/// A landmark as shown to an operator.
#[derive(Debug, Clone)]
pub struct CalibrationPoint<P> {
    pub id: usize,
    pub point_type: PointType,
    /// Name for people.
    pub label: String,
    /// Where it lies.
    pub place: P,
    /// For an edge point, the edge it lies on.
    pub edge: Option<usize>,
}

impl<P> CalibrationPoint<P> {
    /// A corner as shown to an operator.
    pub fn corner(id: usize, label: &str, place: P) -> (r: Self)
        ensures
            r.id == id,
            r.point_type == PointType::Corner,
            r.label@ == label@,
            r.place == place,
            r.edge.is_none(),
    {
        CalibrationPoint {
            id,
            point_type: PointType::Corner,
            label: String::from_str(label),
            place,
            edge: None,
        }
    }

    /// An edge point as shown to an operator.
    pub fn edge(id: usize, label: &str, place: P, edge_idx: usize) -> (r: Self)
        ensures
            r.id == id,
            r.point_type == PointType::Edge,
            r.label@ == label@,
            r.place == place,
            r.edge == Some(edge_idx),
    {
        CalibrationPoint {
            id,
            point_type: PointType::Edge,
            label: String::from_str(label),
            place,
            edge: Some(edge_idx),
        }
    }
}

/// Name of a corner, by its index.
pub open spec fn corner_label(corner: int) -> Seq<char> {
    if corner == 0 {
        "Top Left"@
    } else if corner == 1 {
        "Top Right"@
    } else if corner == 2 {
        "Bottom Right"@
    } else {
        "Bottom Left"@
    }
}

/// Name of a point on an edge, by the edge.
pub open spec fn edge_label(edge: usize) -> Seq<char> {
    if edge == 0 {
        "Top Edge"@
    } else if edge == 1 {
        "Right Edge"@
    } else if edge == 2 {
        "Bottom Edge"@
    } else if edge == 3 {
        "Left Edge"@
    } else {
        "Edge Edge"@
    }
}

fn edge_name(edge: usize) -> (r: &'static str)
    ensures
        r@ == edge_label(edge),
{
    if edge == 0 {
        "Top Edge"
    } else if edge == 1 {
        "Right Edge"
    } else if edge == 2 {
        "Bottom Edge"
    } else if edge == 3 {
        "Left Edge"
    } else {
        "Edge Edge"
    }
}

/// Whether `shown` lists the landmarks of a calibration: the corners
/// first, under the identifiers 0 to 3, then the edge points in their
/// order.
pub open spec fn shows<P>(shown: Seq<CalibrationPoint<P>>, corners: Seq<P>, points: Seq<EdgePoint<P>>) -> bool {
    &&& shown.len() == 4 + points.len()
    &&& forall|k: int|
        0 <= k < 4 ==> {
            let s = #[trigger] shown[k];
            s.id == k && s.point_type == PointType::Corner && s.label@ == corner_label(k) && s.place
                == corners[k] && s.edge.is_none()
        }
    &&& forall|i: int|
        0 <= i < points.len() ==> {
            let s = #[trigger] shown[4 + i];
            s.id == points[i].id && s.point_type == PointType::Edge && s.label@ == edge_label(
                points[i].edge,
            ) && s.place == points[i].place && s.edge == Some(points[i].edge)
        }
}

/// The landmarks of a calibration as shown to an operator.
pub fn calibration_to_ui_points<P: Copy>(cal: &Calibration<P>) -> (shown: Vec<CalibrationPoint<P>>)
    ensures
        shows(shown@, cal.corners@, cal.edge_points@),
{
    let mut shown: Vec<CalibrationPoint<P>> = Vec::new();
    shown.push(CalibrationPoint::corner(0, "Top Left", cal.corners[0]));
    shown.push(CalibrationPoint::corner(1, "Top Right", cal.corners[1]));
    shown.push(CalibrationPoint::corner(2, "Bottom Right", cal.corners[2]));
    shown.push(CalibrationPoint::corner(3, "Bottom Left", cal.corners[3]));
    let n: usize = cal.edge_points.len();
    let mut i: usize = 0;
    while i < n
        invariant
            i <= n,
            n == cal.edge_points@.len(),
            shows(shown@, cal.corners@, cal.edge_points@.take(i as int)),
        decreases n - i,
    {
        let p = cal.edge_points[i];
        let ghost before = shown@;
        shown.push(CalibrationPoint::edge(p.id, edge_name(p.edge), p.place, p.edge));
        proof {
            let upto = cal.edge_points@.take(i + 1);
            assert forall|k: int| 0 <= k < 4 implies {
                let s = #[trigger] shown@[k];
                s.id == k && s.point_type == PointType::Corner && s.label@ == corner_label(k)
                    && s.place == cal.corners@[k] && s.edge.is_none()
            } by {
                assert(shown@[k] == before[k]);
            }
            assert forall|j: int| 0 <= j < upto.len() implies {
                let s = #[trigger] shown@[4 + j];
                s.id == upto[j].id && s.point_type == PointType::Edge && s.label@ == edge_label(
                    upto[j].edge,
                ) && s.place == upto[j].place && s.edge == Some(upto[j].edge)
            } by {
                if j < i {
                    assert(shown@[4 + j] == before[4 + j]);
                    assert(upto[j] == cal.edge_points@.take(i as int)[j]);
                }
            }
        }
        i += 1;
    }
    assert(cal.edge_points@.take(n as int) =~= cal.edge_points@);
    shown
}

/// Moves the landmark with the identifier. The identifiers 0 to 3 are the
/// corners; any other is looked up among the edge points, for which
/// `t_key` is the new position key, and the edge points are then sorted
/// again. An identifier that no landmark has changes nothing.
pub fn update_calibration_point<P: Copy>(cal: &mut Calibration<P>, id: usize, t_key: u64, place: P) -> (updated:
    Updated)
    ensures
        final(cal).next_edge_point_id == old(cal).next_edge_point_id,
        final(cal).enabled == old(cal).enabled,
        old(cal).well_formed() ==> final(cal).well_formed(),
        id <= 3 ==> updated == Updated::Corner && final(cal).corners@ == old(cal).corners@.update(
            id as int,
            place,
        ) && final(cal).edge_points@ == old(cal).edge_points@,
        id > 3 ==> final(cal).corners == old(cal).corners && final(cal).edge_points@ == after_move(
            old(cal).edge_points@,
            id,
            t_key,
            place,
        ) && updated == if position_of_id(old(cal).edge_points@, id) < old(cal).edge_points@.len() {
            Updated::Edge
        } else {
            Updated::Nothing
        },
{
    if id <= 3 {
        cal.corners[id] = place;
        Updated::Corner
    } else if cal.update_edge_point(id, t_key, place) {
        Updated::Edge
    } else {
        Updated::Nothing
    }
}

/// Puts a calibration back to its first state: the given corners, no edge
/// points, the counter at 100, switched on.
pub fn reset_calibration<P: Copy>(cal: &mut Calibration<P>, corners: [P; 4])
    ensures
        final(cal).corners == corners,
        final(cal).edge_points@.len() == 0,
        final(cal).next_edge_point_id == FIRST_EDGE_POINT_ID,
        final(cal).enabled,
        final(cal).well_formed(),
{
    *cal = Calibration::new(corners);
}

} // verus!
