//! The four edge paths from which a warp mesh is built.
//!
//! Each edge of the calibration quad gives a path: its first corner, the
//! points placed on it in the order of their position, its second corner.
//! The paths of the bottom and left edges are turned round, so that top
//! and bottom both run left to right, and left and right both run top to
//! bottom.

use vstd::prelude::*;
use crate::calibration::{Calibration, EdgePoint};
use crate::stable_sort::stable_sorted;

verus! {

/// The corner at which an edge starts: edge 0 runs from corner 0 to 1,
/// edge 1 from 1 to 2, edge 2 from 2 to 3, edge 3 from 3 to 0.
pub open spec fn edge_start(edge: int) -> int {
    edge
}

/// The corner at which an edge ends.
pub open spec fn edge_end(edge: int) -> int {
    if edge == 3 {
        0
    } else {
        edge + 1
    }
}

/// The places of a sequence of points.
pub open spec fn places<P>(points: Seq<EdgePoint<P>>) -> Seq<P> {
    points.map_values(|p: EdgePoint<P>| p.place)
}

/// The path along an edge, from its first corner to its second.
pub open spec fn edge_path<P>(corners: Seq<P>, points: Seq<EdgePoint<P>>, edge: int) -> Seq<P> {
    seq![corners[edge_start(edge)]] + places(
        stable_sorted(points.filter(|p: EdgePoint<P>| p.edge == edge)),
    ) + seq![corners[edge_end(edge)]]
}

/// The four paths in grid direction.
pub struct GridEdges<P> {
    /// Top edge, left to right.
    pub top: Vec<P>,
    /// Bottom edge, left to right.
    pub bottom: Vec<P>,
    /// Left edge, top to bottom.
    pub left: Vec<P>,
    /// Right edge, top to bottom.
    pub right: Vec<P>,
}

impl<P> GridEdges<P> {
    /// Columns of the mesh: as many as the longer of top and bottom has
    /// points.
    pub open spec fn columns(&self) -> int {
        if self.top@.len() >= self.bottom@.len() {
            self.top@.len() as int
        } else {
            self.bottom@.len() as int
        }
    }

    /// Rows of the mesh: as many as the longer of left and right has
    /// points.
    pub open spec fn lines(&self) -> int {
        if self.left@.len() >= self.right@.len() {
            self.left@.len() as int
        } else {
            self.right@.len() as int
        }
    }

    /// Columns of the mesh.
    pub fn cols(&self) -> (n: usize)
        ensures
            n as int == self.columns(),
    {
        if self.top.len() >= self.bottom.len() {
            self.top.len()
        } else {
            self.bottom.len()
        }
    }

    /// Rows of the mesh.
    pub fn rows(&self) -> (n: usize)
        ensures
            n as int == self.lines(),
    {
        if self.left.len() >= self.right.len() {
            self.left.len()
        } else {
            self.right.len()
        }
    }
}

/// A path turned round.
pub fn reversed<P: Copy>(path: &Vec<P>) -> (r: Vec<P>)
    ensures
        r@ == path@.reverse(),
{
    let n: usize = path.len();
    let mut r: Vec<P> = Vec::new();
    let mut i: usize = 0;
    while i < n
        invariant
            i <= n,
            n == path@.len(),
            r@.len() == i,
            forall|k: int| 0 <= k < i ==> #[trigger] r@[k] == path@[n - 1 - k],
        decreases n - i,
    {
        r.push(path[n - 1 - i]);
        i += 1;
    }
    assert(r@ =~= path@.reverse());
    r
}

impl<P: Copy> Calibration<P> {
    /// The path along one edge, from its first corner to its second.
    pub fn edge_sequence(&self, edge: usize) -> (path: Vec<P>)
        requires
            edge <= 3,
        ensures
            path@ == edge_path(self.corners@, self.edge_points@, edge as int),
            path@.len() >= 2,
            path@.first() == self.corners@[edge_start(edge as int)],
            path@.last() == self.corners@[edge_end(edge as int)],
    {
        let on_edge = self.get_edge_points(edge);
        let mut path: Vec<P> = Vec::new();
        path.push(self.corners[edge]);
        let n: usize = on_edge.len();
        let mut i: usize = 0;
        while i < n
            invariant
                i <= n,
                n == on_edge@.len(),
                path@ == seq![self.corners@[edge as int]] + places(on_edge@.take(i as int)),
            decreases n - i,
        {
            path.push(on_edge[i].place);
            assert(places(on_edge@.take(i + 1)) =~= places(on_edge@.take(i as int)).push(
                on_edge@[i as int].place,
            ));
            assert(path@ =~= seq![self.corners@[edge as int]] + places(on_edge@.take(i + 1)));
            i += 1;
        }
        assert(on_edge@.take(n as int) =~= on_edge@);
        let end: usize = if edge == 3 {
            0
        } else {
            edge + 1
        };
        path.push(self.corners[end]);
        assert(path@ =~= edge_path(self.corners@, self.edge_points@, edge as int));
        path
    }

    /// The four paths of the quad, in grid direction.
    pub fn grid_edges(&self) -> (edges: GridEdges<P>)
        ensures
            edges.top@ == edge_path(self.corners@, self.edge_points@, 0),
            edges.right@ == edge_path(self.corners@, self.edge_points@, 1),
            edges.bottom@ == edge_path(self.corners@, self.edge_points@, 2).reverse(),
            edges.left@ == edge_path(self.corners@, self.edge_points@, 3).reverse(),
            edges.columns() >= 2,
            edges.lines() >= 2,
            edges.top@.first() == self.corners@[0] && edges.top@.last() == self.corners@[1],
            edges.right@.first() == self.corners@[1] && edges.right@.last() == self.corners@[2],
            edges.bottom@.first() == self.corners@[3] && edges.bottom@.last() == self.corners@[2],
            edges.left@.first() == self.corners@[0] && edges.left@.last() == self.corners@[3],
    {
        let top = self.edge_sequence(0);
        let right = self.edge_sequence(1);
        let bottom_raw = self.edge_sequence(2);
        let left_raw = self.edge_sequence(3);
        let bottom = reversed(&bottom_raw);
        let left = reversed(&left_raw);
        GridEdges { top, bottom, left, right }
    }
}

} // verus!
