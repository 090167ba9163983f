//! The R*-tree that holds the positions of the stars.
//!
//! The tree is that of the `rstar` crate. Nothing in this module is proved:
//! what it says of the tree is what `rstar` documents and its source shows,
//! and the rest of the library is proved from that.

use vstd::prelude::*;
use vstd::multiset::Multiset;
use rstar::RTree;
use rstar::primitives::GeomWithData;
use crate::star::{coord_ok, distance_2};

verus! {

/// A point of the tree: its two coordinates, and the position of its star in
/// the catalog.
pub type Entry = (i64, i64, usize);

/// An `rstar::RTree` of points with integer coordinates, each carrying a
/// position as its data.
#[verifier::external_body]
pub struct PointTree {
    inner: RTree<GeomWithData<[i64; 2], usize>>,
}

/// The iterator that `rstar::RTree::nearest_neighbor_iter` makes over a
/// `PointTree`. Its type has no public name, so it is held boxed.
#[verifier::external_body]
pub struct NearestWalk<'a> {
    inner: Box<dyn Iterator<Item = &'a GeomWithData<[i64; 2], usize>> + 'a>,
}

/// The points that a tree holds.
pub uninterp spec fn tree_items(tree: PointTree) -> Multiset<Entry>;

/// The order in which a tree hands out its points to a walk that starts at
/// `(qx, qy)`.
pub uninterp spec fn nearest_order(tree: PointTree, qx: i64, qy: i64) -> Seq<Entry>;

/// The points that a walk has yet to hand out, the next one first.
pub uninterp spec fn pending(walk: NearestWalk<'_>) -> Seq<Entry>;

/// The squared distance from an entry to `(qx, qy)`.
pub open spec fn entry_distance_2(e: Entry, qx: int, qy: int) -> int {
    distance_2(e.0 as int, e.1 as int, qx, qy)
}

/// Builds a tree with `rstar::RTree::bulk_load`. Claimed: the tree holds the
/// points that it was given, each as often as it was given. Nothing is
/// claimed of its shape.
#[verifier::external_body]
pub(crate) fn bulk_load(points: Vec<Entry>) -> (tree: PointTree)
    ensures
        tree_items(tree) == points@.to_multiset(),
{
    let items = points.into_iter().map(|p| GeomWithData::new([p.0, p.1], p.2)).collect();
    PointTree { inner: RTree::bulk_load(items) }
}

/// Starts a walk with `rstar::RTree::nearest_neighbor_iter`, which returns
/// all elements of the tree sorted by their distance to a point. Claimed: the
/// walk will hand out every point of the tree once, in an order that the tree
/// and the start determine, and no point before one that lies nearer to the
/// start. The coordinates must be in range, so that no squared distance
/// overflows.
#[verifier::external_body]
pub(crate) fn nearest_walk<'a>(tree: &'a PointTree, qx: i64, qy: i64) -> (walk: NearestWalk<'a>)
    requires
        coord_ok(qx as int),
        coord_ok(qy as int),
        forall|e: Entry|
            tree_items(*tree).count(e) > 0 ==> coord_ok(e.0 as int) && coord_ok(e.1 as int),
    ensures
        pending(walk) == nearest_order(*tree, qx, qy),
        pending(walk).to_multiset() == tree_items(*tree),
        forall|i: int, j: int|
            0 <= i <= j < pending(walk).len() ==> entry_distance_2(
                pending(walk)[i],
                qx as int,
                qy as int,
            ) <= entry_distance_2(pending(walk)[j], qx as int, qy as int),
{
    NearestWalk { inner: Box::new(tree.inner.nearest_neighbor_iter(&[qx, qy])) }
}

/// Takes the next point of a walk with the iterator's `next`. Claimed: it
/// gives the first of the pending points, which then is pending no more, or
/// `None` where none is pending; and it does not panic.
#[verifier::external_body]
pub(crate) fn next_nearest<'a>(walk: &mut NearestWalk<'a>) -> (r: Option<Entry>)
    ensures
        match r {
            Some(e) => pending(*old(walk)).len() > 0 && e == pending(*old(walk))[0] && pending(
                *final(walk),
            ) == pending(*old(walk)).skip(1),
            None => pending(*old(walk)).len() == 0 && pending(*final(walk)) == pending(*old(walk)),
        },
    no_unwind
{
    walk.inner.next().map(|item| (item.geom()[0], item.geom()[1], item.data))
}

} // verus!
