//! The spatial index over a catalog, and nearest-neighbour queries on it.

use vstd::prelude::*;
use crate::ranking::{
    first_of, is_nearest_order, lemma_every_star_once, lemma_nearest_first, lemma_own_place_first,
    neighbor_of, ranked, stars_of, Neighbor,
};
use crate::rtree::{
    bulk_load, entry_distance_2, nearest_order, nearest_walk, next_nearest, pending, tree_items,
    Entry, NearestWalk, PointTree,
};
use crate::star::{all_in_range, are_in_range, coord_ok, is_coord, Star};

verus! {

/// The point that the tree holds for the star at position `i`.
pub open spec fn entry_of(stars: Seq<Star>, i: int) -> Entry {
    (stars[i].ra, stars[i].dec, i as usize)
}

/// The points that the tree holds for `stars`.
pub open spec fn entries(stars: Seq<Star>) -> Seq<Entry> {
    Seq::new(stars.len(), |i: int| entry_of(stars, i))
}

/// Whether `e` is the point of one of `stars`.
pub open spec fn is_entry(stars: Seq<Star>, e: Entry) -> bool {
    e.2 < stars.len() && e == entry_of(stars, e.2 as int)
}

/// A catalog with an R*-tree over the positions of its stars. It is built
/// once and then only read.
pub struct StarIndex {
    stars: Vec<Star>,
    tree: PointTree,
}

impl View for StarIndex {
    type V = Seq<Star>;

    /// The stars of the index, in the order in which it was given them.
    closed spec fn view(&self) -> Seq<Star> {
        self.stars@
    }
}

impl StarIndex {
    #[verifier::type_invariant]
    spec fn inv(self) -> bool {
        &&& all_in_range(self.stars@)
        &&& tree_items(self.tree) == entries(self.stars@).to_multiset()
    }

    /// Builds the index of `stars` in one bulk load.
    pub fn build(stars: Vec<Star>) -> (index: StarIndex)
        requires
            all_in_range(stars@),
        ensures
            index@ == stars@,
    {
        let mut points: Vec<Entry> = Vec::new();
        let mut i: usize = 0;
        while i < stars.len()
            invariant
                0 <= i <= stars@.len(),
                points@ == entries(stars@).take(i as int),
            decreases stars@.len() - i,
        {
            points.push((stars[i].ra, stars[i].dec, i));
            i += 1;
        }
        assert(points@ =~= entries(stars@));
        StarIndex { stars, tree: bulk_load(points) }
    }

    /// Builds the index of `stars`, unless one of them is out of range.
    pub fn try_build(stars: Vec<Star>) -> (r: Option<StarIndex>)
        ensures
            match r {
                Some(index) => all_in_range(stars@) && index@ == stars@,
                None => !all_in_range(stars@),
            },
    {
        if are_in_range(&stars) {
            Some(StarIndex::build(stars))
        } else {
            None
        }
    }

    /// The number of stars.
    pub fn len(&self) -> (n: usize)
        ensures
            n == self@.len(),
    {
        self.stars.len()
    }

    /// Whether the index holds no star.
    pub fn is_empty(&self) -> (r: bool)
        ensures
            r == (self@.len() == 0),
    {
        self.stars.len() == 0
    }

    /// The stars of the index, in the order in which it was given them.
    pub fn stars(&self) -> (stars: &Vec<Star>)
        ensures
            stars@ == self@,
            all_in_range(self@),
    {
        proof {
            use_type_invariant(self);
        }
        &self.stars
    }

    /// The positions of the stars in the order in which a query at
    /// `(qx, qy)` hands them out. Which of two stars at one distance comes
    /// first is for the tree to say; it says the same each time it is asked.
    pub closed spec fn order(&self, qx: i64, qy: i64) -> Seq<int> {
        nearest_order(self.tree, qx, qy).map_values(|e: Entry| e.2 as int)
    }

    /// The answer to a query at `(qx, qy)` in full: every star with its
    /// squared distance, in the order of `order`.
    pub open spec fn ranking(&self, qx: i64, qy: i64) -> Seq<Neighbor> {
        ranked(self@, qx as int, qy as int, self.order(qx, qy))
    }

    /// The answer to a query at `(qx, qy)` for `k` stars: the first `k` of the
    /// ranking, or all of it where it holds fewer.
    pub open spec fn top(&self, qx: i64, qy: i64, k: int) -> Seq<Neighbor> {
        first_of(self.ranking(qx, qy), k)
    }

    /// Starts a query at `(qx, qy)`. The stars come out of it one at a time,
    /// nearest first; none is looked for before it is asked for.
    pub fn neighbors<'a>(&'a self, qx: i64, qy: i64) -> (found: Neighbors<'a>)
        requires
            coord_ok(qx as int),
            coord_ok(qy as int),
        ensures
            all_in_range(self@),
            is_nearest_order(self@, qx as int, qy as int, self.order(qx, qy)),
            found.remaining() == self.ranking(qx, qy),
    {
        proof {
            use_type_invariant(self);
            lemma_entries_in_range(self.stars@);
        }
        let walk = nearest_walk(&self.tree, qx, qy);
        proof {
            assert(self.stars@.len() == self.stars.len());
            lemma_walk_is_nearest_order(self.stars@, qx as int, qy as int, pending(walk));
        }
        let found = Neighbors { stars: &self.stars, walk, qx, qy };
        found
    }

    /// The `k` stars nearest to `(qx, qy)`, nearest first; all the stars where
    /// the index holds no more than `k`.
    pub fn nearest(&self, qx: i64, qy: i64, k: usize) -> (found: Vec<Neighbor>)
        requires
            coord_ok(qx as int),
            coord_ok(qy as int),
        ensures
            all_in_range(self@),
            is_nearest_order(self@, qx as int, qy as int, self.order(qx, qy)),
            found@ == self.top(qx, qy, k as int),
            found@.len() == if k < self@.len() {
                k as int
            } else {
                self@.len() as int
            },
            forall|i: int|
                0 <= i < found@.len() ==> (#[trigger] found@[i]).dist_sq
                    == found@[i].star.spec_distance_2(qx as int, qy as int),
            forall|i: int, j: int|
                0 <= i <= j < found@.len() ==> found@[i].dist_sq <= found@[j].dist_sq,
            k >= self@.len() ==> stars_of(found@).to_multiset() == self@.to_multiset(),
            forall|p: int|
                0 <= p < self@.len() && k > 0 && #[trigger] self@[p].ra == qx && self@[p].dec == qy
                    ==> found@[0].dist_sq == 0 && found@[0].star.ra == qx && found@[0].star.dec
                    == qy,
    {
        let ghost ranking = self.ranking(qx, qy);
        let mut walk = self.neighbors(qx, qy);
        let mut found: Vec<Neighbor> = Vec::new();
        let mut done: bool = false;
        while !done && found.len() < k
            invariant
                found@ + walk.remaining() == ranking,
                found@.len() <= k,
                done ==> walk.remaining().len() == 0,
            decreases k - found@.len() + (if done { 0int } else { 1int }),
        {
            match walk.next() {
                Some(n) => {
                    found.push(n);
                    assert(found@ + walk.remaining() =~= ranking);
                },
                None => {
                    done = true;
                },
            }
        }
        proof {
            let order = self.order(qx, qy);
            assert(found@ =~= self.top(qx, qy, k as int));
            lemma_nearest_first(self@, qx as int, qy as int, order, k as int);
            if k >= self@.len() {
                lemma_every_star_once(self@, qx as int, qy as int, order, k as int);
            }
            assert forall|p: int|
                0 <= p < self@.len() && k > 0 && #[trigger] self@[p].ra == qx && self@[p].dec
                    == qy implies found@[0].dist_sq == 0 && found@[0].star.ra == qx
                && found@[0].star.dec == qy by {
                lemma_own_place_first(self@, order, p);
            }
        }
        found
    }

    /// The `k` stars nearest to `(qx, qy)`, nearest first, unless the point is
    /// out of range.
    pub fn try_nearest(&self, qx: i64, qy: i64, k: usize) -> (r: Option<Vec<Neighbor>>)
        ensures
            match r {
                Some(found) => {
                    &&& coord_ok(qx as int)
                    &&& coord_ok(qy as int)
                    &&& all_in_range(self@)
                    &&& is_nearest_order(self@, qx as int, qy as int, self.order(qx, qy))
                    &&& found@ == self.top(qx, qy, k as int)
                },
                None => !(coord_ok(qx as int) && coord_ok(qy as int)),
            },
    {
        if is_coord(qx) && is_coord(qy) {
            Some(self.nearest(qx, qy, k))
        } else {
            None
        }
    }
}

/// The stars of an index as a query at one point hands them out: nearest
/// first, one at a time.
pub struct Neighbors<'a> {
    stars: &'a Vec<Star>,
    walk: NearestWalk<'a>,
    qx: i64,
    qy: i64,
}

impl<'a> Neighbors<'a> {
    #[verifier::type_invariant]
    spec fn inv(self) -> bool {
        &&& coord_ok(self.qx as int)
        &&& coord_ok(self.qy as int)
        &&& all_in_range(self.stars@)
        &&& forall|i: int|
            0 <= i < pending(self.walk).len() ==> is_entry(
                self.stars@,
                #[trigger] pending(self.walk)[i],
            )
    }

    /// The neighbours still to come, the next one first.
    pub closed spec fn remaining(&self) -> Seq<Neighbor> {
        Seq::new(
            pending(self.walk).len(),
            |i: int|
                neighbor_of(
                    self.stars@[pending(self.walk)[i].2 as int],
                    self.qx as int,
                    self.qy as int,
                ),
        )
    }

    /// The next neighbour, or `None` when every star has been handed out.
    pub fn next(&mut self) -> (r: Option<Neighbor>)
        ensures
            match r {
                Some(n) => old(self).remaining().len() > 0 && n == old(self).remaining()[0]
                    && final(self).remaining() == old(self).remaining().skip(1),
                None => old(self).remaining().len() == 0 && final(self).remaining() == old(
                    self,
                ).remaining(),
            },
    {
        proof {
            use_type_invariant(&*self);
        }
        match next_nearest(&mut self.walk) {
            Some(e) => {
                let star = self.stars[e.2];
                let dist_sq = star.distance_2(self.qx, self.qy);
                Some(Neighbor { star, dist_sq })
            },
            None => None,
        }
    }
}

/// The points of stars in range have their coordinates in range.
proof fn lemma_entries_in_range(stars: Seq<Star>)
    requires
        all_in_range(stars),
    ensures
        forall|e: Entry|
            entries(stars).to_multiset().count(e) > 0 ==> coord_ok(e.0 as int) && coord_ok(
                e.1 as int,
            ),
{
    assert forall|e: Entry| entries(stars).to_multiset().count(e) > 0 implies coord_ok(e.0 as int)
        && coord_ok(e.1 as int) by {
        vstd::seq_lib::to_multiset_contains(entries(stars), e);
        let i = choose|i: int| 0 <= i < entries(stars).len() && entries(stars)[i] == e;
        assert(stars[i].in_range());
    }
}

/// A walk that hands out the points of `stars`, each as often as the tree
/// holds it and none before a nearer one, hands out every position once, in
/// a nearest order.
proof fn lemma_walk_is_nearest_order(stars: Seq<Star>, qx: int, qy: int, walk: Seq<Entry>)
    requires
        stars.len() <= usize::MAX,
        walk.to_multiset() == entries(stars).to_multiset(),
        forall|i: int, j: int|
            0 <= i <= j < walk.len() ==> entry_distance_2(walk[i], qx, qy) <= entry_distance_2(
                walk[j],
                qx,
                qy,
            ),
    ensures
        forall|i: int| 0 <= i < walk.len() ==> is_entry(stars, #[trigger] walk[i]),
        is_nearest_order(stars, qx, qy, walk.map_values(|e: Entry| e.2 as int)),
{
    let points = entries(stars);
    let order = walk.map_values(|e: Entry| e.2 as int);
    vstd::seq_lib::to_multiset_len(walk);
    vstd::seq_lib::to_multiset_len(points);
    assert forall|i: int| 0 <= i < walk.len() implies is_entry(stars, #[trigger] walk[i]) by {
        vstd::seq_lib::to_multiset_contains(walk, walk[i]);
        vstd::seq_lib::to_multiset_contains(points, walk[i]);
        let p = choose|p: int| 0 <= p < points.len() && points[p] == walk[i];
        assert(walk[i] == entry_of(stars, p));
    }
    assert(points.no_duplicates());
    points.lemma_multiset_has_no_duplicates();
    walk.lemma_multiset_has_no_duplicates_conv();
    assert forall|i: int, j: int| 0 <= i < j < order.len() implies order[i] != order[j] by {
        assert(walk[i] != walk[j]);
    }
    assert forall|p: int| 0 <= p < stars.len() implies order.contains(p) by {
        vstd::seq_lib::to_multiset_contains(points, points[p]);
        vstd::seq_lib::to_multiset_contains(walk, points[p]);
        let i = choose|i: int| 0 <= i < walk.len() && walk[i] == points[p];
        assert(order[i] == p);
    }
    assert forall|i: int, j: int| 0 <= i <= j < order.len() implies stars[order[i]].spec_distance_2(
        qx,
        qy,
    ) <= stars[order[j]].spec_distance_2(qx, qy) by {
        assert(entry_distance_2(walk[i], qx, qy) <= entry_distance_2(walk[j], qx, qy));
    }
}

} // verus!
