//! What the answer to a nearest-neighbour query is, and what holds of every
//! such answer.
//!
//! The lemmas speak of `stars`, the stars of an index, and of `order`, the
//! order in which the index hands them out to a query at one point. Every
//! query on an index ensures that the two are in `is_nearest_order`.

use vstd::prelude::*;
use crate::star::{all_in_range, coord_ok, lemma_square_bound, Star, COORD_MAX};

verus! {

/// A star and its squared distance from the point of a query, in squared
/// millionths of a degree.
#[derive(Clone, Copy, Debug, PartialEq, Eq, Structural)]
pub struct Neighbor {
    pub star: Star,
    pub dist_sq: u64,
}

/// The neighbour that `star` is to `(qx, qy)`.
pub open spec fn neighbor_of(star: Star, qx: int, qy: int) -> Neighbor {
    Neighbor { star, dist_sq: star.spec_distance_2(qx, qy) as u64 }
}

/// `order` lists the numbers from zero up to `n`, each once.
pub open spec fn is_permutation(order: Seq<int>, n: int) -> bool {
    &&& order.len() == n
    &&& forall|i: int| 0 <= i < order.len() ==> 0 <= #[trigger] order[i] < n
    &&& forall|i: int, j: int| 0 <= i < j < order.len() ==> order[i] != order[j]
    &&& forall|p: int| 0 <= p < n ==> order.contains(p)
}

/// `order` lists the positions of `stars`, each once, so that no star comes
/// before one that lies nearer to `(qx, qy)`.
pub open spec fn is_nearest_order(stars: Seq<Star>, qx: int, qy: int, order: Seq<int>) -> bool {
    &&& is_permutation(order, stars.len() as int)
    &&& forall|i: int, j: int|
        0 <= i <= j < order.len() ==> stars[order[i]].spec_distance_2(qx, qy)
            <= stars[order[j]].spec_distance_2(qx, qy)
}

/// The stars in the order `order`, each with its squared distance from
/// `(qx, qy)`.
pub open spec fn ranked(stars: Seq<Star>, qx: int, qy: int, order: Seq<int>) -> Seq<Neighbor> {
    Seq::new(order.len(), |i: int| neighbor_of(stars[order[i]], qx, qy))
}

/// The first `k` of `ranking`, or all of it where it holds no more.
pub open spec fn first_of(ranking: Seq<Neighbor>, k: int) -> Seq<Neighbor> {
    if k <= 0 {
        Seq::empty()
    } else if k < ranking.len() {
        ranking.take(k)
    } else {
        ranking
    }
}

/// The stars of a ranking, without their distances.
pub open spec fn stars_of(ranking: Seq<Neighbor>) -> Seq<Star> {
    Seq::new(ranking.len(), |i: int| ranking[i].star)
}

/// The squared distance between two points in range is not negative and fits
/// in 64 bits.
pub proof fn lemma_distance_fits(star: Star, qx: int, qy: int)
    requires
        star.in_range(),
        coord_ok(qx),
        coord_ok(qy),
    ensures
        0 <= star.spec_distance_2(qx, qy) <= 8 * COORD_MAX * COORD_MAX,
        8 * COORD_MAX * COORD_MAX <= u64::MAX,
        neighbor_of(star, qx, qy).dist_sq == star.spec_distance_2(qx, qy),
{
    lemma_square_bound(star.ra - qx);
    lemma_square_bound(star.dec - qy);
}

/// In the answer to a query, and in any number of its first neighbours, each
/// distance is the squared distance of its star from the point of the query,
/// and no neighbour is nearer than one before it.
pub proof fn lemma_nearest_first(stars: Seq<Star>, qx: int, qy: int, order: Seq<int>, k: int)
    requires
        all_in_range(stars),
        coord_ok(qx),
        coord_ok(qy),
        is_nearest_order(stars, qx, qy, order),
    ensures
        ({
            let found = first_of(ranked(stars, qx, qy, order), k);
            &&& forall|i: int|
                0 <= i < found.len() ==> (#[trigger] found[i]).dist_sq
                    == found[i].star.spec_distance_2(qx, qy)
            &&& forall|i: int, j: int|
                0 <= i <= j < found.len() ==> found[i].dist_sq <= found[j].dist_sq
        }),
{
    let found = first_of(ranked(stars, qx, qy, order), k);
    assert forall|i: int| 0 <= i < found.len() implies (#[trigger] found[i]).dist_sq
        == found[i].star.spec_distance_2(qx, qy) by {
        lemma_distance_fits(stars[order[i]], qx, qy);
    }
    assert forall|i: int, j: int| 0 <= i <= j < found.len() implies found[i].dist_sq
        <= found[j].dist_sq by {
        lemma_distance_fits(stars[order[i]], qx, qy);
        lemma_distance_fits(stars[order[j]], qx, qy);
    }
}

/// The answer for `k` stars is the answer for `k + 1` stars cut to `k`; where
/// that answer holds `k + 1` stars, it is that answer without its last.
pub proof fn lemma_prefix_stable(ranking: Seq<Neighbor>, k: int)
    requires
        0 <= k,
    ensures
        first_of(first_of(ranking, k + 1), k) == first_of(ranking, k),
        first_of(ranking, k + 1).len() == k + 1 ==> first_of(ranking, k + 1).drop_last()
            == first_of(ranking, k),
{
}

/// The answer to any query on no stars is empty.
pub proof fn lemma_nothing_from_nothing(stars: Seq<Star>, qx: int, qy: int, order: Seq<int>, k: int)
    requires
        stars.len() == 0,
        is_nearest_order(stars, qx, qy, order),
    ensures
        first_of(ranked(stars, qx, qy, order), k) == Seq::<Neighbor>::empty(),
{
}

/// A query at the place of a star finds a star of that place first, at
/// distance zero; it finds that very star where no other star shares the
/// place.
pub proof fn lemma_own_place_first(stars: Seq<Star>, order: Seq<int>, p: int)
    requires
        all_in_range(stars),
        0 <= p < stars.len(),
        is_nearest_order(stars, stars[p].ra as int, stars[p].dec as int, order),
    ensures
        ({
            let first = ranked(stars, stars[p].ra as int, stars[p].dec as int, order)[0];
            &&& order.len() > 0
            &&& first.dist_sq == 0
            &&& first.star.ra == stars[p].ra
            &&& first.star.dec == stars[p].dec
            &&& (forall|other: int|
                0 <= other < stars.len() && other != p ==> stars[other].ra != stars[p].ra
                    || stars[other].dec != stars[p].dec) ==> first.star == stars[p]
        }),
{
    let qx = stars[p].ra as int;
    let qy = stars[p].dec as int;
    assert(order.contains(p));
    let at = choose|at: int| 0 <= at < order.len() && order[at] == p;
    let head = stars[order[0]];
    assert(stars[p].spec_distance_2(qx, qy) == 0);
    assert(head.spec_distance_2(qx, qy) <= stars[order[at]].spec_distance_2(qx, qy));
    lemma_distance_fits(head, qx, qy);
    let dx = head.ra - qx;
    let dy = head.dec - qy;
    assert(dx == 0 && dy == 0) by (nonlinear_arith)
        requires
            dx * dx + dy * dy == 0,
    ;
}

/// The items of `items` taken in the order of a permutation are the items of
/// `items`, each as often.
pub proof fn lemma_permuted_items<T>(items: Seq<T>, order: Seq<int>)
    requires
        is_permutation(order, items.len() as int),
    ensures
        Seq::new(order.len(), |i: int| items[order[i]]).to_multiset() == items.to_multiset(),
    decreases items.len(),
{
    let permuted = Seq::new(order.len(), |i: int| items[order[i]]);
    if items.len() == 0 {
        assert(permuted =~= items);
    } else {
        let last = items.len() - 1;
        assert(order.contains(last));
        let at = choose|at: int| 0 <= at < order.len() && order[at] == last;
        let fewer = items.drop_last();
        let shorter = order.remove(at);
        assert(is_permutation(shorter, fewer.len() as int)) by {
            assert forall|i: int| 0 <= i < shorter.len() implies 0 <= #[trigger] shorter[i]
                < fewer.len() by {
                if i < at {
                    assert(shorter[i] == order[i]);
                } else {
                    assert(shorter[i] == order[i + 1]);
                }
            }
            assert forall|p: int| 0 <= p < fewer.len() implies shorter.contains(p) by {
                assert(order.contains(p));
                let i = choose|i: int| 0 <= i < order.len() && order[i] == p;
                if i < at {
                    assert(shorter[i] == p);
                } else {
                    assert(shorter[i - 1] == p);
                }
            }
        }
        lemma_permuted_items(fewer, shorter);
        let rest = Seq::new(shorter.len(), |i: int| fewer[shorter[i]]);
        assert(permuted.remove(at) =~= rest);
        vstd::seq_lib::to_multiset_remove(permuted, at);
        vstd::seq_lib::to_multiset_contains(permuted, permuted[at]);
        assert(items =~= fewer.push(items[last]));
        vstd::seq_lib::to_multiset_build(fewer, items[last]);
        assert(permuted.to_multiset() =~= permuted.to_multiset().remove(permuted[at]).insert(
            permuted[at],
        ));
    }
}

/// In the full answer to a query every star of the index occurs, each as
/// often as the index holds it.
pub proof fn lemma_every_star_once(stars: Seq<Star>, qx: int, qy: int, order: Seq<int>, k: int)
    requires
        is_nearest_order(stars, qx, qy, order),
        k >= stars.len(),
    ensures
        first_of(ranked(stars, qx, qy, order), k).len() == stars.len(),
        stars_of(first_of(ranked(stars, qx, qy, order), k)).to_multiset() == stars.to_multiset(),
{
    lemma_permuted_items(stars, order);
    assert(stars_of(first_of(ranked(stars, qx, qy, order), k)) =~= Seq::new(
        order.len(),
        |i: int| stars[order[i]],
    ));
}

} // verus!
