//! The catalog record and the plane distance between a record and a point.

use vstd::prelude::*;

verus! {

/// The largest magnitude of a coordinate, in millionths of a degree: a
/// thousand degrees. Within it the squared distance between any two points
/// fits in 64 bits.
pub const COORD_MAX: i64 = 1_000_000_000;

/// Whether `v` can be a coordinate.
pub open spec fn coord_ok(v: int) -> bool {
    -COORD_MAX <= v <= COORD_MAX
}

/// Whether `v` can be a coordinate.
pub fn is_coord(v: i64) -> (r: bool)
    ensures
        r == coord_ok(v as int),
{
    -COORD_MAX <= v && v <= COORD_MAX
}

/// The squared Euclidean distance between `(x, y)` and `(qx, qy)`.
pub open spec fn distance_2(x: int, y: int, qx: int, qy: int) -> int {
    (x - qx) * (x - qx) + (y - qy) * (y - qy)
}

/// One star of the catalog. Coordinates and magnitudes are counts of
/// millionths; a magnitude that the catalog leaves empty is `None`.
#[derive(Clone, Copy, Debug, PartialEq, Eq, Structural)]
pub struct Star {
    pub obj_id: u64,
    pub ra: i64,
    pub dec: i64,
    pub u: Option<i64>,
    pub g: Option<i64>,
    pub r: Option<i64>,
    pub i: Option<i64>,
    pub z: Option<i64>,
}

impl Star {
    /// Both coordinates are within `COORD_MAX` of zero.
    pub open spec fn in_range(self) -> bool {
        coord_ok(self.ra as int) && coord_ok(self.dec as int)
    }

    /// Whether both coordinates are within `COORD_MAX` of zero.
    pub fn is_in_range(&self) -> (r: bool)
        ensures
            r == self.in_range(),
    {
        is_coord(self.ra) && is_coord(self.dec)
    }

    /// The squared distance from this star to `(qx, qy)`.
    pub open spec fn spec_distance_2(self, qx: int, qy: int) -> int {
        distance_2(self.ra as int, self.dec as int, qx, qy)
    }

    /// The squared distance from this star to `(qx, qy)`, in squared
    /// millionths of a degree.
    pub fn distance_2(&self, qx: i64, qy: i64) -> (d: u64)
        requires
            self.in_range(),
            coord_ok(qx as int),
            coord_ok(qy as int),
        ensures
            d == self.spec_distance_2(qx as int, qy as int),
    {
        let dx: i64 = self.ra - qx;
        let dy: i64 = self.dec - qy;
        proof {
            lemma_square_bound(dx as int);
            lemma_square_bound(dy as int);
        }
        (dx * dx + dy * dy) as u64
    }
}

/// Every star has its coordinates in range.
pub open spec fn all_in_range(stars: Seq<Star>) -> bool {
    forall|i: int| 0 <= i < stars.len() ==> (#[trigger] stars[i]).in_range()
}

/// Whether every star has its coordinates in range.
pub fn are_in_range(stars: &Vec<Star>) -> (r: bool)
    ensures
        r == all_in_range(stars@),
{
    let mut i: usize = 0;
    while i < stars.len()
        invariant
            0 <= i <= stars@.len(),
            forall|j: int| 0 <= j < i ==> (#[trigger] stars@[j]).in_range(),
        decreases stars@.len() - i,
    {
        if !stars[i].is_in_range() {
            return false;
        }
        i += 1;
    }
    true
}

/// The square of a difference of two coordinates is at most four times the
/// square of `COORD_MAX`.
pub proof fn lemma_square_bound(d: int)
    requires
        -2 * COORD_MAX <= d <= 2 * COORD_MAX,
    ensures
        0 <= d * d <= 4 * COORD_MAX * COORD_MAX,
{
    assert(0 <= d * d <= 4 * COORD_MAX * COORD_MAX) by (nonlinear_arith)
        requires
            -2 * COORD_MAX <= d <= 2 * COORD_MAX,
    ;
}

} // verus!
