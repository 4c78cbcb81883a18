//! Axis-aligned bounding boxes over coordinates held as bit patterns.

use crate::coord::{
    coord_max, coord_min, is_nan, max_spec, min_spec, rank, INFINITY_BITS, NEG_INFINITY_BITS,
};
use vstd::prelude::*;

verus! {

/// An axis-aligned bounding box over coordinates held as bit patterns.
#[derive(Clone, Copy, Debug, PartialEq, Eq)]
pub struct AABB {
    pub min: [u32; 3],
    pub max: [u32; 3],
}

impl AABB {
    /// The box of no points: every minimum at positive infinity, every
    /// maximum at negative infinity.
    pub open spec fn empty_spec() -> AABB {
        AABB {
            min: [INFINITY_BITS, INFINITY_BITS, INFINITY_BITS],
            max: [NEG_INFINITY_BITS, NEG_INFINITY_BITS, NEG_INFINITY_BITS],
        }
    }

    /// The box grown to hold `p`.
    pub open spec fn extend_spec(self, p: [u32; 3]) -> AABB {
        AABB {
            min: [
                min_spec(self.min[0], p[0]),
                min_spec(self.min[1], p[1]),
                min_spec(self.min[2], p[2]),
            ],
            max: [
                max_spec(self.max[0], p[0]),
                max_spec(self.max[1], p[1]),
                max_spec(self.max[2], p[2]),
            ],
        }
    }

    /// Returns the box of no points.
    pub fn empty() -> (r: AABB)
        ensures
            r == AABB::empty_spec(),
    {
        AABB {
            min: [INFINITY_BITS, INFINITY_BITS, INFINITY_BITS],
            max: [NEG_INFINITY_BITS, NEG_INFINITY_BITS, NEG_INFINITY_BITS],
        }
    }

    /// Grows the box to hold `p`.
    pub fn extend(&mut self, p: &[u32; 3])
        ensures
            *final(self) == old(self).extend_spec(*p),
    {
        let min = [
            coord_min(self.min[0], p[0]),
            coord_min(self.min[1], p[1]),
            coord_min(self.min[2], p[2]),
        ];
        let max = [
            coord_max(self.max[0], p[0]),
            coord_max(self.max[1], p[1]),
            coord_max(self.max[2], p[2]),
        ];
        self.min = min;
        self.max = max;
    }
}

impl Default for AABB {
    /// The box of no points.
    fn default() -> (r: AABB)
        ensures
            r == AABB::empty_spec(),
    {
        AABB::empty()
    }
}

/// The bounding box of a sequence of points: the empty box grown by each
/// point in turn.
pub open spec fn bounds(points: Seq<[u32; 3]>) -> AABB
    decreases points.len(),
{
    if points.len() == 0 {
        AABB::empty_spec()
    } else {
        bounds(points.drop_last()).extend_spec(points.last())
    }
}

/// The bounding box of no points is the empty box.
pub proof fn lemma_bounds_of_nothing()
    ensures
        bounds(Seq::<[u32; 3]>::empty()) == AABB::empty_spec(),
{
}

/// No bound of a bounding box is a NaN.
pub proof fn lemma_bounds_are_numbers(points: Seq<[u32; 3]>, k: int)
    requires
        0 <= k < 3,
    ensures
        !is_nan(bounds(points).min[k]),
        !is_nan(bounds(points).max[k]),
    decreases points.len(),
{
    if points.len() > 0 {
        lemma_bounds_are_numbers(points.drop_last(), k);
    }
}

/// Where no point has a number for coordinate `k`, the bounds of the box in
/// `k` are those of the empty box.
pub proof fn lemma_bounds_without_numbers(points: Seq<[u32; 3]>, k: int)
    requires
        0 <= k < 3,
        forall|i: int| 0 <= i < points.len() ==> is_nan(points[i][k]),
    ensures
        bounds(points).min[k] == INFINITY_BITS,
        bounds(points).max[k] == NEG_INFINITY_BITS,
    decreases points.len(),
{
    if points.len() > 0 {
        let shorter = points.drop_last();
        assert forall|i: int| 0 <= i < shorter.len() implies is_nan(shorter[i][k]) by {
            assert(shorter[i] == points[i]);
        }
        lemma_bounds_without_numbers(shorter, k);
        assert(is_nan(points[points.len() - 1][k]));
    }
}

/// Where some point has a number for coordinate `k`, each bound of the box
/// in `k` is coordinate `k` of some point: the bounds are the least and the
/// greatest of the coordinates that are numbers.
pub proof fn lemma_bounds_attained(points: Seq<[u32; 3]>, k: int)
    requires
        0 <= k < 3,
        exists|i: int| 0 <= i < points.len() && !is_nan(points[i][k]),
    ensures
        exists|i: int| 0 <= i < points.len() && points[i][k] == bounds(points).min[k],
        exists|i: int| 0 <= i < points.len() && points[i][k] == bounds(points).max[k],
    decreases points.len(),
{
    let shorter = points.drop_last();
    let last = points.len() - 1;
    let lo = bounds(points).min[k];
    let hi = bounds(points).max[k];
    lemma_bounds_are_numbers(shorter, k);
    if exists|i: int| 0 <= i < shorter.len() && !is_nan(shorter[i][k]) {
        lemma_bounds_attained(shorter, k);
        let i1 = choose|i: int| 0 <= i < shorter.len() && shorter[i][k] == bounds(shorter).min[k];
        let i2 = choose|i: int| 0 <= i < shorter.len() && shorter[i][k] == bounds(shorter).max[k];
        assert(points[i1] == shorter[i1]);
        assert(points[i2] == shorter[i2]);
        assert(points[i1][k] == lo || points[last][k] == lo);
        assert(points[i2][k] == hi || points[last][k] == hi);
    } else {
        assert forall|i: int| 0 <= i < shorter.len() implies is_nan(shorter[i][k]) by {}
        lemma_bounds_without_numbers(shorter, k);
        let w = choose|i: int| 0 <= i < points.len() && !is_nan(points[i][k]);
        if w < last {
            assert(shorter[w] == points[w]);
        }
        assert(points[last][k] == lo);
        assert(points[last][k] == hi);
    }
}

/// Every coordinate of every point that is a number lies between the
/// bounds of the box, in numeric order.
pub proof fn lemma_bounds_sound(points: Seq<[u32; 3]>, i: int, k: int)
    requires
        0 <= i < points.len(),
        0 <= k < 3,
        !is_nan(points[i][k]),
    ensures
        rank(bounds(points).min[k]) <= rank(points[i][k]) <= rank(bounds(points).max[k]),
    decreases points.len(),
{
    let shorter = points.drop_last();
    lemma_bounds_are_numbers(shorter, k);
    if i < points.len() - 1 {
        assert(shorter[i] == points[i]);
        lemma_bounds_sound(shorter, i, k);
    }
}

} // verus!
