use vstd::prelude::*;

use crate::point::{dist2, distance_squared};

verus! {

/// `r` is a nearest neighbour of `target` among `points`: one of them, and no
/// farther from `target` than any other.
pub open spec fn is_nearest(r: Seq<i32>, points: Set<Seq<i32>>, target: Seq<i32>) -> bool {
    &&& points.contains(r)
    &&& forall|q: Seq<i32>| #[trigger] points.contains(q) ==> dist2(r, target) <= dist2(q, target)
}

/// The views of a slice of points, as a set.
pub open spec fn point_set<const N: usize>(points: Seq<[i32; N]>) -> Set<Seq<i32>> {
    Set::new(|p: Seq<i32>| exists|i: int| 0 <= i < points.len() && points[i]@ == p)
}

/// Finds the point of `all_points` closest to `point` by an exhaustive scan.
///
/// Returns `None` when `all_points` is empty; otherwise the first of the
/// points at the smallest squared distance.
pub fn find_nearest_neighbour_naive<const N: usize>(point: &[i32; N], all_points: &[[i32; N]]) -> (r: Option<[i32; N]>)
    ensures
        all_points@.len() == 0 <==> r.is_none(),
        r.is_some() ==> exists|i: int| {
            &&& 0 <= i < all_points@.len()
            &&& all_points@[i] == r.unwrap()
            &&& forall|j: int| 0 <= j < i ==> dist2(all_points@[j]@, point@) > dist2(r.unwrap()@, point@)
        },
        r.is_some() ==> forall|j: int| 0 <= j < all_points@.len()
            ==> dist2(r.unwrap()@, point@) <= dist2(#[trigger] all_points@[j]@, point@),
        r.is_some() ==> is_nearest(r.unwrap()@, point_set(all_points@), point@),
{
    if all_points.len() == 0 {
        return None;
    }
    let mut best_index: usize = 0;
    let mut best = all_points[0];
    let mut best_distance = distance_squared(&best, point);
    let mut i: usize = 1;
    while i < all_points.len()
        invariant
            1 <= i <= all_points@.len(),
            best_index < i,
            best == all_points@[best_index as int],
            best_distance == dist2(best@, point@),
            forall|j: int| 0 <= j < i ==> dist2(best@, point@) <= dist2(#[trigger] all_points@[j]@, point@),
            forall|j: int| 0 <= j < best_index ==> dist2(#[trigger] all_points@[j]@, point@) > dist2(best@, point@),
        decreases all_points@.len() - i,
    {
        let distance = distance_squared(&all_points[i], point);
        if distance < best_distance {
            best_index = i;
            best = all_points[i];
            best_distance = distance;
        }
        i = i + 1;
    }
    proof {
        let s = point_set(all_points@);
        assert(s.contains(best@));
        assert forall|q: Seq<i32>| #[trigger] s.contains(q) implies dist2(best@, point@) <= dist2(q, point@) by {
            let j = choose|j: int| 0 <= j < all_points@.len() && all_points@[j]@ == q;
            assert(dist2(best@, point@) <= dist2(all_points@[j]@, point@));
        }
    }
    Some(best)
}

} // verus!
