use vstd::prelude::*;

verus! {

/// Sum of the squared coordinate differences over the first `n` axes.
pub open spec fn dist2_prefix(a: Seq<i32>, b: Seq<i32>, n: int) -> int
    decreases n,
{
    if n <= 0 {
        0
    } else {
        dist2_prefix(a, b, n - 1) + (a[n - 1] - b[n - 1]) * (a[n - 1] - b[n - 1])
    }
}

/// Squared Euclidean distance between two points.
pub open spec fn dist2(a: Seq<i32>, b: Seq<i32>) -> int {
    dist2_prefix(a, b, a.len() as int)
}

proof fn lemma_square_bound(x: int, y: int)
    requires
        i32::MIN <= x <= i32::MAX,
        i32::MIN <= y <= i32::MAX,
    ensures
        0 <= (x - y) * (x - y) <= 0x1_0000_0000_0000_0000,
{
    let d = x - y;
    assert(-0x1_0000_0000 <= d <= 0x1_0000_0000);
    assert(0 <= d * d <= 0x1_0000_0000 * 0x1_0000_0000) by (nonlinear_arith)
        requires -0x1_0000_0000 <= d <= 0x1_0000_0000;
}

proof fn lemma_dist2_prefix_bounds(a: Seq<i32>, b: Seq<i32>, n: int)
    requires
        0 <= n <= a.len(),
        n <= b.len(),
    ensures
        0 <= dist2_prefix(a, b, n) <= n * 0x1_0000_0000_0000_0000,
    decreases n,
{
    if n > 0 {
        lemma_dist2_prefix_bounds(a, b, n - 1);
        lemma_square_bound(a[n - 1] as int, b[n - 1] as int);
    }
}

/// The squared distance bounds the square of each single coordinate difference.
pub proof fn lemma_dist2_ge_axis(a: Seq<i32>, b: Seq<i32>, n: int, ax: int)
    requires
        0 <= ax < n <= a.len(),
        n <= b.len(),
    ensures
        dist2_prefix(a, b, n) >= (a[ax] - b[ax]) * (a[ax] - b[ax]),
    decreases n,
{
    lemma_dist2_prefix_bounds(a, b, n - 1);
    lemma_square_bound(a[n - 1] as int, b[n - 1] as int);
    if ax < n - 1 {
        lemma_dist2_ge_axis(a, b, n - 1, ax);
    }
}

/// The squared Euclidean distance between two points, computed exactly.
pub fn distance_squared<const N: usize>(point_a: &[i32; N], point_b: &[i32; N]) -> (r: u128)
    ensures
        r == dist2(point_a@, point_b@),
{
    let mut sum: u128 = 0;
    let mut i: usize = 0;
    while i < N
        invariant
            i <= N,
            point_a@.len() == N,
            point_b@.len() == N,
            sum == dist2_prefix(point_a@, point_b@, i as int),
        decreases N - i,
    {
        proof {
            lemma_dist2_prefix_bounds(point_a@, point_b@, i as int + 1);
            assert((i as int + 1) * 0x1_0000_0000_0000_0000 <= 0x1_0000_0000_0000_0000 * 0x1_0000_0000_0000_0000)
                by (nonlinear_arith) requires i < N, N <= usize::MAX;
        }
        let diff = (point_a[i] as i64) - (point_b[i] as i64);
        proof {
            lemma_square_bound(point_a@[i as int] as int, point_b@[i as int] as int);
        }
        let sq = (diff as i128) * (diff as i128);
        sum = sum + (sq as u128);
        i = i + 1;
    }
    sum
}

/// Whether two points have equal coordinates.
pub fn points_equal<const N: usize>(point_a: &[i32; N], point_b: &[i32; N]) -> (r: bool)
    ensures
        r == (point_a@ == point_b@),
{
    let mut i: usize = 0;
    while i < N
        invariant
            i <= N,
            point_a@.len() == N,
            point_b@.len() == N,
            forall|j: int| 0 <= j < i ==> point_a@[j] == point_b@[j],
        decreases N - i,
    {
        if point_a[i] != point_b[i] {
            return false;
        }
        i = i + 1;
    }
    assert(point_a@ =~= point_b@);
    true
}

} // verus!
