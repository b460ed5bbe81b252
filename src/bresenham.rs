use vstd::prelude::*;

verus! {

/// Distance between `a` and `b` along axis `i`.
pub open spec fn axis_delta(a: Seq<i64>, b: Seq<i64>, i: int) -> int {
    let d = b[i] - a[i];
    if d < 0 { -d } else { d }
}

/// Direction of travel from `a` to `b` along axis `i`: `1` forwards, `-1` otherwise.
pub open spec fn axis_step(a: Seq<i64>, b: Seq<i64>, i: int) -> int {
    if b[i] > a[i] { 1 } else { -1 }
}

/// The dominant axis of the segment from `a` to `b`: an axis whose delta is the
/// largest, the last one among equals.
pub open spec fn is_dominant_axis(a: Seq<i64>, b: Seq<i64>, p: int) -> bool {
    &&& 0 <= p < a.len()
    &&& forall|i: int| 0 <= i < a.len() ==> axis_delta(a, b, i) <= axis_delta(a, b, p)
    &&& forall|i: int| p < i < a.len() ==> axis_delta(a, b, i) < axis_delta(a, b, p)
}

/// Coordinate `a` of cell `k` of the line from `s` to `t` in `n` dimensions,
/// whose dominant delta is `dd`.
///
/// Axis `a` has moved `floor((k * delta_a * (n + 1) + dd) / (dd * (n + 1)))`
/// cells towards `t`: it steps as soon as its accumulated share of the
/// dominant axis reaches `n / (n + 1)` of a cell.
pub open spec fn line_coord(s: Seq<i64>, t: Seq<i64>, n: int, dd: int, k: int, a: int) -> int {
    if dd == 0 {
        s[a] as int
    } else {
        s[a] + ((k * axis_delta(s, t, a) * (n + 1) + dd) / (dd * (n + 1))) * axis_step(s, t, a)
    }
}

/// `x` lies between `lo` and `hi`, in either order.
pub open spec fn between(x: int, lo: int, hi: int) -> bool {
    (lo <= x <= hi) || (hi <= x <= lo)
}

fn abs_delta(a: i64, b: i64) -> (r: i128)
    ensures
        r == (if b - a < 0 { a - b } else { b - a }),
{
    let d = (b as i128) - (a as i128);
    if d < 0 { -d } else { d }
}

/// Picks the dominant axis: the last of the axes along which the segment is longest.
fn dominant_axis<const N: usize>(start_point: &[i64; N], end_point: &[i64; N]) -> (p: usize)
    requires
        N > 0,
    ensures
        is_dominant_axis(start_point@, end_point@, p as int),
{
    let mut best: usize = 0;
    let mut best_delta = abs_delta(start_point[0], end_point[0]);
    let mut i: usize = 1;
    while i < N
        invariant
            N > 0,
            start_point@.len() == N,
            end_point@.len() == N,
            1 <= i <= N,
            best < i,
            best_delta == axis_delta(start_point@, end_point@, best as int),
            forall|j: int| 0 <= j < i ==> axis_delta(start_point@, end_point@, j) <= best_delta,
            forall|j: int| best < j < i ==> axis_delta(start_point@, end_point@, j) < best_delta,
        decreases N - i,
    {
        let d = abs_delta(start_point[i], end_point[i]);
        if d >= best_delta {
            best = i;
            best_delta = d;
        }
        i = i + 1;
    }
    best
}


/// The largest axis delta among the first `n` axes.
pub open spec fn max_axis_delta(a: Seq<i64>, b: Seq<i64>, n: int) -> int
    decreases n,
{
    if n <= 0 {
        0
    } else {
        let m = max_axis_delta(a, b, n - 1);
        let d = axis_delta(a, b, n - 1);
        if d > m { d } else { m }
    }
}

proof fn lemma_max_axis_delta(a: Seq<i64>, b: Seq<i64>, n: int)
    requires
        0 <= n <= a.len(),
        a.len() == b.len(),
    ensures
        forall|i: int| 0 <= i < n ==> axis_delta(a, b, i) <= max_axis_delta(a, b, n),
        n == 0 || exists|i: int| 0 <= i < n && max_axis_delta(a, b, n) == axis_delta(a, b, i),
    decreases n,
{
    if n > 0 {
        lemma_max_axis_delta(a, b, n - 1);
        if n - 1 > 0 {
            let i = choose|i: int| 0 <= i < n - 1 && max_axis_delta(a, b, n - 1) == axis_delta(a, b, i);
            assert(max_axis_delta(a, b, n) == axis_delta(a, b, i) || max_axis_delta(a, b, n) == axis_delta(a, b, n - 1));
        } else {
            assert(max_axis_delta(a, b, 0) == 0);
            assert(max_axis_delta(a, b, n) == axis_delta(a, b, 0));
        }
    }
}

/// The dominant axis carries the largest delta of all axes.
proof fn lemma_dominant_is_max(a: Seq<i64>, b: Seq<i64>, p: int)
    requires
        a.len() == b.len(),
        is_dominant_axis(a, b, p),
    ensures
        axis_delta(a, b, p) == max_axis_delta(a, b, a.len() as int),
{
    lemma_max_axis_delta(a, b, a.len() as int);
}

/// If `off * dd * np1 == k * d * np1 - e` with `e >= -dd` and `k <= dd`, then `off <= d`.
proof fn lemma_offset_bound(off: int, k: int, d: int, dd: int, np1: int, e: int)
    requires
        off * dd * np1 == k * d * np1 - e,
        e >= -dd,
        0 <= k <= dd,
        0 <= d,
        dd > 0,
        np1 > 1,
    ensures
        off <= d,
{
    assert(dd < dd * np1) by (nonlinear_arith)
        requires dd > 0, np1 > 1;
    assert(k * d * np1 <= dd * d * np1) by (nonlinear_arith)
        requires 0 <= k <= dd, 0 <= d, np1 > 0;
    assert((d + 1) * dd * np1 == dd * d * np1 + dd * np1) by (nonlinear_arith);
    assert(off * dd * np1 < (d + 1) * dd * np1);
    assert(off < d + 1) by (nonlinear_arith)
        requires off * dd * np1 < (d + 1) * dd * np1, dd > 0, np1 > 0;
}

/// The offset kept by the error accumulator is the closed form of
/// [`line_coord`].
proof fn lemma_line_offset(off: int, k: int, d: int, dd: int, np1: int, e: int)
    requires
        off * dd * np1 == k * d * np1 - e,
        -dd <= e < dd * (np1 - 1),
        dd > 0,
        np1 > 1,
    ensures
        off == (k * d * np1 + dd) / (dd * np1),
{
    assert(k * d * np1 + dd == off * (dd * np1) + (e + dd)) by (nonlinear_arith)
        requires off * dd * np1 == k * d * np1 - e;
    assert(dd * (np1 - 1) + dd == dd * np1) by (nonlinear_arith);
    assert(dd * np1 > 0) by (nonlinear_arith) requires dd > 0, np1 > 1;
    vstd::arithmetic::div_mod::lemma_fundamental_div_mod_converse(k * d * np1 + dd, dd * np1, off, e + dd);
}

/// A cell `off` steps from `a` towards `b` along axis `i`, with `off` at most the
/// axis delta, lies between the two ends.
proof fn lemma_between(a: Seq<i64>, b: Seq<i64>, i: int, off: int, x: int)
    requires
        0 <= i < a.len(),
        i < b.len(),
        0 <= off <= axis_delta(a, b, i),
        x == a[i] + off * axis_step(a, b, i),
    ensures
        between(x, a[i] as int, b[i] as int),
        off == axis_delta(a, b, i) <==> x == b[i],
{
    if b[i] > a[i] {
        assert(off * axis_step(a, b, i) == off);
    } else {
        assert(off * axis_step(a, b, i) == -off);
    }
}

/// Plots the grid cells on the segment from `start_point` to `end_point`.
///
/// The line walks the dominant axis one cell at a time, from the start cell to
/// the end cell, both included. Every other axis accumulates its share of the
/// dominant delta and steps once the accumulated share reaches `N / (N + 1)`
/// of a cell.
pub fn plot_bresenham_line<const N: usize>(start_point: [i64; N], end_point: [i64; N]) -> (r: Vec<[i64; N]>)
    requires
        N > 0,
        N <= usize::MAX / 8,
    ensures
        r@.len() == max_axis_delta(start_point@, end_point@, N as int) + 1,
        forall|k: int, a: int| 0 <= k < r@.len() && 0 <= a < N ==> #[trigger] r@[k]@[a] == line_coord(
            start_point@,
            end_point@,
            N as int,
            max_axis_delta(start_point@, end_point@, N as int),
            k,
            a,
        ),
        r@[0]@ == start_point@,
        r@[r@.len() - 1]@ == end_point@,
        forall|p: int, k: int| #![trigger r@[k]@[p], is_dominant_axis(start_point@, end_point@, p)]
            is_dominant_axis(start_point@, end_point@, p) && 0 <= k < r@.len()
                ==> r@[k]@[p] == start_point@[p] + k * axis_step(start_point@, end_point@, p),
        forall|k: int, a: int| 0 <= k < r@.len() && 0 <= a < N
            ==> between(r@[k]@[a] as int, start_point@[a] as int, end_point@[a] as int),
{
    let ghost s = start_point@;
    let ghost t = end_point@;
    let p = dominant_axis(&start_point, &end_point);
    proof {
        lemma_dominant_is_max(s, t, p as int);
    }
    let dd: i128 = abs_delta(start_point[p], end_point[p]);
    let np1: i128 = (N as i128) + 1;
    assert(0 <= dd * N <= 0x7fff_ffff_ffff_ffff_ffff_ffff_ffff_ffff) by (nonlinear_arith)
        requires 0 <= dd < 0x1_0000_0000_0000_0000, N <= usize::MAX / 8;
    let threshold: i128 = dd * (N as i128);
    let mut deltas: Vec<i128> = Vec::new();
    let mut steps: Vec<i64> = Vec::new();
    let mut errors: Vec<i128> = Vec::new();
    let mut i: usize = 0;
    while i < N
        invariant
            i <= N,
            s == start_point@,
            t == end_point@,
            deltas@.len() == i,
            steps@.len() == i,
            errors@.len() == i,
            forall|j: int| 0 <= j < i ==> deltas@[j] == axis_delta(s, t, j),
            forall|j: int| 0 <= j < i ==> steps@[j] == axis_step(s, t, j),
            forall|j: int| 0 <= j < i ==> errors@[j] == 0,
        decreases N - i,
    {
        deltas.push(abs_delta(start_point[i], end_point[i]));
        steps.push(if end_point[i] > start_point[i] { 1i64 } else { -1i64 });
        errors.push(0);
        i = i + 1;
    }
    let mut current = start_point;
    let mut points: Vec<[i64; N]> = Vec::new();
    let ghost mut k: int = 0;
    let ghost mut offsets: Seq<int> = Seq::new(N as nat, |j: int| 0);
    proof {
        assert forall|a: int| #![trigger offsets[a]] 0 <= a < N && a != p implies {
            &&& current@[a] == s[a] + offsets[a] * axis_step(s, t, a)
            &&& 0 <= offsets[a] <= axis_delta(s, t, a)
            &&& offsets[a] * dd * np1 == 0 * axis_delta(s, t, a) * np1 - errors@[a]
            &&& -dd <= errors@[a]
            &&& (errors@[a] < threshold || dd == 0)
        } by {
            assert(offsets[a] == 0);
            assert(0 * dd * np1 == 0);
            assert(0 * axis_delta(s, t, a) * np1 == 0);
            assert(0 * axis_step(s, t, a) == 0);
            if dd > 0 {
                assert(dd * N > 0) by (nonlinear_arith) requires dd > 0, N > 0;
            }
        }
        assert(0 <= threshold);
    }
    while current[p] != end_point[p]
        invariant
            s == start_point@,
            t == end_point@,
            is_dominant_axis(s, t, p as int),
            dd == axis_delta(s, t, p as int),
            np1 == N + 1,
            threshold == dd * N,
            0 < N <= usize::MAX / 8,
            deltas@.len() == N,
            steps@.len() == N,
            errors@.len() == N,
            offsets.len() == N,
            forall|j: int| 0 <= j < N ==> deltas@[j] == axis_delta(s, t, j),
            forall|j: int| 0 <= j < N ==> steps@[j] == axis_step(s, t, j),
            0 <= k <= dd,
            points@.len() == k,
            current@[p as int] == s[p as int] + k * axis_step(s, t, p as int),
            forall|a: int| #![trigger offsets[a]] 0 <= a < N && a != p ==> {
                &&& current@[a] == s[a] + offsets[a] * axis_step(s, t, a)
                &&& 0 <= offsets[a] <= axis_delta(s, t, a)
                &&& offsets[a] * dd * np1 == k * axis_delta(s, t, a) * np1 - errors@[a]
                &&& -dd <= errors@[a]
                &&& (errors@[a] < threshold || dd == 0)
            },
            k == 0 ==> current@ == s,
            forall|j: int, a: int| 0 <= j < k && 0 <= a < N
                ==> between(points@[j]@[a] as int, s[a] as int, t[a] as int),
            forall|j: int| 0 <= j < k ==> points@[j]@[p as int] == s[p as int] + j * axis_step(s, t, p as int),
            forall|j: int, a: int| 0 <= j < k && 0 <= a < N ==> #[trigger] points@[j]@[a] == line_coord(s, t, N as int, dd as int, j, a),
            k > 0 ==> points@[0]@ == start_point@,
        decreases dd - k,
    {
        proof {
            lemma_between(s, t, p as int, k, current@[p as int] as int);
            assert(k < dd);
            assert forall|a: int| 0 <= a < N implies between(current@[a] as int, s[a] as int, t[a] as int) by {
                if a != p {
                    lemma_between(s, t, a, offsets[a], current@[a] as int);
                }
            }
            if k == 0 {
                assert(current@ =~= start_point@);
            }
            assert forall|a: int| 0 <= a < N implies #[trigger] current@[a] == line_coord(s, t, N as int, dd as int, k, a) by {
                if a != p {
                    lemma_line_offset(offsets[a], k, axis_delta(s, t, a), dd as int, np1 as int, errors@[a] as int);
                } else {
                    assert(k * dd * np1 + dd == k * (dd * np1) + dd) by (nonlinear_arith);
                    assert(dd * np1 > dd) by (nonlinear_arith) requires dd > 0, np1 > 1;
                    vstd::arithmetic::div_mod::lemma_fundamental_div_mod_converse(k * dd * np1 + dd, dd * np1, k, dd as int);
                }
            }
        }
        points.push(current);
        let mut axis: usize = 0;
        while axis < N
            invariant
                s == start_point@,
                t == end_point@,
                is_dominant_axis(s, t, p as int),
                dd == axis_delta(s, t, p as int),
                np1 == N + 1,
                threshold == dd * N,
                0 < N <= usize::MAX / 8,
                deltas@.len() == N,
                steps@.len() == N,
                errors@.len() == N,
                offsets.len() == N,
                forall|j: int| 0 <= j < N ==> deltas@[j] == axis_delta(s, t, j),
                forall|j: int| 0 <= j < N ==> steps@[j] == axis_step(s, t, j),
                0 <= k < dd,
                axis <= N,
                current@[p as int] == s[p as int] + k * axis_step(s, t, p as int),
                forall|a: int| #![trigger offsets[a]] 0 <= a < N && a != p ==> {
                    let kk = if a < axis { k + 1 } else { k };
                    &&& current@[a] == s[a] + offsets[a] * axis_step(s, t, a)
                    &&& 0 <= offsets[a] <= axis_delta(s, t, a)
                    &&& offsets[a] * dd * np1 == kk * axis_delta(s, t, a) * np1 - errors@[a]
                    &&& -dd <= errors@[a] < threshold
                },
            decreases N - axis,
        {
            if axis != p {
                let ghost a = axis as int;
                let ghost d = axis_delta(s, t, a);
                let ghost o = offsets[a];
                assert(d <= dd);
                assert(errors@[a] + d * np1 < dd * N + dd * np1) by (nonlinear_arith)
                    requires errors@[a] < dd * N, d <= dd, np1 > 0, d >= 0;
                assert(dd * N + dd * np1 <= 0x7fff_ffff_ffff_ffff_ffff_ffff_ffff_ffff) by (nonlinear_arith)
                    requires dd < 0x1_0000_0000_0000_0000, N <= usize::MAX / 8, np1 == N + 1, dd >= 0;
                assert(0 <= d * np1 <= dd * np1) by (nonlinear_arith)
                    requires 0 <= d <= dd, np1 > 0;
                let e = errors[axis] + deltas[axis] * np1;
                proof {
                    assert((k + 1) * d * np1 == k * d * np1 + d * np1) by (nonlinear_arith);
                }
                if e >= threshold {
                    let e2 = e - dd * np1;
                    proof {
                        assert((offsets[a] + 1) * dd * np1 == offsets[a] * dd * np1 + dd * np1) by (nonlinear_arith);
                        assert(dd * N - dd * np1 == -dd) by (nonlinear_arith)
                            requires np1 == N + 1;
                        lemma_offset_bound(offsets[a] + 1, k + 1, d, dd as int, np1 as int, e2 as int);
                        assert((o + 1) * axis_step(s, t, a) == o * axis_step(s, t, a) + axis_step(s, t, a)) by (nonlinear_arith);
                        offsets = offsets.update(a, offsets[a] + 1);
                    }
                    let v = current[axis] + steps[axis];
                    current[axis] = v;
                    errors[axis] = e2;
                } else {
                    errors[axis] = e;
                }
            }
            axis = axis + 1;
        }
        proof {
            lemma_between(s, t, p as int, k + 1, s[p as int] + (k + 1) * axis_step(s, t, p as int));
            assert((k + 1) * axis_step(s, t, p as int) == k * axis_step(s, t, p as int) + axis_step(s, t, p as int)) by (nonlinear_arith);
        }
        let v = current[p] + steps[p];
        current[p] = v;
        proof {
            k = k + 1;
        }
    }
    proof {
        lemma_between(s, t, p as int, k, current@[p as int] as int);
        assert(k == dd);
        if dd > 0 {
            assert forall|a: int| 0 <= a < N implies #[trigger] end_point@[a] == line_coord(s, t, N as int, dd as int, k, a) by {
                let d = axis_delta(s, t, a);
                assert(dd * d * np1 + dd == d * (dd * np1) + dd) by (nonlinear_arith);
                assert(dd * np1 > dd) by (nonlinear_arith) requires dd > 0, np1 > 1;
                vstd::arithmetic::div_mod::lemma_fundamental_div_mod_converse(dd * d * np1 + dd, dd * np1, d, dd as int);
                lemma_between(s, t, a, d, s[a] + d * axis_step(s, t, a));
            }
        }
        if k == 0 {
            assert forall|a: int| 0 <= a < N implies s[a] == t[a] by {
                assert(axis_delta(s, t, a) <= dd);
            }
            assert(start_point@ =~= end_point@);
        }
    }
    points.push(end_point);
    points
}

} // verus!
