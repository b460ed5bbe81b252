use vstd::prelude::*;

use crate::bresenham::{between, line_coord, max_axis_delta, plot_bresenham_line};

verus! {

/// One cell of an occupancy grid: its log-odds of being occupied, and the
/// frame that last updated it (`0` for never).
#[derive(Clone, Copy, Debug, PartialEq, Eq, Structural)]
pub struct OccupancyCell {
    pub log_odds: i64,
    pub last_update_frame: u8,
}

/// `x` clamped to the range of `i64`.
pub open spec fn saturate(x: int) -> int {
    if x < i64::MIN { i64::MIN as int } else if x > i64::MAX { i64::MAX as int } else { x }
}

/// A cell after an "occupied" observation in `frame`.
///
/// A cell at or above `max_confidence` stays as it is. A cell already touched
/// in the same frame gains both increments, which cancels the "free" decrement
/// that the ray leading to it applied; any other cell gains the occupied
/// increment and records the frame.
pub open spec fn occupied_update(c: OccupancyCell, frame: u8, pos: int, neg: int, max_confidence: int) -> OccupancyCell {
    if c.log_odds >= max_confidence {
        c
    } else if c.last_update_frame == frame {
        OccupancyCell { log_odds: saturate(c.log_odds + pos + neg) as i64, ..c }
    } else {
        OccupancyCell { log_odds: saturate(c.log_odds + pos) as i64, last_update_frame: frame }
    }
}

/// A cell after a "free" observation in `frame`: the first touch in a frame
/// takes off the free decrement and records the frame; later touches in the
/// same frame change nothing.
pub open spec fn free_update(c: OccupancyCell, frame: u8, neg: int) -> OccupancyCell {
    if c.last_update_frame != frame {
        OccupancyCell { log_odds: saturate(c.log_odds - neg) as i64, last_update_frame: frame }
    } else {
        c
    }
}

/// The product of the first `n` dimensions: the stride of axis `n`.
pub open spec fn stride_of(dimensions: Seq<usize>, n: int) -> int
    decreases n,
{
    if n <= 0 { 1 } else { stride_of(dimensions, n - 1) * dimensions[n - 1] }
}

/// The row-major offset of the first `n` coordinates of `point`.
pub open spec fn offset_of(point: Seq<usize>, strides: Seq<usize>, n: int) -> int
    decreases n,
{
    if n <= 0 { 0 } else { offset_of(point, strides, n - 1) + point[n - 1] * strides[n - 1] }
}

/// A dense `N`-dimensional occupancy grid of log-odds cells, addressed in
/// row-major order.
///
/// Log-odds are integers in a unit of the caller's choosing; the occupied and
/// free increments are given in that unit. Sums saturate at the bounds of
/// `i64`.
pub struct GridMap<const N: usize> {
    data: Vec<OccupancyCell>,
    strides: [usize; N],
    confidence_pos_factor: i64,
    confidence_neg_factor: i64,
    max_confidence: i64,
}

impl<const N: usize> GridMap<N> {
    /// The cells, in row-major order.
    pub closed spec fn cells(&self) -> Seq<OccupancyCell> {
        self.data@
    }

    /// The stride of each axis.
    pub closed spec fn strides(&self) -> Seq<usize> {
        self.strides@
    }

    /// The log-odds added by an occupied observation.
    pub closed spec fn pos_factor(&self) -> int {
        self.confidence_pos_factor as int
    }

    /// The log-odds taken off by a free observation.
    pub closed spec fn neg_factor(&self) -> int {
        self.confidence_neg_factor as int
    }

    /// The confidence at which occupied observations stop adding.
    pub closed spec fn max_confidence(&self) -> int {
        self.max_confidence as int
    }

    /// The index of the cell at `point`, if it lies within the grid.
    pub open spec fn index_of(&self, point: Seq<usize>) -> int {
        offset_of(point, self.strides(), N as int)
    }

    /// Creates a grid of the given dimensions, every cell at log-odds zero and
    /// never updated.
    ///
    /// `occupied_factor` and `free_factor` are the log-odds increments of an
    /// occupied and a free observation.
    pub fn create(dimensions: &[usize; N], occupied_factor: i64, free_factor: i64, max_confidence: i64) -> (r: Self)
        requires
            forall|i: int| 0 <= i <= N ==> #[trigger] stride_of(dimensions@, i) <= usize::MAX,
        ensures
            r.cells().len() == stride_of(dimensions@, N as int),
            forall|i: int| 0 <= i < r.cells().len()
                ==> #[trigger] r.cells()[i] == (OccupancyCell { log_odds: 0, last_update_frame: 0 }),
            r.strides().len() == N,
            forall|i: int| 0 <= i < N ==> #[trigger] r.strides()[i] == stride_of(dimensions@, i),
            r.pos_factor() == occupied_factor,
            r.neg_factor() == free_factor,
            r.max_confidence() == max_confidence,
    {
        let mut strides = [0usize; N];
        let mut product: usize = 1;
        let mut i: usize = 0;
        while i < N
            invariant
                i <= N,
                dimensions@.len() == N,
                strides@.len() == N,
                forall|j: int| 0 <= j <= N ==> #[trigger] stride_of(dimensions@, j) <= usize::MAX,
                product == stride_of(dimensions@, i as int),
                forall|j: int| 0 <= j < i ==> #[trigger] strides@[j] == stride_of(dimensions@, j),
            decreases N - i,
        {
            proof {
                lemma_stride_nonneg(dimensions@, i as int + 1);
                assert(stride_of(dimensions@, i as int + 1) <= usize::MAX);
            }
            strides[i] = product;
            product = product * dimensions[i];
            i = i + 1;
        }
        let mut data: Vec<OccupancyCell> = Vec::new();
        let mut k: usize = 0;
        while k < product
            invariant
                k <= product,
                data@.len() == k,
                forall|j: int| 0 <= j < k
                    ==> #[trigger] data@[j] == (OccupancyCell { log_odds: 0, last_update_frame: 0 }),
            decreases product - k,
        {
            data.push(OccupancyCell { log_odds: 0, last_update_frame: 0 });
            k = k + 1;
        }
        GridMap {
            data,
            strides,
            confidence_pos_factor: occupied_factor,
            confidence_neg_factor: free_factor,
            max_confidence,
        }
    }

    /// The index of the cell at `point`, or `None` when it lies past the last cell.
    fn get_cell_coord(&self, point: &[usize; N]) -> (r: Option<usize>)
        ensures
            r.is_some() <==> 0 <= self.index_of(point@) < self.cells().len(),
            r.is_some() ==> r.unwrap() == self.index_of(point@),
    {
        let len = self.data.len();
        if len == 0 {
            proof {
                lemma_offset_grows(point@, self.strides@, 0, N as int);
            }
            return None;
        }
        let mut offset: usize = 0;
        let mut i: usize = 0;
        while i < N
            invariant
                i <= N,
                point@.len() == N,
                self.strides@.len() == N,
                len == self.data@.len(),
                offset == offset_of(point@, self.strides@, i as int),
                offset < len,
            decreases N - i,
        {
            proof {
                assert(point@[i as int] * self.strides@[i as int] <= usize::MAX * usize::MAX) by (nonlinear_arith)
                    requires point@[i as int] <= usize::MAX, self.strides@[i as int] <= usize::MAX;
                assert(point@[i as int] * self.strides@[i as int] >= 0) by (nonlinear_arith)
                    requires point@[i as int] >= 0, self.strides@[i as int] >= 0;
            }
            let term = (point[i] as u128) * (self.strides[i] as u128);
            if term >= len as u128 - offset as u128 {
                proof {
                    lemma_offset_grows(point@, self.strides@, i as int + 1, N as int);
                }
                return None;
            }
            offset = offset + term as usize;
            i = i + 1;
        }
        Some(offset)
    }

    /// The log-odds of the cell at `point`, or `None` outside the grid.
    pub fn get_cell_log_odds(&self, point: &[usize; N]) -> (r: Option<i64>)
        ensures
            r.is_some() <==> 0 <= self.index_of(point@) < self.cells().len(),
            r.is_some() ==> r.unwrap() == self.cells()[self.index_of(point@)].log_odds,
    {
        match self.get_cell_coord(point) {
            Some(idx) => Some(self.data[idx].log_odds),
            None => None,
        }
    }

    /// Records an occupied observation of the cell at `point` in frame
    /// `update_frame_idx`; a point outside the grid changes nothing.
    pub fn update_taken(&mut self, point: &[usize; N], update_frame_idx: u8)
        ensures
            final(self).strides() == old(self).strides(),
            final(self).pos_factor() == old(self).pos_factor(),
            final(self).neg_factor() == old(self).neg_factor(),
            final(self).max_confidence() == old(self).max_confidence(),
            ({
                let idx = old(self).index_of(point@);
                if 0 <= idx < old(self).cells().len() {
                    final(self).cells() == old(self).cells().update(
                        idx,
                        occupied_update(
                            old(self).cells()[idx],
                            update_frame_idx,
                            old(self).pos_factor(),
                            old(self).neg_factor(),
                            old(self).max_confidence(),
                        ),
                    )
                } else {
                    final(self).cells() == old(self).cells()
                }
            }),
    {
        if let Some(idx) = self.get_cell_coord(point) {
            let cell = self.data[idx];
            if cell.log_odds < self.max_confidence {
                if cell.last_update_frame == update_frame_idx {
                    let increment = (self.confidence_pos_factor as i128) + (self.confidence_neg_factor as i128);
                    let odds = saturating_add(cell.log_odds, increment);
                    self.data.set(idx, OccupancyCell { log_odds: odds, last_update_frame: cell.last_update_frame });
                } else {
                    let odds = saturating_add(cell.log_odds, self.confidence_pos_factor as i128);
                    self.data.set(idx, OccupancyCell { log_odds: odds, last_update_frame: update_frame_idx });
                }
            }
            proof {
                assert(self.data@ =~= old(self).cells().update(
                    idx as int,
                    occupied_update(
                        old(self).cells()[idx as int],
                        update_frame_idx,
                        old(self).pos_factor(),
                        old(self).neg_factor(),
                        old(self).max_confidence(),
                    ),
                ));
            }
        }
    }

    /// Casts a ray from the cell `origin` to the cell `hit`: every cell of the
    /// line between them but the last gets a free observation in `frame`, and
    /// the last, `hit`, an occupied one. Returns the cells of the line, in order.
    pub fn integrate_ray(&mut self, origin: &[usize; N], hit: &[usize; N], frame: u8) -> (r: Vec<[usize; N]>)
        requires
            0 < N <= usize::MAX / 8,
            forall|i: int| 0 <= i < N ==> #[trigger] origin@[i] <= i64::MAX,
            forall|i: int| 0 <= i < N ==> #[trigger] hit@[i] <= i64::MAX,
        ensures
            r@.map_values(|p: [usize; N]| p@) == ray_cells(origin@, hit@),
            r@[0]@ == origin@,
            r@[r@.len() - 1]@ == hit@,
            final(self).strides() == old(self).strides(),
            final(self).pos_factor() == old(self).pos_factor(),
            final(self).neg_factor() == old(self).neg_factor(),
            final(self).max_confidence() == old(self).max_confidence(),
            final(self).cells() == ray_update(
                old(self).cells(),
                old(self).strides(),
                origin@,
                hit@,
                frame,
                old(self).pos_factor(),
                old(self).neg_factor(),
                old(self).max_confidence(),
            ),
    {
        let start = to_signed(origin);
        let end = to_signed(hit);
        let line = plot_bresenham_line(start, end);
        let mut cells: Vec<[usize; N]> = Vec::new();
        let mut k: usize = 0;
        while k < line.len()
            invariant
                k <= line@.len(),
                cells@.len() == k,
                forall|j: int, a: int| 0 <= j < line@.len() && 0 <= a < N
                    ==> between(line@[j]@[a] as int, start@[a] as int, end@[a] as int),
                forall|a: int| 0 <= a < N ==> #[trigger] start@[a] == origin@[a] as int,
                forall|a: int| 0 <= a < N ==> #[trigger] end@[a] == hit@[a] as int,
                forall|j: int, a: int| 0 <= j < k && 0 <= a < N
                    ==> #[trigger] cells@[j]@[a] == line@[j]@[a] as int,
            decreases line@.len() - k,
        {
            let cell = to_unsigned(&line[k], origin, hit);
            cells.push(cell);
            k = k + 1;
        }
        let ghost old_self = *self;
        let last = cells.len() - 1;
        let mut j: usize = 0;
        while j < last
            invariant
                j <= last,
                last == cells@.len() - 1,
                self.strides() == old_self.strides(),
                self.pos_factor() == old_self.pos_factor(),
                self.neg_factor() == old_self.neg_factor(),
                self.max_confidence() == old_self.max_confidence(),
                self.cells() == free_along(
                    old_self.cells(),
                    old_self.strides(),
                    cells@.map_values(|p: [usize; N]| p@).take(j as int),
                    frame,
                    old_self.neg_factor(),
                ),
            decreases last - j,
        {
            self.update_free(&cells[j], frame);
            proof {
                let views = cells@.map_values(|p: [usize; N]| p@);
                assert(views.take(j as int + 1).drop_last() == views.take(j as int));
                assert(views.take(j as int + 1).last() == cells@[j as int]@);
            }
            j = j + 1;
        }
        proof {
            let views = cells@.map_values(|p: [usize; N]| p@);
            assert(views.take(last as int) == views.drop_last());
            assert forall|a: int| 0 <= a < N implies cells@[last as int]@[a] == hit@[a] by {
                assert(line@[last as int]@[a] == end@[a]);
            }
            assert(cells@[last as int]@ =~= hit@);
            assert forall|a: int| 0 <= a < N implies cells@[0]@[a] == origin@[a] by {
                assert(line@[0]@[a] == start@[a]);
            }
            assert(cells@[0]@ =~= origin@);
            let sa = as_signed(origin@);
            let ta = as_signed(hit@);
            assert(sa =~= start@);
            assert(ta =~= end@);
            let rc = ray_cells(origin@, hit@);
            assert(rc.len() == views.len());
            assert forall|k: int| 0 <= k < views.len() implies #[trigger] views[k] == rc[k] by {
                assert forall|a: int| 0 <= a < N implies views[k][a] == rc[k][a] by {
                    assert(cells@[k]@[a] == line@[k]@[a] as int);
                }
                assert(views[k] =~= rc[k]);
            }
            assert(views =~= rc);
        }
        self.update_taken(&cells[last], frame);
        cells
    }

    /// Casts a ray from `origin` to each cell of `hits` in turn, all in `frame`.
    pub fn integrate_scan(&mut self, origin: &[usize; N], hits: &[[usize; N]], frame: u8)
        requires
            0 < N <= usize::MAX / 8,
            forall|i: int| 0 <= i < N ==> #[trigger] origin@[i] <= i64::MAX,
            forall|j: int, i: int| 0 <= j < hits@.len() && 0 <= i < N ==> #[trigger] hits@[j]@[i] <= i64::MAX,
        ensures
            final(self).strides() == old(self).strides(),
            final(self).pos_factor() == old(self).pos_factor(),
            final(self).neg_factor() == old(self).neg_factor(),
            final(self).max_confidence() == old(self).max_confidence(),
            final(self).cells() == scan_update(
                old(self).cells(),
                old(self).strides(),
                origin@,
                hits@.map_values(|p: [usize; N]| p@),
                frame,
                old(self).pos_factor(),
                old(self).neg_factor(),
                old(self).max_confidence(),
            ),
    {
        let ghost old_self = *self;
        let mut j: usize = 0;
        while j < hits.len()
            invariant
                0 < N <= usize::MAX / 8,
                j <= hits@.len(),
                forall|i: int| 0 <= i < N ==> #[trigger] origin@[i] <= i64::MAX,
                forall|jj: int, i: int| 0 <= jj < hits@.len() && 0 <= i < N ==> #[trigger] hits@[jj]@[i] <= i64::MAX,
                self.strides() == old_self.strides(),
                self.pos_factor() == old_self.pos_factor(),
                self.neg_factor() == old_self.neg_factor(),
                self.max_confidence() == old_self.max_confidence(),
                self.cells() == scan_update(
                    old_self.cells(),
                    old_self.strides(),
                    origin@,
                    hits@.map_values(|p: [usize; N]| p@).take(j as int),
                    frame,
                    old_self.pos_factor(),
                    old_self.neg_factor(),
                    old_self.max_confidence(),
                ),
            decreases hits@.len() - j,
        {
            assert(forall|i: int| 0 <= i < N ==> #[trigger] hits@[j as int]@[i] <= i64::MAX);
            self.integrate_ray(origin, &hits[j], frame);
            proof {
                let views = hits@.map_values(|p: [usize; N]| p@);
                assert(views.take(j as int + 1).drop_last() == views.take(j as int));
                assert(views.take(j as int + 1).last() == hits@[j as int]@);
            }
            j = j + 1;
        }
        proof {
            let views = hits@.map_values(|p: [usize; N]| p@);
            assert(views.take(j as int) == views);
        }
    }

    /// Records a free observation of the cell at `point` in frame
    /// `update_frame_idx`; a point outside the grid changes nothing.
    pub fn update_free(&mut self, point: &[usize; N], update_frame_idx: u8)
        ensures
            final(self).strides() == old(self).strides(),
            final(self).pos_factor() == old(self).pos_factor(),
            final(self).neg_factor() == old(self).neg_factor(),
            final(self).max_confidence() == old(self).max_confidence(),
            ({
                let idx = old(self).index_of(point@);
                if 0 <= idx < old(self).cells().len() {
                    final(self).cells() == old(self).cells().update(
                        idx,
                        free_update(old(self).cells()[idx], update_frame_idx, old(self).neg_factor()),
                    )
                } else {
                    final(self).cells() == old(self).cells()
                }
            }),
    {
        if let Some(idx) = self.get_cell_coord(point) {
            let cell = self.data[idx];
            if cell.last_update_frame != update_frame_idx {
                let odds = saturating_add(cell.log_odds, -(self.confidence_neg_factor as i128));
                self.data.set(idx, OccupancyCell { log_odds: odds, last_update_frame: update_frame_idx });
            }
            proof {
                assert(self.data@ =~= old(self).cells().update(
                    idx as int,
                    free_update(old(self).cells()[idx as int], update_frame_idx, old(self).neg_factor()),
                ));
            }
        }
    }
}

/// A cell after occupied observations in each frame of `frames`, in order.
pub open spec fn occupied_updates(c: OccupancyCell, frames: Seq<u8>, pos: int, neg: int, max_confidence: int) -> OccupancyCell
    decreases frames.len(),
{
    if frames.len() == 0 {
        c
    } else {
        occupied_update(
            occupied_updates(c, frames.drop_last(), pos, neg, max_confidence),
            frames.last(),
            pos,
            neg,
            max_confidence,
        )
    }
}

/// A cell after free observations in each frame of `frames`, in order.
pub open spec fn free_updates(c: OccupancyCell, frames: Seq<u8>, neg: int) -> OccupancyCell
    decreases frames.len(),
{
    if frames.len() == 0 {
        c
    } else {
        free_update(free_updates(c, frames.drop_last(), neg), frames.last(), neg)
    }
}

/// Occupied observations stop adding once a cell reaches the maximum
/// confidence: however many come, in whatever frames, a cell that starts no
/// higher than one increment above the maximum stays there, and a cell at or
/// above the maximum does not change at all.
pub proof fn lemma_occupied_updates_clamped(
    c: OccupancyCell,
    frames: Seq<u8>,
    pos: int,
    neg: int,
    max_confidence: int,
)
    requires
        pos >= 0,
        neg >= 0,
        c.log_odds <= max_confidence + pos + neg,
    ensures
        occupied_updates(c, frames, pos, neg, max_confidence).log_odds <= max_confidence + pos + neg,
        c.log_odds >= max_confidence ==> occupied_updates(c, frames, pos, neg, max_confidence) == c,
    decreases frames.len(),
{
    if frames.len() > 0 {
        lemma_occupied_updates_clamped(c, frames.drop_last(), pos, neg, max_confidence);
    }
}

/// Free observations have no floor: each one in a frame other than the
/// previous one takes the free decrement off again, so the log-odds drift
/// down by that much per frame, as far as `i64` reaches.
pub proof fn lemma_free_updates_drift(c: OccupancyCell, frames: Seq<u8>, neg: int)
    requires
        neg >= 0,
        frames.len() > 0 ==> frames[0] != c.last_update_frame,
        forall|i: int| 0 < i < frames.len() ==> #[trigger] frames[i] != frames[i - 1],
        c.log_odds - frames.len() * neg >= i64::MIN,
    ensures
        free_updates(c, frames, neg).log_odds == c.log_odds - frames.len() * neg,
        frames.len() > 0 ==> free_updates(c, frames, neg).last_update_frame == frames.last(),
    decreases frames.len(),
{
    if frames.len() > 0 {
        let pre = frames.drop_last();
        assert forall|i: int| 0 < i < pre.len() implies #[trigger] pre[i] != pre[i - 1] by {
            assert(frames[i] != frames[i - 1]);
        }
        assert(c.log_odds - pre.len() * neg >= i64::MIN) by (nonlinear_arith)
            requires c.log_odds - frames.len() * neg >= i64::MIN, pre.len() == frames.len() - 1, neg >= 0;
        lemma_free_updates_drift(c, pre, neg);
        if pre.len() > 0 {
            assert(frames[pre.len() as int] != frames[pre.len() - 1]);
        }
        assert(c.log_odds - pre.len() * neg - neg == c.log_odds - frames.len() * neg) by (nonlinear_arith)
            requires pre.len() == frames.len() - 1;
    }
}

/// The cells after free observations, in `frame`, of each grid point of
/// `line` in turn.
pub open spec fn free_along(
    cells: Seq<OccupancyCell>,
    strides: Seq<usize>,
    line: Seq<Seq<usize>>,
    frame: u8,
    neg: int,
) -> Seq<OccupancyCell>
    decreases line.len(),
{
    if line.len() == 0 {
        cells
    } else {
        let prev = free_along(cells, strides, line.drop_last(), frame, neg);
        let idx = offset_of(line.last(), strides, strides.len() as int);
        if 0 <= idx < prev.len() {
            prev.update(idx, free_update(prev[idx], frame, neg))
        } else {
            prev
        }
    }
}

/// The grid cells of the line from `origin` to `hit`, in order.
pub open spec fn ray_cells(origin: Seq<usize>, hit: Seq<usize>) -> Seq<Seq<usize>> {
    let s = as_signed(origin);
    let t = as_signed(hit);
    let n = origin.len() as int;
    let dd = max_axis_delta(s, t, n);
    Seq::new((dd + 1) as nat, |k: int| Seq::new(n as nat, |a: int| line_coord(s, t, n, dd, k, a) as usize))
}

/// The cells after a ray from `origin` to `hit` in `frame`: a free
/// observation of every cell of the line but the last, then an occupied
/// observation of `hit`.
pub open spec fn ray_update(
    cells: Seq<OccupancyCell>,
    strides: Seq<usize>,
    origin: Seq<usize>,
    hit: Seq<usize>,
    frame: u8,
    pos: int,
    neg: int,
    max_confidence: int,
) -> Seq<OccupancyCell> {
    let freed = free_along(cells, strides, ray_cells(origin, hit).drop_last(), frame, neg);
    let idx = offset_of(hit, strides, strides.len() as int);
    if 0 <= idx < freed.len() {
        freed.update(idx, occupied_update(freed[idx], frame, pos, neg, max_confidence))
    } else {
        freed
    }
}

/// The cells after rays from `origin` to each cell of `hits`, in order.
pub open spec fn scan_update(
    cells: Seq<OccupancyCell>,
    strides: Seq<usize>,
    origin: Seq<usize>,
    hits: Seq<Seq<usize>>,
    frame: u8,
    pos: int,
    neg: int,
    max_confidence: int,
) -> Seq<OccupancyCell>
    decreases hits.len(),
{
    if hits.len() == 0 {
        cells
    } else {
        ray_update(
            scan_update(cells, strides, origin, hits.drop_last(), frame, pos, neg, max_confidence),
            strides,
            origin,
            hits.last(),
            frame,
            pos,
            neg,
            max_confidence,
        )
    }
}

/// The coordinates of a grid cell as signed integers.
pub open spec fn as_signed(point: Seq<usize>) -> Seq<i64> {
    point.map_values(|c: usize| c as i64)
}

fn to_signed<const N: usize>(point: &[usize; N]) -> (r: [i64; N])
    requires
        forall|i: int| 0 <= i < N ==> #[trigger] point@[i] <= i64::MAX,
    ensures
        r@ == as_signed(point@),
        forall|i: int| 0 <= i < N ==> #[trigger] r@[i] == point@[i] as int,
{
    let mut r = [0i64; N];
    let mut i: usize = 0;
    while i < N
        invariant
            i <= N,
            point@.len() == N,
            r@.len() == N,
            forall|j: int| 0 <= j < N ==> #[trigger] point@[j] <= i64::MAX,
            forall|j: int| 0 <= j < i ==> #[trigger] r@[j] == point@[j] as int,
        decreases N - i,
    {
        r[i] = point[i] as i64;
        i = i + 1;
    }
    assert(r@ =~= as_signed(point@));
    r
}

/// A cell of a line between two grid cells, back in grid coordinates.
fn to_unsigned<const N: usize>(cell: &[i64; N], origin: &[usize; N], hit: &[usize; N]) -> (r: [usize; N])
    requires
        forall|a: int| 0 <= a < N ==> between(cell@[a] as int, origin@[a] as int, hit@[a] as int),
    ensures
        forall|a: int| 0 <= a < N ==> #[trigger] r@[a] == cell@[a] as int,
{
    let mut r = [0usize; N];
    let mut i: usize = 0;
    while i < N
        invariant
            i <= N,
            cell@.len() == N,
            r@.len() == N,
            forall|a: int| 0 <= a < N ==> between(cell@[a] as int, origin@[a] as int, hit@[a] as int),
            forall|j: int| 0 <= j < i ==> #[trigger] r@[j] == cell@[j] as int,
        decreases N - i,
    {
        assert(between(cell@[i as int] as int, origin@[i as int] as int, hit@[i as int] as int));
        r[i] = cell[i] as usize;
        i = i + 1;
    }
    r
}

/// `value + increment`, clamped to the range of `i64`.
fn saturating_add(value: i64, increment: i128) -> (r: i64)
    requires
        -0x1_0000_0000_0000_0000 <= increment <= 0x1_0000_0000_0000_0000,
    ensures
        r == saturate(value + increment),
{
    let sum = (value as i128) + increment;
    if sum < i64::MIN as i128 {
        i64::MIN
    } else if sum > i64::MAX as i128 {
        i64::MAX
    } else {
        sum as i64
    }
}

/// Later coordinates only add to the offset.
proof fn lemma_offset_grows(point: Seq<usize>, strides: Seq<usize>, i: int, n: int)
    requires
        0 <= i <= n <= point.len(),
        n <= strides.len(),
    ensures
        offset_of(point, strides, i) <= offset_of(point, strides, n),
    decreases n - i,
{
    if i < n {
        lemma_offset_grows(point, strides, i, n - 1);
        let p = point[n - 1] as int;
        let s = strides[n - 1] as int;
        assert(p * s >= 0) by (nonlinear_arith)
            requires p >= 0, s >= 0;
    }
}

proof fn lemma_stride_nonneg(dimensions: Seq<usize>, n: int)
    requires
        n <= dimensions.len(),
    ensures
        stride_of(dimensions, n) >= 0,
    decreases n,
{
    if n > 0 {
        lemma_stride_nonneg(dimensions, n - 1);
        let a = stride_of(dimensions, n - 1);
        let d = dimensions[n - 1] as int;
        assert(a * d >= 0) by (nonlinear_arith)
            requires a >= 0, d >= 0;
    }
}

} // verus!
