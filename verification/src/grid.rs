//! The terrain grid: an elevation matrix with an owned random source and
//! cached summary statistics.

use crate::fault::{cell_hit, SLOPE_COUNT, COORD_LIMIT};
use vstd::arithmetic::div_mod::{lemma_div_is_ordered, lemma_div_multiples_vanish};
use vstd::prelude::*;

verus! {

/// A `height x width` matrix of elevations. Every cell starts at zero and
/// counts how many fault mutations have raised it. The cached `min`, `avg`
/// and `max` describe the matrix as of the last statistics recomputation;
/// they go stale after a mutation until recomputed.
pub struct TerrainGrid {
    /// Number of rows; fixed after construction.
    pub height: usize,
    /// Number of columns; fixed after construction.
    pub width: usize,
    /// The elevation matrix, indexed `grid[row][col]`.
    pub grid: Vec<Vec<u16>>,
    /// The grid's own pseudo-random source, seeded at construction.
    pub rng: rand::rngs::ThreadRng,
    /// `width * height`, fixed after construction.
    pub area: usize,
    /// Smallest elevation at the last recomputation.
    pub min: u16,
    /// Floor of the mean elevation at the last recomputation.
    pub avg: u16,
    /// Largest elevation at the last recomputation.
    pub max: u16,
    /// How many fault mutations have been applied since construction.
    pub mutations: Ghost<nat>,
}

impl TerrainGrid {
    /// The elevation of cell `(r, c)`.
    pub open spec fn cell(self, r: int, c: int) -> u16 {
        self.grid@[r]@[c]
    }

    /// Whether `(r, c)` indexes a cell of this grid.
    pub open spec fn in_range(self, r: int, c: int) -> bool {
        0 <= r < self.height && 0 <= c < self.width
    }

    /// Well-formedness: positive dimensions small enough that the total
    /// elevation mass fits a `usize`, a rectangular matrix of the stated
    /// shape, and no cell above the count of mutations applied so far, which
    /// itself never passes the 16-bit elevation range.
    pub open spec fn wf(self) -> bool {
        &&& 1 <= self.height
        &&& 1 <= self.width
        &&& self.height * self.width * 65535 <= usize::MAX
        &&& self.area == self.height * self.width
        &&& self.grid@.len() == self.height
        &&& forall|r: int| 0 <= r < self.height ==> (#[trigger] self.grid@[r])@.len() == self.width
        &&& self.mutations@ <= 65535
        &&& forall|r: int, c: int|
            self.in_range(r, c) ==> #[trigger] self.cell(r, c) <= self.mutations@
    }
}

/// Consequences of well-formedness that the arithmetic below leans on: the
/// dimensions and the area are far below every overflow boundary.
pub proof fn lemma_wf_bounds(g: TerrainGrid)
    requires
        g.wf(),
    ensures
        1 <= g.area,
        g.height * g.width <= usize::MAX,
        g.area * 65535 <= usize::MAX,
        g.width * 65535 <= usize::MAX,
        g.height * 65535 <= usize::MAX,
        g.width < COORD_LIMIT,
        g.height < COORD_LIMIT,
{
    assert(g.height * g.width <= g.height * g.width * 65535) by (nonlinear_arith)
        requires
            1 <= g.height,
            1 <= g.width,
    ;
    assert(1 <= g.height * g.width) by (nonlinear_arith)
        requires
            1 <= g.height,
            1 <= g.width,
    ;
    assert(g.width * 65535 <= g.height * g.width * 65535) by (nonlinear_arith)
        requires
            1 <= g.height,
            1 <= g.width,
    ;
    assert(g.height * 65535 <= g.height * g.width * 65535) by (nonlinear_arith)
        requires
            1 <= g.height,
            1 <= g.width,
    ;
    assert(usize::MAX <= u64::MAX);
}

impl TerrainGrid {
    /// Builds a grid of the given positive dimensions with every cell at
    /// elevation zero, a freshly seeded random source, and statistics
    /// initialized to a safe default of zero.
    #[verifier::loop_isolation(false)]
    pub fn new(height: usize, width: usize) -> (g: TerrainGrid)
        requires
            1 <= height,
            1 <= width,
            height * width * 65535 <= usize::MAX,
        ensures
            g.wf(),
            g.height == height,
            g.width == width,
            g.area == height * width,
            g.mutations@ == 0,
            g.min == 0,
            g.avg == 0,
            g.max == 0,
            forall|r: int, c: int| g.in_range(r, c) ==> #[trigger] g.cell(r, c) == 0,
    {
        assert(height * width <= usize::MAX) by (nonlinear_arith)
            requires
                1 <= height,
                1 <= width,
                height * width * 65535 <= usize::MAX,
        ;
        let mut grid: Vec<Vec<u16>> = Vec::with_capacity(height);
        for r in 0..height
            invariant
                grid@.len() == r,
                forall|i: int| 0 <= i < r ==> (#[trigger] grid@[i])@.len() == width,
                forall|i: int, j: int|
                    0 <= i < r && 0 <= j < width ==> (#[trigger] grid@[i]@[j]) == 0,
        {
            let mut row: Vec<u16> = Vec::with_capacity(width);
            for c in 0..width
                invariant
                    row@.len() == c,
                    forall|j: int| 0 <= j < c ==> #[trigger] row@[j] == 0,
            {
                row.push(0);
            }
            grid.push(row);
        }
        assert(width * height == height * width) by (nonlinear_arith);
        TerrainGrid {
            height,
            width,
            grid,
            rng: crate::random::fresh_rng(),
            area: width * height,
            min: 0,
            avg: 0,
            max: 0,
            mutations: Ghost(0nat),
        }
    }
}

impl TerrainGrid {
    /// Reads one cell's elevation.
    pub fn elevation(&self, r: usize, c: usize) -> (e: u16)
        requires
            self.wf(),
            r < self.height,
            c < self.width,
        ensures
            e == self.cell(r as int, c as int),
    {
        self.grid[r][c]
    }
}

/// Relates a grid to the grid one fault application later: the dimensions
/// stand, and every cell the fault hits is exactly one higher, every other
/// cell unchanged.
pub open spec fn fault_applied(
    pre: TerrainGrid,
    post: TerrainGrid,
    pivot_col: int,
    pivot_row: int,
    idx: int,
    side: bool,
) -> bool {
    &&& post.height == pre.height
    &&& post.width == pre.width
    &&& forall|r: int, c: int|
        pre.in_range(r, c) ==> #[trigger] post.cell(r, c) == pre.cell(r, c) + (
        if cell_hit(pivot_col, pivot_row, idx, side, r, c) {
            1int
        } else {
            0int
        })
}

impl TerrainGrid {
    /// Applies one fault line with the given parameters: raises by one every
    /// cell on the line, and every cell of the open half-plane `side`
    /// selects. Statistics are left as they were and so go stale.
    #[verifier::loop_isolation(false)]
    pub fn apply_fault(&mut self, pivot_col: usize, pivot_row: usize, slope_idx: usize, side: bool)
        requires
            old(self).wf(),
            pivot_col < old(self).width,
            pivot_row < old(self).height,
            slope_idx < SLOPE_COUNT,
            old(self).mutations@ < 65535,
        ensures
            final(self).wf(),
            final(self).height == old(self).height,
            final(self).width == old(self).width,
            final(self).area == old(self).area,
            final(self).min == old(self).min,
            final(self).avg == old(self).avg,
            final(self).max == old(self).max,
            final(self).mutations@ == old(self).mutations@ + 1,
            fault_applied(
                *old(self),
                *final(self),
                pivot_col as int,
                pivot_row as int,
                slope_idx as int,
                side,
            ),
    {
        proof {
            lemma_wf_bounds(*old(self));
        }
        let ghost pc = pivot_col as int;
        let ghost pr = pivot_row as int;
        let ghost idx = slope_idx as int;
        self.mutations = Ghost(self.mutations@ + 1);
        let height = self.height;
        let width = self.width;
        for r in 0..height
            invariant
                self.height == old(self).height,
                self.width == old(self).width,
                self.area == old(self).area,
                self.min == old(self).min,
                self.avg == old(self).avg,
                self.max == old(self).max,
                self.mutations@ == old(self).mutations@ + 1,
                self.grid@.len() == old(self).grid@.len(),
                forall|i: int| 0 <= i < self.height ==> (#[trigger] self.grid@[i])@.len()
                    == self.width,
                forall|i: int, j: int|
                    old(self).in_range(i, j) && i < r ==> #[trigger] self.cell(i, j) == old(
                        self,
                    ).cell(i, j) + (
                    if cell_hit(pc, pr, idx, side, i, j) {
                        1int
                    } else {
                        0int
                    }),
                forall|i: int, j: int|
                    old(self).in_range(i, j) && i >= r ==> #[trigger] self.cell(i, j) == old(
                        self,
                    ).cell(i, j),
        {
            for c in 0..width
                invariant
                    self.height == old(self).height,
                    self.width == old(self).width,
                    self.area == old(self).area,
                    self.min == old(self).min,
                    self.avg == old(self).avg,
                    self.max == old(self).max,
                    self.mutations@ == old(self).mutations@ + 1,
                    self.grid@.len() == old(self).grid@.len(),
                    forall|i: int| 0 <= i < self.height ==> (#[trigger] self.grid@[i])@.len()
                        == self.width,
                    forall|i: int, j: int|
                        old(self).in_range(i, j) && (i < r || (i == r && j < c))
                            ==> #[trigger] self.cell(i, j) == old(self).cell(i, j) + (
                        if cell_hit(pc, pr, idx, side, i, j) {
                            1int
                        } else {
                            0int
                        }),
                    forall|i: int, j: int|
                        old(self).in_range(i, j) && (i > r || (i == r && j >= c))
                            ==> #[trigger] self.cell(i, j) == old(self).cell(i, j),
            {
                let ghost prev = *self;
                assert(prev.cell(r as int, c as int) == old(self).cell(r as int, c as int));
                assert(old(self).cell(r as int, c as int) < 65535);
                let hit = crate::fault::hits_cell(pivot_col, pivot_row, slope_idx, side, r, c);
                if hit {
                    let v = self.grid[r][c];
                    self.grid[r][c] = v + 1;
                }
                proof {
                    assert forall|i: int|
                        0 <= i < self.height implies (#[trigger] self.grid@[i])@.len()
                        == self.width by {
                        assert(prev.grid@[i]@.len() == prev.width);
                    }
                    assert forall|i: int, j: int|
                        old(self).in_range(i, j) && (i < r || (i == r && j <= c))
                            implies #[trigger] self.cell(i, j) == old(self).cell(i, j) + (
                        if cell_hit(pc, pr, idx, side, i, j) {
                            1int
                        } else {
                            0int
                        }) by {
                        if i == r && j == c {
                            assert(self.cell(i, j) == (
                            if hit {
                                prev.cell(i, j) + 1
                            } else {
                                prev.cell(i, j) as int
                            }));
                        } else {
                            assert(self.cell(i, j) == prev.cell(i, j));
                            assert(prev.cell(i, j) == old(self).cell(i, j) + (
                            if cell_hit(pc, pr, idx, side, i, j) {
                                1int
                            } else {
                                0int
                            }));
                        }
                    }
                    assert forall|i: int, j: int|
                        old(self).in_range(i, j) && (i > r || (i == r && j > c))
                            implies #[trigger] self.cell(i, j) == old(self).cell(i, j) by {
                        assert(self.cell(i, j) == prev.cell(i, j));
                        assert(prev.cell(i, j) == old(self).cell(i, j));
                    }
                }
            }
        }
        proof {
            assert forall|i: int, j: int|
                self.in_range(i, j) implies #[trigger] self.cell(i, j) <= self.mutations@ by {
                assert(old(self).cell(i, j) <= old(self).mutations@);
            }
            assert(self.wf());
        }
    }

    /// Applies exactly one random fault line: the pivot cell is drawn
    /// uniformly from the grid, the slope uniformly from the fixed family,
    /// and the side fairly. Whatever was drawn, each cell rises by at most
    /// one, and the mutation count by exactly one.
    pub fn mutate(&mut self)
        requires
            old(self).wf(),
            old(self).mutations@ < 65535,
        ensures
            final(self).wf(),
            final(self).height == old(self).height,
            final(self).width == old(self).width,
            final(self).area == old(self).area,
            final(self).min == old(self).min,
            final(self).avg == old(self).avg,
            final(self).max == old(self).max,
            final(self).mutations@ == old(self).mutations@ + 1,
            exists|pc: int, pr: int, idx: int, side: bool|
                0 <= pc < old(self).width && 0 <= pr < old(self).height && 0 <= idx < SLOPE_COUNT
                    && #[trigger] fault_applied(*old(self), *final(self), pc, pr, idx, side),
            forall|r: int, c: int|
                old(self).in_range(r, c) ==> old(self).cell(r, c) <= #[trigger] final(self).cell(
                    r,
                    c,
                ) <= old(self).cell(r, c) + 1,
    {
        let pivot_col = crate::random::sample_below(&mut self.rng, self.width);
        let pivot_row = crate::random::sample_below(&mut self.rng, self.height);
        let slope_idx = crate::random::sample_below(&mut self.rng, SLOPE_COUNT);
        let side = crate::random::flip(&mut self.rng);
        proof {
            assert forall|r: int, c: int|
                self.in_range(r, c) implies #[trigger] self.cell(r, c) <= self.mutations@ by {
                assert(old(self).cell(r, c) <= old(self).mutations@);
            }
            assert(self.wf());
        }
        let ghost mid = *self;
        self.apply_fault(pivot_col, pivot_row, slope_idx, side);
        proof {
            let pc = pivot_col as int;
            let pr = pivot_row as int;
            let idx = slope_idx as int;
            assert forall|r: int, c: int|
                old(self).in_range(r, c) implies #[trigger] self.cell(r, c) == old(self).cell(
                r,
                c,
            ) + (
            if cell_hit(pc, pr, idx, side, r, c) {
                1int
            } else {
                0int
            }) by {
                assert(mid.cell(r, c) == old(self).cell(r, c));
                assert(self.cell(r, c) == mid.cell(r, c) + (
                if cell_hit(pc, pr, idx, side, r, c) {
                    1int
                } else {
                    0int
                }));
            }
            assert(fault_applied(*old(self), *self, pc, pr, idx, side));
        }
    }
}

/// Sum of the first `c` entries of one grid row.
pub open spec fn row_sum_upto(row: Seq<u16>, c: int) -> int
    decreases c,
{
    if c <= 0 {
        0
    } else {
        row_sum_upto(row, c - 1) + row[c - 1]
    }
}

/// Sum of the first `w` entries of each of the first `r` rows.
pub open spec fn grid_sum_upto(m: Seq<Vec<u16>>, w: int, r: int) -> int
    decreases r,
{
    if r <= 0 {
        0
    } else {
        grid_sum_upto(m, w, r - 1) + row_sum_upto(m[r - 1]@, w)
    }
}

impl TerrainGrid {
    /// Sum of every elevation in the grid.
    pub open spec fn total(self) -> int {
        grid_sum_upto(self.grid@, self.width as int, self.height as int)
    }

    /// `m` is the smallest elevation present in the grid.
    pub open spec fn is_min(self, m: u16) -> bool {
        &&& exists|r: int, c: int| self.in_range(r, c) && #[trigger] self.cell(r, c) == m
        &&& forall|r: int, c: int| self.in_range(r, c) ==> m <= #[trigger] self.cell(r, c)
    }

    /// `m` is the largest elevation present in the grid.
    pub open spec fn is_max(self, m: u16) -> bool {
        &&& exists|r: int, c: int| self.in_range(r, c) && #[trigger] self.cell(r, c) == m
        &&& forall|r: int, c: int| self.in_range(r, c) ==> #[trigger] self.cell(r, c) <= m
    }
}

/// Two grids with the same matrix, dimensions, area and mutation count agree
/// on every cell, on the total, on the extremes, and on well-formedness; only
/// the cached statistics may differ.
pub proof fn lemma_same_grid(a: TerrainGrid, b: TerrainGrid)
    requires
        a.grid == b.grid,
        a.height == b.height,
        a.width == b.width,
        a.area == b.area,
        a.mutations == b.mutations,
    ensures
        forall|r: int, c: int|
            #![trigger a.cell(r, c)]
            #![trigger b.cell(r, c)]
            a.cell(r, c) == b.cell(r, c),
        a.total() == b.total(),
        forall|m: u16| #![trigger a.is_min(m)] #![trigger b.is_min(m)] a.is_min(m) == b.is_min(m),
        forall|m: u16| #![trigger a.is_max(m)] #![trigger b.is_max(m)] a.is_max(m) == b.is_max(m),
        a.wf() == b.wf(),
{
    assert forall|r: int, c: int|
        #![trigger a.cell(r, c)]
        #![trigger b.cell(r, c)]
        a.cell(r, c) == b.cell(r, c) by {
        assert(a.cell(r, c) == a.grid@[r]@[c]);
        assert(b.cell(r, c) == b.grid@[r]@[c]);
    }
    assert forall|m: u16|
        #![trigger a.is_min(m)]
        #![trigger b.is_min(m)]
        a.is_min(m) == b.is_min(m) by {
        if a.is_min(m) {
            let (r, c) = choose|r: int, c: int| a.in_range(r, c) && #[trigger] a.cell(r, c) == m;
            assert(b.cell(r, c) == m);
            assert forall|i: int, j: int| b.in_range(i, j) implies m <= #[trigger] b.cell(i, j) by {
                assert(a.cell(i, j) == b.cell(i, j));
            }
        }
        if b.is_min(m) {
            let (r, c) = choose|r: int, c: int| b.in_range(r, c) && #[trigger] b.cell(r, c) == m;
            assert(a.cell(r, c) == m);
            assert forall|i: int, j: int| a.in_range(i, j) implies m <= #[trigger] a.cell(i, j) by {
                assert(a.cell(i, j) == b.cell(i, j));
            }
        }
    }
    assert forall|m: u16|
        #![trigger a.is_max(m)]
        #![trigger b.is_max(m)]
        a.is_max(m) == b.is_max(m) by {
        if a.is_max(m) {
            let (r, c) = choose|r: int, c: int| a.in_range(r, c) && #[trigger] a.cell(r, c) == m;
            assert(b.cell(r, c) == m);
            assert forall|i: int, j: int| b.in_range(i, j) implies #[trigger] b.cell(i, j) <= m by {
                assert(a.cell(i, j) == b.cell(i, j));
            }
        }
        if b.is_max(m) {
            let (r, c) = choose|r: int, c: int| b.in_range(r, c) && #[trigger] b.cell(r, c) == m;
            assert(a.cell(r, c) == m);
            assert forall|i: int, j: int| a.in_range(i, j) implies #[trigger] a.cell(i, j) <= m by {
                assert(a.cell(i, j) == b.cell(i, j));
            }
        }
    }
    assert(a.wf() == b.wf()) by {
        if a.wf() {
            assert forall|r: int, c: int|
                b.in_range(r, c) implies #[trigger] b.cell(r, c) <= b.mutations@ by {
                assert(a.cell(r, c) == b.cell(r, c));
            }
            assert(b.wf());
        }
        if b.wf() {
            assert forall|r: int, c: int|
                a.in_range(r, c) implies #[trigger] a.cell(r, c) <= a.mutations@ by {
                assert(a.cell(r, c) == b.cell(r, c));
            }
            assert(a.wf());
        }
    }
}

/// A row prefix whose entries all lie in `[lo, hi]` has a sum between
/// `lo * c` and `hi * c`.
proof fn lemma_row_sum_bounds(row: Seq<u16>, c: int, lo: int, hi: int)
    requires
        0 <= c <= row.len(),
        forall|j: int| 0 <= j < c ==> lo <= #[trigger] row[j] <= hi,
    ensures
        lo * c <= row_sum_upto(row, c) <= hi * c,
    decreases c,
{
    if c > 0 {
        lemma_row_sum_bounds(row, c - 1, lo, hi);
        assert(lo * c == lo * (c - 1) + lo) by (nonlinear_arith);
        assert(hi * c == hi * (c - 1) + hi) by (nonlinear_arith);
    } else {
        assert(lo * c == 0) by (nonlinear_arith)
            requires
                c == 0,
        ;
        assert(hi * c == 0) by (nonlinear_arith)
            requires
                c == 0,
        ;
    }
}

/// A block of `r` rows of width `w` whose entries all lie in `[lo, hi]` has
/// a sum between `lo * (r * w)` and `hi * (r * w)`.
proof fn lemma_grid_sum_bounds(m: Seq<Vec<u16>>, w: int, r: int, lo: int, hi: int)
    requires
        0 <= r <= m.len(),
        0 <= w,
        forall|i: int| 0 <= i < r ==> w <= (#[trigger] m[i])@.len(),
        forall|i: int, j: int| 0 <= i < r && 0 <= j < w ==> lo <= (#[trigger] m[i]@[j]) <= hi,
    ensures
        lo * (r * w) <= grid_sum_upto(m, w, r) <= hi * (r * w),
    decreases r,
{
    if r > 0 {
        lemma_grid_sum_bounds(m, w, r - 1, lo, hi);
        assert(forall|j: int| 0 <= j < w ==> lo <= (#[trigger] m[r - 1]@[j]) <= hi);
        lemma_row_sum_bounds(m[r - 1]@, w, lo, hi);
        assert(lo * (r * w) == lo * ((r - 1) * w) + lo * w) by (nonlinear_arith);
        assert(hi * (r * w) == hi * ((r - 1) * w) + hi * w) by (nonlinear_arith);
    } else {
        assert(lo * (r * w) == 0) by (nonlinear_arith)
            requires
                r == 0,
        ;
        assert(hi * (r * w) == 0) by (nonlinear_arith)
            requires
                r == 0,
        ;
    }
}

impl TerrainGrid {
    /// Scans every cell once and refreshes the cached statistics: `min` and
    /// `max` become the true smallest and largest elevation, and `avg` the
    /// floor of the mean. The matrix itself is only read.
    #[verifier::loop_isolation(false)]
    pub fn calc_min_avg_max(&mut self)
        requires
            old(self).wf(),
        ensures
            final(self).wf(),
            final(self).height == old(self).height,
            final(self).width == old(self).width,
            final(self).area == old(self).area,
            final(self).grid == old(self).grid,
            final(self).mutations == old(self).mutations,
            final(self).is_min(final(self).min),
            final(self).is_max(final(self).max),
            final(self).avg == final(self).total() / final(self).area as int,
            final(self).min <= final(self).avg <= final(self).max,
    {
        proof {
            lemma_wf_bounds(*old(self));
        }
        let height = self.height;
        let width = self.width;
        let mut sum: usize = 0;
        let mut mn: u16 = u16::MAX;
        let mut mx: u16 = 0;
        for r in 0..height
            invariant
                sum == grid_sum_upto(self.grid@, width as int, r as int),
                sum <= (r * width) * 65535,
                forall|i: int, j: int|
                    self.in_range(i, j) && i < r ==> mn <= #[trigger] self.cell(i, j) <= mx,
                r == 0 ==> mn == 65535 && mx == 0,
                r > 0 ==> (exists|i: int, j: int|
                    self.in_range(i, j) && i < r && #[trigger] self.cell(i, j) == mn),
                r > 0 ==> (exists|i: int, j: int|
                    self.in_range(i, j) && i < r && #[trigger] self.cell(i, j) == mx),
        {
            for c in 0..width
                invariant
                    sum == grid_sum_upto(self.grid@, width as int, r as int) + row_sum_upto(
                        self.grid@[r as int]@,
                        c as int,
                    ),
                    sum <= (r * width + c) * 65535,
                    forall|i: int, j: int|
                        self.in_range(i, j) && (i < r || (i == r && j < c)) ==> mn
                            <= #[trigger] self.cell(i, j) <= mx,
                    r == 0 && c == 0 ==> mn == 65535 && mx == 0,
                    r > 0 || c > 0 ==> (exists|i: int, j: int|
                        self.in_range(i, j) && (i < r || (i == r && j < c))
                            && #[trigger] self.cell(i, j) == mn),
                    r > 0 || c > 0 ==> (exists|i: int, j: int|
                        self.in_range(i, j) && (i < r || (i == r && j < c))
                            && #[trigger] self.cell(i, j) == mx),
            {
                let level = self.grid[r][c];
                proof {
                    assert(level == self.cell(r as int, c as int));
                    assert((r * width + c) * 65535 + 65535 == (r * width + c + 1) * 65535)
                        by (nonlinear_arith);
                    assert(r * width + c + 1 <= height * width) by (nonlinear_arith)
                        requires
                            0 <= r < height,
                            0 <= c < width,
                    ;
                    assert((r * width + c + 1) * 65535 <= (height * width) * 65535)
                        by (nonlinear_arith)
                        requires
                            0 <= r * width + c + 1 <= height * width,
                    ;
                    assert(height * width * 65535 <= usize::MAX);
                }
                sum = sum + level as usize;
                if level < mn {
                    mn = level;
                }
                if mx < level {
                    mx = level;
                }
                proof {
                    assert(mn <= self.cell(r as int, c as int) <= mx);
                }
            }
            proof {
                assert((r * width + width) * 65535 == ((r + 1) * width) * 65535)
                    by (nonlinear_arith);
            }
        }
        let a = self.area;
        let q = sum / a;
        proof {
            let g = *old(self);
            let total = g.total();
            let area = g.area as int;
            assert forall|i: int, j: int|
                0 <= i < g.height && 0 <= j < g.width implies mn <= (#[trigger] g.grid@[i]@[j])
                <= mx by {
                assert(g.cell(i, j) == g.grid@[i]@[j]);
            }
            assert(g.is_min(mn));
            assert(g.is_max(mx));
            lemma_grid_sum_bounds(g.grid@, g.width as int, g.height as int, mn as int, mx as int);
            assert((mn as int) * ((g.height as int) * (g.width as int)) <= total <= (mx as int) * (
            (g.height as int) * (g.width as int)));
            assert((g.height as int) * (g.width as int) == area);
            assert(sum == total);
            lemma_div_is_ordered((mn as int) * area, total, area);
            lemma_div_is_ordered(total, (mx as int) * area, area);
            lemma_div_multiples_vanish(mn as int, area);
            lemma_div_multiples_vanish(mx as int, area);
            assert((mn as int) * area == area * (mn as int)) by (nonlinear_arith);
            assert((mx as int) * area == area * (mx as int)) by (nonlinear_arith);
            assert(mn as int <= total / area <= mx as int);
            assert(q == total / area);
        }
        self.min = mn;
        self.max = mx;
        self.avg = q as u16;
        proof {
            lemma_same_grid(*old(self), *self);
        }
    }
}

/// Law: however many mutations have been applied, every elevation lies
/// between zero and that count, and never above the 16-bit elevation range.
pub proof fn lemma_elevation_bounded(g: TerrainGrid)
    requires
        g.wf(),
    ensures
        forall|r: int, c: int|
            g.in_range(r, c) ==> 0 <= #[trigger] g.cell(r, c) <= g.mutations@ && g.cell(r, c)
                <= 65535,
{
}

/// Law: two consecutive fault applications with the same line parameters and
/// opposite sides raise every cell off the line by exactly one, and every
/// cell exactly on the line by exactly two.
pub proof fn lemma_opposite_faults(
    g0: TerrainGrid,
    g1: TerrainGrid,
    g2: TerrainGrid,
    pivot_col: int,
    pivot_row: int,
    idx: int,
    side: bool,
)
    requires
        fault_applied(g0, g1, pivot_col, pivot_row, idx, side),
        fault_applied(g1, g2, pivot_col, pivot_row, idx, !side),
    ensures
        forall|r: int, c: int|
            g0.in_range(r, c) && !crate::fault::on_line(pivot_col, pivot_row, idx, r, c)
                ==> #[trigger] g2.cell(r, c) == g0.cell(r, c) + 1,
        forall|r: int, c: int|
            g0.in_range(r, c) && crate::fault::on_line(pivot_col, pivot_row, idx, r, c)
                ==> #[trigger] g2.cell(r, c) == g0.cell(r, c) + 2,
{
    assert forall|r: int, c: int| g0.in_range(r, c) implies g1.in_range(r, c) by {}
}

} // verus!
