//! The fault-line family: a line through a pivot cell with one of ten fixed
//! slopes, and the rule deciding which cells a fault raises.
//!
//! The slopes are `-4, -2, -1, -1/2, -1/4, 1/4, 1/2, 1, 2, 4`; zero and a
//! perfectly vertical line are not representable, by design. Every slope is
//! kept as an exact fraction `num/den` with a positive denominator, so the
//! line test is exact integer arithmetic throughout.

use vstd::prelude::*;

verus! {

/// How many slopes the fixed family holds.
pub const SLOPE_COUNT: usize = 10;

/// Coordinates handed to the fault test stay below this bound, so the scaled
/// line arithmetic fits in `i64` with room to spare.
pub const COORD_LIMIT: u64 = 0x10_0000_0000_0000;

/// Numerator of the `idx`-th slope.
pub open spec fn slope_num(idx: int) -> int {
    if idx == 0 {
        -4
    } else if idx == 1 {
        -2
    } else if idx == 2 {
        -1
    } else if idx == 3 {
        -1
    } else if idx == 4 {
        -1
    } else if idx == 5 {
        1
    } else if idx == 6 {
        1
    } else if idx == 7 {
        1
    } else if idx == 8 {
        2
    } else {
        4
    }
}

/// Denominator of the `idx`-th slope; always positive.
pub open spec fn slope_den(idx: int) -> int {
    if idx == 3 || idx == 6 {
        2
    } else if idx == 4 || idx == 5 {
        4
    } else {
        1
    }
}

/// The fault line through `(pivot_row, pivot_col)` with the `idx`-th slope
/// passes through the row coordinate `f(c) = slope * (c - pivot_col) +
/// pivot_row`. This is `f(c)` scaled by the positive denominator, so
/// comparisons against `r * slope_den(idx)` compare `f(c)` against `r`.
pub open spec fn line_value_scaled(pivot_col: int, pivot_row: int, idx: int, c: int) -> int {
    slope_num(idx) * (c - pivot_col) + pivot_row * slope_den(idx)
}

/// Whether cell `(r, c)` lies exactly on the fault line.
pub open spec fn on_line(pivot_col: int, pivot_row: int, idx: int, r: int, c: int) -> bool {
    line_value_scaled(pivot_col, pivot_row, idx, c) == r * slope_den(idx)
}

/// Whether a fault with these parameters raises cell `(r, c)`: cells exactly
/// on the line always are, and `side` selects which open half-plane joins
/// them.
pub open spec fn cell_hit(pivot_col: int, pivot_row: int, idx: int, side: bool, r: int, c: int) -> bool {
    let lhs = line_value_scaled(pivot_col, pivot_row, idx, c);
    let rhs = r * slope_den(idx);
    lhs == rhs || ((lhs < rhs) != side)
}

/// The `idx`-th slope as an exact `(numerator, denominator)` pair.
fn slope_parts(idx: usize) -> (p: (i64, i64))
    requires
        idx < SLOPE_COUNT,
    ensures
        p.0 == slope_num(idx as int),
        p.1 == slope_den(idx as int),
        -4 <= p.0 <= 4,
        1 <= p.1 <= 4,
{
    if idx == 0 {
        (-4, 1)
    } else if idx == 1 {
        (-2, 1)
    } else if idx == 2 {
        (-1, 1)
    } else if idx == 3 {
        (-1, 2)
    } else if idx == 4 {
        (-1, 4)
    } else if idx == 5 {
        (1, 4)
    } else if idx == 6 {
        (1, 2)
    } else if idx == 7 {
        (1, 1)
    } else if idx == 8 {
        (2, 1)
    } else {
        (4, 1)
    }
}

/// Decides whether a fault with the given parameters raises cell `(r, c)`.
pub fn hits_cell(pivot_col: usize, pivot_row: usize, idx: usize, side: bool, r: usize, c: usize) -> (b: bool)
    requires
        idx < SLOPE_COUNT,
        pivot_col < COORD_LIMIT,
        pivot_row < COORD_LIMIT,
        r < COORD_LIMIT,
        c < COORD_LIMIT,
    ensures
        b == cell_hit(pivot_col as int, pivot_row as int, idx as int, side, r as int, c as int),
{
    let (num, den) = slope_parts(idx);
    let diff: i64 = c as i64 - pivot_col as i64;
    assert(-0x40_0000_0000_0000 <= num * diff <= 0x40_0000_0000_0000) by (nonlinear_arith)
        requires
            -4 <= num <= 4,
            -0x10_0000_0000_0000 < diff < 0x10_0000_0000_0000,
    ;
    assert(0 <= (pivot_row as i64) * den <= 0x40_0000_0000_0000) by (nonlinear_arith)
        requires
            0 <= pivot_row < 0x10_0000_0000_0000,
            1 <= den <= 4,
    ;
    assert(0 <= (r as i64) * den <= 0x40_0000_0000_0000) by (nonlinear_arith)
        requires
            0 <= r < 0x10_0000_0000_0000,
            1 <= den <= 4,
    ;
    let lhs: i64 = num * diff + (pivot_row as i64) * den;
    let rhs: i64 = (r as i64) * den;
    lhs == rhs || ((lhs < rhs) != side)
}

/// Law: applying the same fault line twice with opposite `side` values raises
/// a cell off the line in exactly one of the two applications, and a cell
/// exactly on the line in both.
pub proof fn lemma_opposite_sides(pivot_col: int, pivot_row: int, idx: int, side: bool, r: int, c: int)
    ensures
        on_line(pivot_col, pivot_row, idx, r, c) ==> cell_hit(pivot_col, pivot_row, idx, side, r, c)
            && cell_hit(pivot_col, pivot_row, idx, !side, r, c),
        !on_line(pivot_col, pivot_row, idx, r, c) ==> (cell_hit(pivot_col, pivot_row, idx, side, r, c)
            != cell_hit(pivot_col, pivot_row, idx, !side, r, c)),
{
}

} // verus!
