//! The dot-product kernel: output cell `(x, y)` is the inner product of the
//! cells `a[i][y]` and `b[x][i]` for `i` below the side length, accumulated
//! in ascending order of `i`.

use vstd::prelude::*;
use crate::grid::grid_cols_count;
use crate::grid::grid_read;
use crate::grid::grid_side;
use crate::grid::grid_view;
use crate::grid::is_square;

verus! {

/// Every cell magnitude stays strictly below this, so that a full dot product
/// over a side of at most `MAX_DIM` cannot overflow an `i64`.
pub const CELL_LIMIT: i64 = 1048576;

/// The largest supported side length of a square matrix.
pub const MAX_DIM: usize = 1048576;

/// Every cell of every row lies strictly between `-CELL_LIMIT` and
/// `CELL_LIMIT`.
pub open spec fn entries_bounded(g: Seq<Seq<i64>>) -> bool {
    forall|r: int, c: int|
        0 <= r < g.len() && 0 <= c < g[r].len() ==> -CELL_LIMIT < #[trigger] g[r][c] < CELL_LIMIT
}

/// The first `k` terms of the inner product for output cell `(x, y)`:
/// the sum of `a[i][y] * b[x][i]` for `0 <= i < k`.
pub open spec fn dot_prefix(a: Seq<Seq<i64>>, b: Seq<Seq<i64>>, x: int, y: int, k: int) -> int
    decreases k,
{
    if k <= 0 {
        0
    } else {
        dot_prefix(a, b, x, y, k - 1) + a[k - 1][y] * b[x][k - 1]
    }
}

/// The full inner product for output cell `(x, y)` of two `n` by `n`
/// matrices.
pub open spec fn dot_full(a: Seq<Seq<i64>>, b: Seq<Seq<i64>>, x: int, y: int, n: int) -> int {
    dot_prefix(a, b, x, y, n)
}

/// Law: with every cell below `CELL_LIMIT` in magnitude, a `k`-term prefix of
/// the inner product stays within `k * CELL_LIMIT * CELL_LIMIT` in magnitude.
pub proof fn lemma_dot_prefix_bounded(
    a: Seq<Seq<i64>>,
    b: Seq<Seq<i64>>,
    x: int,
    y: int,
    k: int,
)
    requires
        entries_bounded(a),
        entries_bounded(b),
        0 <= k,
        0 <= x < b.len(),
        0 <= y,
        k <= b[x].len(),
        k <= a.len(),
        forall|i: int| 0 <= i < k ==> y < (#[trigger] a[i]).len(),
    ensures
        -(k * (CELL_LIMIT as int) * (CELL_LIMIT as int)) <= dot_prefix(a, b, x, y, k) <= k * (
        CELL_LIMIT as int) * (CELL_LIMIT as int),
    decreases k,
{
    if k > 0 {
        assert(y < a[k - 1].len());
        lemma_dot_prefix_bounded(a, b, x, y, k - 1);
        let p = a[k - 1][y];
        let q = b[x][k - 1];
        assert(-((CELL_LIMIT as int) * (CELL_LIMIT as int)) <= p * q <= (CELL_LIMIT as int) * (
        CELL_LIMIT as int)) by (nonlinear_arith)
            requires
                -CELL_LIMIT < p < CELL_LIMIT,
                -CELL_LIMIT < q < CELL_LIMIT,
        ;
        assert((k - 1) * (CELL_LIMIT as int) * (CELL_LIMIT as int) + (CELL_LIMIT as int) * (
        CELL_LIMIT as int) == k * (CELL_LIMIT as int) * (CELL_LIMIT as int)) by (nonlinear_arith);
    }
}

/// The kernel: the value of output cell `(x, y)`, computed as the sum of
/// `a[i][y] * b[x][i]` over `0 <= i < n`, in ascending order of `i`.
pub fn multiply(a: &array2d::Array2D<i64>, b: &array2d::Array2D<i64>, x: usize, y: usize) -> (value:
    i64)
    requires
        is_square(*a, grid_side(*a)),
        is_square(*b, grid_side(*a)),
        grid_side(*a) <= MAX_DIM as int,
        entries_bounded(grid_view(*a)),
        entries_bounded(grid_view(*b)),
        (x as int) < grid_side(*a),
        (y as int) < grid_side(*a),
    ensures
        value as int == dot_full(grid_view(*a), grid_view(*b), x as int, y as int, grid_side(*a)),
{
    let mut value: i64 = 0;
    let n = grid_cols_count(a);
    let mut i: usize = 0;
    while i < n
        invariant
            i <= n,
            n as int == grid_side(*a),
            is_square(*a, n as int),
            is_square(*b, n as int),
            n <= MAX_DIM,
            entries_bounded(grid_view(*a)),
            entries_bounded(grid_view(*b)),
            x < n,
            y < n,
            value as int == dot_prefix(grid_view(*a), grid_view(*b), x as int, y as int, i as int),
            -((i as int) * (CELL_LIMIT as int) * (CELL_LIMIT as int)) <= value as int <= (i as int)
                * (CELL_LIMIT as int) * (CELL_LIMIT as int),
        decreases n - i,
    {
        let ai = grid_read(a, i, y);
        let bi = grid_read(b, x, i);
        proof {
            assert(grid_view(*a)[i as int].len() == n as int);
            assert(grid_view(*b)[x as int].len() == n as int);
            assert(-((CELL_LIMIT as int) * (CELL_LIMIT as int)) <= (ai as int) * (bi as int) <= (
            CELL_LIMIT as int) * (CELL_LIMIT as int)) by (nonlinear_arith)
                requires
                    -CELL_LIMIT < ai < CELL_LIMIT,
                    -CELL_LIMIT < bi < CELL_LIMIT,
            ;
            assert((i as int) * (CELL_LIMIT as int) * (CELL_LIMIT as int) + (CELL_LIMIT as int) * (
            CELL_LIMIT as int) == (i as int + 1) * (CELL_LIMIT as int) * (CELL_LIMIT as int))
                by (nonlinear_arith);
            assert((i as int + 1) * (CELL_LIMIT as int) * (CELL_LIMIT as int) <= (MAX_DIM as int) * (
            CELL_LIMIT as int) * (CELL_LIMIT as int)) by (nonlinear_arith)
                requires
                    i as int + 1 <= MAX_DIM as int,
            ;
        }
        value = value + ai * bi;
        i = i + 1;
    }
    value
}

} // verus!
