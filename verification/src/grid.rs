//! The two-dimensional grid that holds matrix cells. The storage is
//! `array2d::Array2D<i64>`; its contents are modelled as a sequence of rows,
//! and every call into the crate goes through a small trusted wrapper.

use vstd::prelude::*;

verus! {

#[verifier::external_type_specification]
#[verifier::external_body]
#[verifier::reject_recursive_types(T)]
pub struct ExArray2D<T>(array2d::Array2D<T>);

/// The rows of the grid, outermost first, each row a sequence of cells.
pub uninterp spec fn grid_view(g: array2d::Array2D<i64>) -> Seq<Seq<i64>>;

/// The column count the grid was built with (visible even when it has no rows).
pub uninterp spec fn grid_cols(g: array2d::Array2D<i64>) -> int;

/// Every row of the grid has exactly `grid_cols` cells.
pub open spec fn grid_wf(g: array2d::Array2D<i64>) -> bool {
    forall|r: int|
        0 <= r < grid_view(g).len() ==> (#[trigger] grid_view(g)[r]).len() == grid_cols(g)
}

/// The number of rows, which for a square grid is also the number of columns.
pub open spec fn grid_side(g: array2d::Array2D<i64>) -> int {
    grid_view(g).len() as int
}

/// An `n` by `n` grid whose rows all have length `n`.
pub open spec fn is_square(g: array2d::Array2D<i64>, n: int) -> bool {
    &&& grid_view(g).len() == n
    &&& grid_cols(g) == n
    &&& grid_wf(g)
}

/// Relies on `array2d::Array2D::filled_with`: a `rows` by `cols` grid holding
/// `element` in every cell.
#[verifier::external_body]
pub(crate) fn grid_filled_with(element: i64, rows: usize, cols: usize) -> (g: array2d::Array2D<
    i64,
>)
    requires
        rows * cols <= usize::MAX,
    ensures
        grid_view(g).len() == rows as int,
        grid_cols(g) == cols as int,
        grid_wf(g),
        forall|r: int, c: int|
            0 <= r < rows && 0 <= c < cols ==> #[trigger] grid_view(g)[r][c] == element,
{
    array2d::Array2D::filled_with(element, rows, cols)
}

/// Relies on `array2d`'s `Index` at `(row, column)`: the cell stored there.
#[verifier::external_body]
pub(crate) fn grid_read(g: &array2d::Array2D<i64>, row: usize, col: usize) -> (v: i64)
    requires
        (row as int) < grid_view(*g).len(),
        (col as int) < grid_cols(*g),
    ensures
        v == grid_view(*g)[row as int][col as int],
{
    g[(row, col)]
}

/// Relies on `array2d`'s `IndexMut` at `(row, column)`: overwrites that one
/// cell and leaves the rest of the grid as it was.
#[verifier::external_body]
pub(crate) fn grid_write(g: &mut array2d::Array2D<i64>, row: usize, col: usize, v: i64)
    requires
        (row as int) < grid_view(*old(g)).len(),
        (col as int) < grid_cols(*old(g)),
    ensures
        grid_view(*final(g)) == grid_view(*old(g)).update(
            row as int,
            grid_view(*old(g))[row as int].update(col as int, v),
        ),
        grid_cols(*final(g)) == grid_cols(*old(g)),
{
    g[(row, col)] = v;
}

/// Relies on `array2d::Array2D::num_rows`.
#[verifier::external_body]
pub(crate) fn grid_rows_count(g: &array2d::Array2D<i64>) -> (n: usize)
    ensures
        n as int == grid_view(*g).len(),
{
    g.num_rows()
}

/// Relies on `array2d::Array2D::num_columns`.
#[verifier::external_body]
pub(crate) fn grid_cols_count(g: &array2d::Array2D<i64>) -> (n: usize)
    ensures
        n as int == grid_cols(*g),
{
    g.num_columns()
}

/// Relies on `array2d::Array2D::num_elements`: the product of the row count
/// and the column count.
#[verifier::external_body]
pub(crate) fn grid_elements_count(g: &array2d::Array2D<i64>) -> (n: usize)
    requires
        grid_view(*g).len() * grid_cols(*g) <= usize::MAX,
    ensures
        n as int == grid_view(*g).len() * grid_cols(*g),
{
    g.num_elements()
}

/// Builds a square grid from plain rows: row `r`, cell `c` of the result is
/// `rows[r][c]`.
pub fn square_from_rows(rows: &Vec<Vec<i64>>) -> (g: array2d::Array2D<i64>)
    requires
        forall|r: int| 0 <= r < rows@.len() ==> (#[trigger] rows@[r])@.len() == rows@.len(),
        rows@.len() * rows@.len() <= usize::MAX,
    ensures
        is_square(g, rows@.len() as int),
        forall|r: int, c: int|
            0 <= r < rows@.len() && 0 <= c < rows@.len() ==> #[trigger] grid_view(g)[r][c]
                == rows@[r]@[c],
{
    let n = rows.len();
    let mut g = grid_filled_with(0, n, n);
    let mut r: usize = 0;
    while r < n
        invariant
            r <= n,
            n == rows@.len(),
            forall|r2: int| 0 <= r2 < n ==> (#[trigger] rows@[r2])@.len() == n,
            is_square(g, n as int),
            forall|r2: int, c2: int|
                0 <= r2 < r && 0 <= c2 < n ==> #[trigger] grid_view(g)[r2][c2] == rows@[r2]@[c2],
        decreases n - r,
    {
        let mut c: usize = 0;
        while c < n
            invariant
                c <= n,
                r < n,
                n == rows@.len(),
                forall|r2: int| 0 <= r2 < n ==> (#[trigger] rows@[r2])@.len() == n,
                is_square(g, n as int),
                forall|r2: int, c2: int|
                    0 <= r2 < r && 0 <= c2 < n ==> #[trigger] grid_view(g)[r2][c2]
                        == rows@[r2]@[c2],
                forall|c2: int|
                    0 <= c2 < c ==> #[trigger] grid_view(g)[r as int][c2] == rows@[r as int]@[c2],
            decreases n - c,
        {
            let value = rows[r][c];
            grid_write(&mut g, r, c, value);
            c = c + 1;
        }
        r = r + 1;
    }
    g
}

/// Reads the grid back as plain rows.
pub fn grid_to_rows(g: &array2d::Array2D<i64>) -> (rows: Vec<Vec<i64>>)
    requires
        grid_wf(*g),
    ensures
        rows@.len() == grid_view(*g).len(),
        forall|r: int| 0 <= r < rows@.len() ==> (#[trigger] rows@[r])@ == grid_view(*g)[r],
{
    let nr = grid_rows_count(g);
    let nc = grid_cols_count(g);
    let mut rows: Vec<Vec<i64>> = Vec::new();
    let mut r: usize = 0;
    while r < nr
        invariant
            r <= nr,
            nr as int == grid_view(*g).len(),
            nc as int == grid_cols(*g),
            grid_wf(*g),
            rows@.len() == r,
            forall|r2: int| 0 <= r2 < r ==> (#[trigger] rows@[r2])@ == grid_view(*g)[r2],
        decreases nr - r,
    {
        let mut row: Vec<i64> = Vec::new();
        let mut c: usize = 0;
        while c < nc
            invariant
                c <= nc,
                r < nr,
                nr as int == grid_view(*g).len(),
                nc as int == grid_cols(*g),
                grid_wf(*g),
                row@.len() == c,
                forall|c2: int| 0 <= c2 < c ==> #[trigger] row@[c2] == grid_view(*g)[r as int][c2],
            decreases nc - c,
        {
            row.push(grid_read(g, r, c));
            c = c + 1;
        }
        proof {
            assert(row@ =~= grid_view(*g)[r as int]);
        }
        rows.push(row);
        r = r + 1;
    }
    rows
}

/// The total number of cells in the grid.
pub fn grid_size(g: &array2d::Array2D<i64>) -> (n: usize)
    requires
        grid_view(*g).len() * grid_cols(*g) <= usize::MAX,
    ensures
        n as int == grid_view(*g).len() * grid_cols(*g),
{
    grid_elements_count(g)
}

} // verus!
