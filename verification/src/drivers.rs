//! The two drivers. The sequential driver fills a result matrix cell by cell
//! in generator order. The parallel driver fans the kernel out over a
//! fixed-size `rayon` pool and collects `(x, y, value)` triples. Both draw
//! their random inputs through `rand`.

use vstd::prelude::*;
use rayon::iter::IntoParallelRefIterator;
use rayon::iter::ParallelIterator;
use crate::coords::cartesian_coords;
use crate::coords::lemma_coords_cover_cell;
use crate::grid::grid_filled_with;
use crate::grid::grid_rows_count;
use crate::grid::grid_side;
use crate::grid::grid_view;
use crate::grid::grid_write;
use crate::grid::is_square;
use crate::kernel::dot_full;
use crate::kernel::entries_bounded;
use crate::kernel::multiply;
use crate::kernel::CELL_LIMIT;
use crate::kernel::MAX_DIM;
use vstd::arithmetic::div_mod::lemma_fundamental_div_mod;
use vstd::arithmetic::div_mod::lemma_fundamental_div_mod_converse;

verus! {

/// Relies on `rand::random`: nothing is assumed of the drawn value.
pub assume_specification<T>[ rand::random::<T> ]() -> (r: T)
    where
        rand::distr::StandardUniform: rand::distr::Distribution<T>,
;

/// One pseudo-random cell: a raw draw from `rand::random`, reduced here into
/// `[0, CELL_LIMIT)`.
pub fn random_cell() -> (v: i64)
    ensures
        0 <= v < CELL_LIMIT,
{
    let raw: u64 = rand::random();
    (raw % (CELL_LIMIT as u64)) as i64
}

/// Every cell lies in `[0, CELL_LIMIT)`, as the randomizer leaves them.
pub open spec fn entries_in_range(g: Seq<Seq<i64>>) -> bool {
    forall|r: int, c: int|
        0 <= r < g.len() && 0 <= c < g[r].len() ==> 0 <= #[trigger] g[r][c] < CELL_LIMIT
}

/// A sequence of `n` rows of `n` cells each.
pub open spec fn seq_square(m: Seq<Seq<i64>>, n: int) -> bool {
    &&& m.len() == n
    &&& forall|r: int| 0 <= r < n ==> (#[trigger] m[r]).len() == n
}

/// `m` is the full product of `a` and `b`: its cell `(x, y)` holds the kernel
/// value for that coordinate.
pub open spec fn full_product(a: Seq<Seq<i64>>, b: Seq<Seq<i64>>, m: Seq<Seq<i64>>, n: int) -> bool {
    forall|x: int, y: int|
        0 <= x < n && 0 <= y < n ==> (#[trigger] m[x][y]) as int == dot_full(a, b, x, y, n)
}

/// In the first `rows` rows, every cell lies in `[0, CELL_LIMIT)`.
spec fn rows_in_range_upto(g: Seq<Seq<i64>>, rows: int) -> bool {
    forall|r: int, c: int|
        0 <= r < rows && 0 <= c < g[r].len() ==> 0 <= #[trigger] g[r][c] < CELL_LIMIT
}

/// In row `r`, the first `cols` cells lie in `[0, CELL_LIMIT)`.
spec fn row_in_range_upto(g: Seq<Seq<i64>>, r: int, cols: int) -> bool {
    forall|c: int| 0 <= c < cols ==> 0 <= #[trigger] g[r][c] < CELL_LIMIT
}

/// The randomizer: overwrites every cell of both matrices with an
/// independently drawn random value in `[0, CELL_LIMIT)`.
pub fn randomize(matrix1: &mut array2d::Array2D<i64>, matrix2: &mut array2d::Array2D<i64>)
    requires
        is_square(*old(matrix1), grid_side(*old(matrix1))),
        is_square(*old(matrix2), grid_side(*old(matrix1))),
    ensures
        is_square(*final(matrix1), grid_side(*old(matrix1))),
        is_square(*final(matrix2), grid_side(*old(matrix1))),
        entries_in_range(grid_view(*final(matrix1))),
        entries_in_range(grid_view(*final(matrix2))),
{
    let ghost n0 = grid_side(*old(matrix1));
    let n = grid_rows_count(matrix1);
    let mut i: usize = 0;
    while i < n
        invariant
            i <= n,
            n as int == n0,
            is_square(*matrix1, n0),
            is_square(*matrix2, n0),
            rows_in_range_upto(grid_view(*matrix1), i as int),
            rows_in_range_upto(grid_view(*matrix2), i as int),
        decreases n - i,
    {
        let mut j: usize = 0;
        while j < n
            invariant
                j <= n,
                i < n,
                n as int == n0,
                is_square(*matrix1, n0),
                is_square(*matrix2, n0),
                rows_in_range_upto(grid_view(*matrix1), i as int),
                rows_in_range_upto(grid_view(*matrix2), i as int),
                row_in_range_upto(grid_view(*matrix1), i as int, j as int),
                row_in_range_upto(grid_view(*matrix2), i as int, j as int),
            decreases n - j,
        {
            let v1 = random_cell();
            grid_write(matrix1, i, j, v1);
            let v2 = random_cell();
            grid_write(matrix2, i, j, v2);
            j = j + 1;
        }
        i = i + 1;
    }
}

/// The sequential driver's computation: every output cell, in generator
/// order, written straight into a preallocated result matrix.
pub fn product_sequential(a: &array2d::Array2D<i64>, b: &array2d::Array2D<i64>) -> (res:
    array2d::Array2D<i64>)
    requires
        is_square(*a, grid_side(*a)),
        is_square(*b, grid_side(*a)),
        grid_side(*a) <= MAX_DIM as int,
        grid_side(*a) * grid_side(*a) <= usize::MAX,
        entries_bounded(grid_view(*a)),
        entries_bounded(grid_view(*b)),
    ensures
        is_square(res, grid_side(*a)),
        full_product(grid_view(*a), grid_view(*b), grid_view(res), grid_side(*a)),
{
    let n = grid_rows_count(a);
    let coordinates: Vec<(usize, usize)> = cartesian_coords(n);
    let mut res = grid_filled_with(0, n, n);
    let mut k: usize = 0;
    while k < coordinates.len()
        invariant
            k <= coordinates@.len(),
            coordinates@.len() == n * n,
            n as int == grid_side(*a),
            is_square(*a, n as int),
            is_square(*b, n as int),
            n <= MAX_DIM,
            entries_bounded(grid_view(*a)),
            entries_bounded(grid_view(*b)),
            forall|k2: int|
                0 <= k2 < coordinates@.len() ==> (#[trigger] coordinates@[k2]).0 as int == k2 % (
                n as int) && coordinates@[k2].1 as int == k2 / (n as int),
            forall|k2: int|
                0 <= k2 < coordinates@.len() ==> (#[trigger] coordinates@[k2]).0 < n
                    && coordinates@[k2].1 < n,
            is_square(res, n as int),
            forall|k2: int|
                0 <= k2 < k ==> (grid_view(res)[(#[trigger] coordinates@[k2]).0 as int][
                    coordinates@[k2].1 as int]) as int == dot_full(
                    grid_view(*a),
                    grid_view(*b),
                    coordinates@[k2].0 as int,
                    coordinates@[k2].1 as int,
                    n as int,
                ),
        decreases coordinates@.len() - k,
    {
        let (cx, cy) = coordinates[k];
        let v = multiply(a, b, cx, cy);
        grid_write(&mut res, cx, cy, v);
        k = k + 1;
    }
    proof {
        assert forall|x: int, y: int| 0 <= x < n as int && 0 <= y < n as int implies (grid_view(
            res,
        )[x][y]) as int == dot_full(grid_view(*a), grid_view(*b), x, y, n as int) by {
            lemma_coords_cover_cell(coordinates@, n as int, x, y);
        }
    }
    res
}

#[verifier::external_type_specification]
#[verifier::external_body]
pub struct ExThreadPoolBuildError(rayon::ThreadPoolBuildError);

/// The error of the parallel driver: the worker pool could not be built.
#[derive(Clone, Copy, Debug, PartialEq, Eq, Structural)]
pub enum MatrixError {
    PoolBuild,
}

/// Relies on rayon: `ThreadPoolBuilder::new().num_threads(threads).build()`
/// yields a pool of that many workers or an error; `ThreadPool::install` runs
/// the closure inside the pool; and collecting a mapped `par_iter` of a `Vec`
/// into a `Vec` keeps every item at the index of the coordinate it came from.
/// The mapped closure only calls the verified kernel `multiply`.
#[verifier::external_body]
fn par_map_kernel(
    a: &array2d::Array2D<i64>,
    b: &array2d::Array2D<i64>,
    coordinates: &Vec<(usize, usize)>,
    threads: usize,
) -> (r: Result<Vec<(usize, usize, i64)>, rayon::ThreadPoolBuildError>)
    requires
        is_square(*a, grid_side(*a)),
        is_square(*b, grid_side(*a)),
        grid_side(*a) <= MAX_DIM as int,
        entries_bounded(grid_view(*a)),
        entries_bounded(grid_view(*b)),
        forall|k: int|
            0 <= k < coordinates@.len() ==> ((#[trigger] coordinates@[k]).0 as int) < grid_side(*a)
                && (coordinates@[k].1 as int) < grid_side(*a),
    ensures
        (r matches Ok(v) ==> v@.len() == coordinates@.len()),
        (r matches Ok(v) ==> forall|k: int|
            0 <= k < coordinates@.len() ==> (#[trigger] v@[k]).0 == coordinates@[k].0
                && v@[k].1 == coordinates@[k].1 && v@[k].2 as int == dot_full(
                grid_view(*a),
                grid_view(*b),
                coordinates@[k].0 as int,
                coordinates@[k].1 as int,
                grid_side(*a),
            )),
{
    let pool = match rayon::ThreadPoolBuilder::new().num_threads(threads).build() {
        Ok(p) => p,
        Err(e) => {
            return Err(e);
        },
    };
    Ok(pool.install(|| {
        coordinates.par_iter().map(|c| (c.0, c.1, multiply(a, b, c.0, c.1))).collect()
    }))
}

/// The parallel driver's computation: the kernel mapped over every coordinate
/// on a pool of `parallelism` workers, the results collected as
/// `(x, y, value)` triples in generator order.
pub fn product_rayon(
    a: &array2d::Array2D<i64>,
    b: &array2d::Array2D<i64>,
    parallelism: usize,
) -> (r: Result<Vec<(usize, usize, i64)>, MatrixError>)
    requires
        is_square(*a, grid_side(*a)),
        is_square(*b, grid_side(*a)),
        grid_side(*a) <= MAX_DIM as int,
        grid_side(*a) * grid_side(*a) <= usize::MAX,
        entries_bounded(grid_view(*a)),
        entries_bounded(grid_view(*b)),
        parallelism >= 1,
    ensures
        (r matches Ok(v) ==> v@.len() == grid_side(*a) * grid_side(*a)),
        (r matches Ok(v) ==> forall|k: int|
            0 <= k < v@.len() ==> (#[trigger] v@[k]).0 as int == k % grid_side(*a)
                && v@[k].1 as int == k / grid_side(*a) && v@[k].2 as int == dot_full(
                grid_view(*a),
                grid_view(*b),
                v@[k].0 as int,
                v@[k].1 as int,
                grid_side(*a),
            )),
        (r matches Err(e) ==> e == MatrixError::PoolBuild),
{
    let n = grid_rows_count(a);
    let coordinates: Vec<(usize, usize)> = cartesian_coords(n);
    match par_map_kernel(a, b, &coordinates, parallelism) {
        Ok(v) => {
            proof {
                assert forall|k: int| 0 <= k < v@.len() implies (#[trigger] v@[k]).0 as int == k % (
                n as int) && v@[k].1 as int == k / (n as int) && v@[k].2 as int == dot_full(
                    grid_view(*a),
                    grid_view(*b),
                    v@[k].0 as int,
                    v@[k].1 as int,
                    n as int,
                ) by {
                    assert(v@[k].0 == coordinates@[k].0);
                    assert(v@[k].1 == coordinates@[k].1);
                }
            }
            Ok(v)
        },
        Err(_) => Err(MatrixError::PoolBuild),
    }
}

/// Some pair of in-range square matrices of side `n` explains the result
/// matrix `m`: it is their full product.
pub open spec fn sequential_result_of(
    m: Seq<Seq<i64>>,
    av: Seq<Seq<i64>>,
    bv: Seq<Seq<i64>>,
    n: int,
) -> bool {
    &&& seq_square(av, n)
    &&& seq_square(bv, n)
    &&& entries_in_range(av)
    &&& entries_in_range(bv)
    &&& full_product(av, bv, m, n)
}

/// Some pair of in-range square matrices of side `n` explains the triples
/// `v`: entry `k` carries coordinate `(k % n, k / n)` and the kernel value of
/// those matrices there.
pub open spec fn rayon_result_of(
    v: Seq<(usize, usize, i64)>,
    av: Seq<Seq<i64>>,
    bv: Seq<Seq<i64>>,
    n: int,
) -> bool {
    &&& seq_square(av, n)
    &&& seq_square(bv, n)
    &&& entries_in_range(av)
    &&& entries_in_range(bv)
    &&& v.len() == n * n
    &&& forall|k: int|
        0 <= k < v.len() ==> (#[trigger] v[k]).0 as int == k % n && v[k].1 as int == k / n
            && v[k].2 as int == dot_full(av, bv, v[k].0 as int, v[k].1 as int, n)
}

/// The sequential driver: builds two `n` by `n` matrices, fills them with
/// random cells, and computes every output cell in generator order into a
/// preallocated result matrix, which it returns.
pub fn multiply_matrix_sequential(n: usize) -> (res: array2d::Array2D<i64>)
    requires
        n <= MAX_DIM,
        n * n <= usize::MAX,
    ensures
        is_square(res, n as int),
        exists|av: Seq<Seq<i64>>, bv: Seq<Seq<i64>>|
            #[trigger] sequential_result_of(grid_view(res), av, bv, n as int),
{
    let mut matrix1 = grid_filled_with(0, n, n);
    let mut matrix2 = grid_filled_with(0, n, n);
    randomize(&mut matrix1, &mut matrix2);
    let res = product_sequential(&matrix1, &matrix2);
    proof {
        assert(sequential_result_of(
            grid_view(res),
            grid_view(matrix1),
            grid_view(matrix2),
            n as int,
        ));
    }
    res
}

/// The parallel driver: builds two `n` by `n` matrices, fills them with
/// random cells, and maps the kernel over every coordinate on a pool of
/// `parallelism` workers, collecting `(x, y, value)` triples.
pub fn multiply_matrix_rayon(n: usize, parallelism: usize) -> (r: Result<
    Vec<(usize, usize, i64)>,
    MatrixError,
>)
    requires
        n <= MAX_DIM,
        n * n <= usize::MAX,
        parallelism >= 1,
    ensures
        (r matches Ok(v) ==> v@.len() == n * n),
        (r matches Ok(v) ==> exists|av: Seq<Seq<i64>>, bv: Seq<Seq<i64>>|
            #[trigger] rayon_result_of(v@, av, bv, n as int)),
        (r matches Err(e) ==> e == MatrixError::PoolBuild),
{
    let mut matrix1 = grid_filled_with(0, n, n);
    let mut matrix2 = grid_filled_with(0, n, n);
    randomize(&mut matrix1, &mut matrix2);
    match product_rayon(&matrix1, &matrix2, parallelism) {
        Ok(v) => {
            proof {
                assert(rayon_result_of(v@, grid_view(matrix1), grid_view(matrix2), n as int));
            }
            Ok(v)
        },
        Err(e) => Err(e),
    }
}

/// Law: the coordinate pairs of a parallel result collection are pairwise
/// distinct, because position `k` determines the pair as `(k % n, k / n)`.
pub proof fn lemma_triples_unique(v: Seq<(usize, usize, i64)>, n: int)
    requires
        0 <= n,
        v.len() == n * n,
        forall|k: int|
            0 <= k < v.len() ==> (#[trigger] v[k]).0 as int == k % n && v[k].1 as int == k / n,
    ensures
        forall|k1: int, k2: int|
            0 <= k1 < v.len() && 0 <= k2 < v.len() && k1 != k2 ==> ((#[trigger] v[k1]).0, v[k1].1)
                != ((#[trigger] v[k2]).0, v[k2].1),
{
    assert forall|k1: int, k2: int|
        0 <= k1 < v.len() && 0 <= k2 < v.len() && k1 != k2 implies ((#[trigger] v[k1]).0, v[k1].1)
        != ((#[trigger] v[k2]).0, v[k2].1) by {
        if ((v[k1]).0, v[k1].1) == ((v[k2]).0, v[k2].1) {
            assert(n != 0) by (nonlinear_arith)
                requires
                    0 <= n,
                    n * n > 0,
            ;
            lemma_fundamental_div_mod(k1, n);
            lemma_fundamental_div_mod(k2, n);
        }
    }
}

/// Law: a parallel result collection covers every cell of the `n` by `n`
/// space, namely with the triple stored at position `y * n + x`.
pub proof fn lemma_triples_cover_cell(v: Seq<(usize, usize, i64)>, n: int, x: int, y: int)
    requires
        v.len() == n * n,
        forall|k: int|
            0 <= k < v.len() ==> (#[trigger] v[k]).0 as int == k % n && v[k].1 as int == k / n,
        0 <= x < n,
        0 <= y < n,
    ensures
        0 <= y * n + x < v.len(),
        v[y * n + x].0 as int == x,
        v[y * n + x].1 as int == y,
{
    assert(0 <= y * n + x < n * n) by (nonlinear_arith)
        requires
            0 <= x < n,
            0 <= y < n,
    ;
    lemma_fundamental_div_mod_converse(y * n + x, n, y, x);
}

/// Law: fed the same two input matrices, the sequential result matrix and the
/// parallel triple collection agree cell by cell — each triple's value equals
/// the matrix cell at its coordinate.
pub proof fn lemma_drivers_agree(
    a: Seq<Seq<i64>>,
    b: Seq<Seq<i64>>,
    m: Seq<Seq<i64>>,
    v: Seq<(usize, usize, i64)>,
    n: int,
)
    requires
        0 <= n,
        full_product(a, b, m, n),
        v.len() == n * n,
        forall|k: int|
            0 <= k < v.len() ==> (#[trigger] v[k]).0 < n && (v[k]).1 < n && (v[k]).2 as int
                == dot_full(a, b, (v[k]).0 as int, (v[k]).1 as int, n),
    ensures
        forall|k: int|
            0 <= k < v.len() ==> (#[trigger] v[k]).2 == m[(v[k]).0 as int][(v[k]).1 as int],
{
}

} // verus!
