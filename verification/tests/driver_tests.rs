use matmul::drivers::multiply_matrix_rayon;
use matmul::drivers::multiply_matrix_sequential;
use matmul::drivers::product_rayon;
use matmul::drivers::product_sequential;
use matmul::drivers::randomize;
use matmul::drivers::random_cell;
use matmul::grid::grid_size;
use matmul::grid::grid_to_rows;
use matmul::grid::square_from_rows;
use matmul::kernel::multiply;
use matmul::kernel::CELL_LIMIT;

#[test]
fn sequential_matches_kernel() {
    let rows_a = vec![vec![1, 2, 3], vec![4, 5, 6], vec![7, 8, 9]];
    let rows_b = vec![vec![9, 8, 7], vec![6, 5, 4], vec![3, 2, 1]];
    let a = square_from_rows(&rows_a);
    let b = square_from_rows(&rows_b);
    let res = product_sequential(&a, &b);
    assert_eq!(grid_size(&res), 9);
    let res_rows = grid_to_rows(&res);
    assert_eq!(res_rows.len(), 3);
    for x in 0..3 {
        assert_eq!(res_rows[x].len(), 3);
        for y in 0..3 {
            assert_eq!(res_rows[x][y], multiply(&a, &b, x, y));
        }
    }
}

#[test]
fn parallel_matches_kernel() {
    let rows_a = vec![vec![1, 2, 3], vec![4, 5, 6], vec![7, 8, 9]];
    let rows_b = vec![vec![9, 8, 7], vec![6, 5, 4], vec![3, 2, 1]];
    let a = square_from_rows(&rows_a);
    let b = square_from_rows(&rows_b);
    let n: usize = 3;
    let triples = product_rayon(&a, &b, 2).unwrap();
    assert_eq!(triples.len(), n * n);
    for k in 0..triples.len() {
        let (x, y, value) = triples[k];
        assert_eq!((x, y), (k % n, k / n));
        assert_eq!(value, multiply(&a, &b, x, y));
    }
    for i in 0..triples.len() {
        for j in 0..triples.len() {
            if i != j {
                assert_ne!((triples[i].0, triples[i].1), (triples[j].0, triples[j].1));
            }
        }
    }
}

#[test]
fn cross_check_drivers() {
    let rows_a = vec![vec![12, -7, 0, 3], vec![5, 5, 5, 5], vec![-1, 2, -3, 4], vec![9, 0, 0, 9]];
    let rows_b = vec![vec![1, 0, 0, 0], vec![0, 1, 0, 0], vec![2, 3, 4, 5], vec![-5, -4, -3, -2]];
    let a = square_from_rows(&rows_a);
    let b = square_from_rows(&rows_b);
    let res_rows = grid_to_rows(&product_sequential(&a, &b));
    let mut triples = product_rayon(&a, &b, 3).unwrap();
    triples.sort_by_key(|t| (t.0, t.1));
    assert_eq!(triples.len(), 16);
    for &(x, y, value) in &triples {
        assert_eq!(value, res_rows[x][y]);
    }
}

#[test]
fn sequential_driver_shape_n3() {
    let res = multiply_matrix_sequential(3);
    assert_eq!(grid_size(&res), 9);
    let rows = grid_to_rows(&res);
    assert_eq!(rows.len(), 3);
    for row in &rows {
        assert_eq!(row.len(), 3);
        for &cell in row {
            // each cell is a sum of 3 products of values in [0, CELL_LIMIT)
            assert!(cell >= 0);
            assert!(cell <= 3 * (CELL_LIMIT - 1) * (CELL_LIMIT - 1));
        }
    }
}

#[test]
fn rayon_driver_shape_n2() {
    let n: usize = 2;
    let triples = multiply_matrix_rayon(n, 2).unwrap();
    assert_eq!(triples.len(), n * n);
    for k in 0..triples.len() {
        let (x, y, value) = triples[k];
        assert_eq!((x, y), (k % n, k / n));
        assert!(value >= 0);
        assert!(value <= 2 * (CELL_LIMIT - 1) * (CELL_LIMIT - 1));
    }
}

#[test]
fn drivers_empty_n0() {
    let res = multiply_matrix_sequential(0);
    assert_eq!(grid_size(&res), 0);
    assert!(grid_to_rows(&res).is_empty());
    let triples = multiply_matrix_rayon(0, 1).unwrap();
    assert!(triples.is_empty());
}

#[test]
fn drivers_single_n1() {
    let res = multiply_matrix_sequential(1);
    assert_eq!(grid_size(&res), 1);
    let triples = multiply_matrix_rayon(1, 1).unwrap();
    assert_eq!(triples.len(), 1);
    assert_eq!((triples[0].0, triples[0].1), (0, 0));
}

#[test]
fn randomize_fills_in_range() {
    let rows = vec![vec![-5; 4]; 4];
    let mut m1 = square_from_rows(&rows);
    let mut m2 = square_from_rows(&rows);
    randomize(&mut m1, &mut m2);
    for m in [&m1, &m2] {
        let filled = grid_to_rows(m);
        assert_eq!(filled.len(), 4);
        for row in &filled {
            assert_eq!(row.len(), 4);
            for &cell in row {
                assert!(cell >= 0);
                assert!(cell < CELL_LIMIT);
            }
        }
    }
}

#[test]
fn random_cell_in_range() {
    for _ in 0..1000 {
        let v = random_cell();
        assert!(v >= 0);
        assert!(v < CELL_LIMIT);
    }
}
