use matmul::grid::grid_to_rows;
use matmul::grid::square_from_rows;
use matmul::kernel::multiply;

#[test]
fn kernel_concrete_scenario_n2() {
    // value(x, y) = sum over i of a[i][y] * b[x][i]
    let a = square_from_rows(&vec![vec![1, 2], vec![3, 4]]);
    let b = square_from_rows(&vec![vec![5, 6], vec![7, 8]]);
    assert_eq!(multiply(&a, &b, 0, 0), 1 * 5 + 3 * 6); // 23
    assert_eq!(multiply(&a, &b, 1, 0), 1 * 7 + 3 * 8); // 31
    assert_eq!(multiply(&a, &b, 0, 1), 2 * 5 + 4 * 6); // 34
    assert_eq!(multiply(&a, &b, 1, 1), 2 * 7 + 4 * 8); // 46
}

#[test]
fn kernel_matches_formula_n3() {
    let rows_a = vec![vec![2, -3, 5], vec![7, 11, -13], vec![17, 19, 23]];
    let rows_b = vec![vec![-29, 31, 37], vec![41, -43, 47], vec![53, 59, -61]];
    let a = square_from_rows(&rows_a);
    let b = square_from_rows(&rows_b);
    for x in 0..3 {
        for y in 0..3 {
            let mut expected: i64 = 0;
            for i in 0..3 {
                expected += rows_a[i][y] * rows_b[x][i];
            }
            assert_eq!(multiply(&a, &b, x, y), expected);
        }
    }
}

#[test]
fn kernel_single_cell_n1() {
    let a = square_from_rows(&vec![vec![7]]);
    let b = square_from_rows(&vec![vec![9]]);
    assert_eq!(multiply(&a, &b, 0, 0), 63);
}

#[test]
fn grid_roundtrip() {
    let rows = vec![vec![1, 2, 3], vec![4, 5, 6], vec![7, 8, 9]];
    let g = square_from_rows(&rows);
    assert_eq!(grid_to_rows(&g), rows);
}
