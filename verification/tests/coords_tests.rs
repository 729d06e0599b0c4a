use matmul::coords::cartesian_coords;

#[test]
fn coords_order_n2() {
    let coords = cartesian_coords(2);
    assert_eq!(coords, vec![(0, 0), (1, 0), (0, 1), (1, 1)]);
}

#[test]
fn coords_order_n3() {
    let coords = cartesian_coords(3);
    assert_eq!(
        coords,
        vec![
            (0, 0),
            (1, 0),
            (2, 0),
            (0, 1),
            (1, 1),
            (2, 1),
            (0, 2),
            (1, 2),
            (2, 2),
        ]
    );
}

#[test]
fn coords_count_unique_and_cover_n4() {
    let n: usize = 4;
    let coords = cartesian_coords(n);
    assert_eq!(coords.len(), n * n);
    for i in 0..coords.len() {
        for j in 0..coords.len() {
            if i != j {
                assert_ne!(coords[i], coords[j]);
            }
        }
    }
    for x in 0..n {
        for y in 0..n {
            assert!(coords.contains(&(x, y)));
        }
    }
    for k in 0..coords.len() {
        assert_eq!(coords[k], (k % n, k / n));
    }
}

#[test]
fn coords_empty_n0() {
    let coords = cartesian_coords(0);
    assert!(coords.is_empty());
}

#[test]
fn coords_single_n1() {
    let coords = cartesian_coords(1);
    assert_eq!(coords, vec![(0, 0)]);
}
