use square_matrix::capacity::reserved_capacity;
use square_matrix::matrix::{Matrix, MatrixError};

fn three_by_three() -> Vec<Vec<i32>> {
    vec![vec![1, 2, 3], vec![4, 5, 6], vec![7, 8, 9]]
}

#[test]
fn indexing() {
    let v = vec![vec![1, 2, 3], vec![4, 5, 6], vec![7, 8, 9]];
    let mut m = Matrix::new(v);
    assert_eq!(2, m.row(0)[1]);
    m.row_mut(1)[1] = 1;
    println!("{}", m.debug_string());
}

#[test]
fn construct_keeps_every_row() {
    for n in 1..6usize {
        let rows: Vec<Vec<i32>> = (0..n)
            .map(|i| (0..n).map(|j| (i * 10 + j) as i32).collect())
            .collect();
        let m = Matrix::new(rows.clone());
        assert_eq!(m.side_length(), n);
        for i in 0..n {
            assert_eq!(m.row(i).len(), n);
            assert_eq!(m.row(i), rows[i].as_slice());
        }
    }
}

#[test]
fn non_square_input_is_refused() {
    let short_row = vec![vec![1, 2, 3], vec![4, 5], vec![7, 8, 9]];
    assert_eq!(Matrix::try_new(short_row).err(), Some(MatrixError::NotSquare));
    let too_few_rows = vec![vec![1, 2, 3], vec![4, 5, 6]];
    assert_eq!(Matrix::from_rows(&too_few_rows).err(), Some(MatrixError::NotSquare));
    let long_row = vec![vec![1, 2, 3]];
    assert_eq!(Matrix::try_new(long_row).err(), Some(MatrixError::NotSquare));
}

#[test]
fn square_input_is_accepted() {
    let m = Matrix::try_new(three_by_three()).unwrap();
    assert_eq!(m.to_rows(), three_by_three());
    let rows = three_by_three();
    let copy = Matrix::from_rows(&rows).unwrap();
    assert_eq!(copy.to_rows(), rows);
}

#[test]
fn write_then_read_round_trip() {
    let mut m = Matrix::new(three_by_three());
    for i in 0..3 {
        for j in 0..3 {
            let v = (100 + i * 3 + j) as i32;
            assert_eq!(m.set(i, j, v), Ok(()));
            assert_eq!(m.get(i, j), Some(v));
        }
    }
}

#[test]
fn write_through_at_changes_one_cell() {
    let mut m = Matrix::new(three_by_three());
    *m.at(1, 2) = -7;
    assert_eq!(*m.at(1, 2), -7);
    assert_eq!(m.to_rows(), vec![vec![1, 2, 3], vec![4, 5, -7], vec![7, 8, 9]]);
}

#[test]
fn row_view_matches_element_view() {
    let mut m = Matrix::new(three_by_three());
    for i in 0..3 {
        for j in 0..3 {
            assert_eq!(Some(m.row(i)[j]), m.get(i, j));
        }
    }
    m.row_mut(2)[0] = 70;
    m.set(0, 2, 30).unwrap();
    for i in 0..3 {
        for j in 0..3 {
            assert_eq!(Some(m.row(i)[j]), m.get(i, j));
        }
    }
    assert_eq!(m.get(2, 0), Some(70));
    assert_eq!(m.row(0), &[1, 2, 30]);
}

#[test]
fn out_of_range_access_is_reported() {
    let mut m = Matrix::new(three_by_three());
    assert_eq!(m.get(3, 0), None);
    assert_eq!(m.get(0, 3), None);
    assert_eq!(m.set(0, 3, 5), Err(MatrixError::OutOfRange));
    assert_eq!(m.set(7, 1, 5), Err(MatrixError::OutOfRange));
    assert_eq!(m.to_rows(), three_by_three());
}

#[test]
fn format_reconstructs_rows() {
    let m = Matrix::new(vec![vec![1, 2], vec![3, 4]]);
    assert_eq!(m.to_rows(), vec![vec![1, 2], vec![3, 4]]);
    assert_eq!(m.debug_string(), "[[1, 2], [3, 4]]");
}

#[test]
fn scenario_three_by_three() {
    let mut m = Matrix::new(three_by_three());
    assert_eq!(m.get(0, 1), Some(2));
    m.set(1, 1, 1).unwrap();
    assert_eq!(m.row(1), &[4, 1, 6]);
}

#[test]
fn scenario_format_does_not_mutate() {
    let m = Matrix::new(vec![vec![1, 2], vec![3, 4]]);
    assert_eq!(m.get(1, 1), Some(4));
    let text = m.debug_string();
    assert_eq!(text, "[[1, 2], [3, 4]]");
    assert_eq!(m.get(1, 1), Some(4));
}

#[test]
fn empty_matrix() {
    let m = Matrix::new(Vec::new());
    assert_eq!(m.side_length(), 0);
    assert_eq!(m.get(0, 0), None);
    assert_eq!(m.to_rows(), Vec::<Vec<i32>>::new());
    assert_eq!(m.debug_string(), "[]");
}

#[test]
fn many_matrices_built_and_dropped() {
    for round in 0..3 {
        for n in 0..40usize {
            let rows: Vec<Vec<i32>> = (0..n).map(|i| vec![(i + round) as i32; n]).collect();
            let m = Matrix::new(rows);
            assert_eq!(m.side_length(), n);
            drop(m);
        }
    }
}

#[test]
fn capacity_rule() {
    assert_eq!(reserved_capacity(0), Some(0));
    assert_eq!(reserved_capacity(1), Some(1));
    assert_eq!(reserved_capacity(2), Some(2));
    assert_eq!(reserved_capacity(3), Some(4));
    assert_eq!(reserved_capacity(4), Some(4));
    assert_eq!(reserved_capacity(5), Some(8));
    assert_eq!(reserved_capacity(9), Some(16));
    assert_eq!(reserved_capacity(1000), Some(1024));
    assert_eq!(reserved_capacity(usize::MAX), None);
    let top = usize::MAX / 2 + 1;
    assert_eq!(reserved_capacity(top), Some(top));
    assert_eq!(reserved_capacity(top + 1), None);
}
