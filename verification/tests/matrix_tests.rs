use mznlaunch::matrix::Matrix;

#[test]
fn new_matrix_is_filled_with_default() {
    let m: Matrix<usize> = Matrix::new(2, 3, 9);
    assert_eq!(m.rows(), 2);
    assert_eq!(m.columns(), 3);
    for i in 0..2 {
        for j in 0..3 {
            assert_eq!(*m.at(i, j), 9);
        }
    }
}

#[test]
fn at_mut_overwrites_one_cell() {
    let mut m: Matrix<usize> = Matrix::new(2, 2, 0);
    *m.at_mut(1, 0) = 5;
    assert_eq!(*m.at(1, 0), 5);
    assert_eq!(*m.at(0, 0), 0);
    assert_eq!(*m.at(0, 1), 0);
    assert_eq!(*m.at(1, 1), 0);
}

#[test]
fn row_reads_one_row() {
    let mut m: Matrix<usize> = Matrix::new(2, 3, 0);
    *m.at_mut(1, 0) = 4;
    *m.at_mut(1, 1) = 5;
    *m.at_mut(1, 2) = 6;
    assert_eq!(m.row(0), &[0, 0, 0]);
    assert_eq!(m.row(1), &[4, 5, 6]);
}

#[test]
fn row_mut_overwrites_one_row() {
    let mut m: Matrix<usize> = Matrix::new(2, 2, 1);
    {
        let r = m.row_mut(0);
        r[0] = 7;
        r[1] = 8;
    }
    assert_eq!(m.row(0), &[7, 8]);
    assert_eq!(m.row(1), &[1, 1]);
}

#[test]
fn empty_matrix_has_no_cells() {
    let m: Matrix<usize> = Matrix::new(0, 0, 0);
    assert_eq!(m.rows(), 0);
    assert_eq!(m.columns(), 0);
}

#[test]
fn from_rows_copies_cells() {
    let m = Matrix::from_rows(&vec![vec![1, 2, 3], vec![4, 5, 6]], 0);
    assert_eq!(m.rows(), 2);
    assert_eq!(m.columns(), 3);
    assert_eq!(m.row(0), &[1, 2, 3]);
    assert_eq!(m.row(1), &[4, 5, 6]);
}

#[test]
fn from_rows_fills_short_rows() {
    let m = Matrix::from_rows(&vec![vec![1, 2, 3], vec![4]], 9);
    assert_eq!(m.row(1), &[4, 9, 9]);
}

#[test]
fn from_rows_of_nothing_is_empty() {
    let m: Matrix<usize> = Matrix::from_rows(&vec![], 0);
    assert_eq!(m.rows(), 0);
    assert_eq!(m.columns(), 0);
}
