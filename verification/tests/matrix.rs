use matmul::matrix::{extract_col, extract_row, multiply, Matrix, MsgInput};
use matmul::vector::{dot_produc, Vector};
use matmul::Error;

#[test]
fn test_matrix_display() {
    let a = Matrix::new(vec![1, 2, 3, 4, 5, 6], 2, 3).unwrap();
    let b = Matrix::new(vec![10, 11, 20, 21, 30, 31], 3, 2).unwrap();
    let c = multiply(&a, &b).unwrap();

    assert_eq!(c.data, vec![140, 146, 320, 335]);
    assert_eq!(c.render(), "{140 146, 320 335}");
}

#[test]
fn test_a_can_multiply_b() {
    let a = Matrix::new(vec![1, 2, 3, 4, 5, 6], 2, 3).unwrap();
    let b = Matrix {
        data: vec![10, 11, 20, 21, 30, 31],
        rows: 2,
        cols: 2,
    };
    let c = multiply(&a, &b);

    assert!(c.is_err());
}

#[test]
fn multiply_rejects_mismatched_inner_dimensions() {
    let a = Matrix::new(vec![1, 2, 3, 4, 5, 6], 2, 3).unwrap();
    let b = Matrix::new(vec![10, 11, 20, 21], 2, 2).unwrap();
    assert_eq!(multiply(&a, &b).err(), Some(Error::InvalidDimensions));
}

#[test]
fn multiply_matches_triple_loop_definition() {
    let a = Matrix::new(vec![1, -2, 3, 0, 4, -5], 2, 3).unwrap();
    let b = Matrix::new(vec![7, 8, -9, 1, 2, -3], 3, 2).unwrap();
    let c = multiply(&a, &b).unwrap();
    let mut expected = vec![0i64; 4];
    for i in 0..2 {
        for j in 0..2 {
            let mut sum = 0i64;
            for t in 0..3 {
                sum += a.data[i * 3 + t] * b.data[t * 2 + j];
            }
            expected[i * 2 + j] = sum;
        }
    }
    assert_eq!(c.data, expected);
    assert_eq!(c.rows, 2);
    assert_eq!(c.cols, 2);
}

#[test]
fn multiply_is_deterministic() {
    let a = Matrix::new(vec![3, 1, 4, 1, 5, 9, 2, 6, 5], 3, 3).unwrap();
    let b = Matrix::new(vec![2, 7, 1, 8, 2, 8, 1, 8, 2], 3, 3).unwrap();
    let c1 = multiply(&a, &b).unwrap();
    let c2 = multiply(&a, &b).unwrap();
    assert_eq!(c1.data, c2.data);
    assert_eq!(c1.render(), c2.render());
}

#[test]
fn multiply_by_identity_is_self() {
    let a = Matrix::new(vec![5, -3, 2, 8], 2, 2).unwrap();
    let eye = Matrix::new(vec![1, 0, 0, 1], 2, 2).unwrap();
    let right = multiply(&a, &eye).unwrap();
    let left = multiply(&eye, &a).unwrap();
    assert_eq!(right.data, a.data);
    assert_eq!(left.data, a.data);
}

#[test]
fn new_rejects_wrong_buffer_length() {
    assert_eq!(
        Matrix::new(vec![1, 2, 3], 2, 2).err(),
        Some(Error::BufferLengthInvariantViolation)
    );
}

#[test]
fn new_accepts_matching_buffer_length() {
    let m = Matrix::new(vec![1, 2, 3, 4], 2, 2).unwrap();
    assert_eq!(m.rows, 2);
    assert_eq!(m.cols, 2);
    assert_eq!(m.data, vec![1, 2, 3, 4]);
}

#[test]
fn render_two_by_three() {
    let m = Matrix::new(vec![1, 2, 3, 4, 5, 6], 2, 3).unwrap();
    assert_eq!(m.render(), "{1 2 3, 4 5 6}");
}

#[test]
fn render_three_by_two() {
    let m = Matrix::new(vec![1, 2, 3, 4, 5, 6], 3, 2).unwrap();
    assert_eq!(m.render(), "{1 2, 3 4, 5 6}");
}

#[test]
fn render_negative_and_zero_entries() {
    let m = Matrix::new(vec![-5, 0, 123], 1, 3).unwrap();
    assert_eq!(m.render(), "{-5 0 123}");
}

#[test]
fn render_single_cell_and_extremes() {
    let m = Matrix::new(vec![7], 1, 1).unwrap();
    assert_eq!(m.render(), "{7}");
    let lo = Matrix::new(vec![i64::MIN, i64::MAX], 1, 2).unwrap();
    assert_eq!(lo.render(), "{-9223372036854775808 9223372036854775807}");
}

#[test]
fn dot_produc_computes_sum_of_products() {
    let a = Vector::new(vec![1, 2, 3]);
    let b = Vector::new(vec![4, 5, 6]);
    assert_eq!(dot_produc(a, b), Ok(32));
}

#[test]
fn dot_produc_rejects_unequal_lengths() {
    let a = Vector::new(vec![1, 2]);
    let b = Vector::new(vec![4, 5, 6]);
    assert_eq!(dot_produc(a, b), Err(Error::LengthMismatch));
}

#[test]
fn extract_row_and_col_copy_the_right_elements() {
    let m = Matrix::new(vec![1, 2, 3, 4, 5, 6], 2, 3).unwrap();
    let row = extract_row(&m, 1);
    assert_eq!(row.data, vec![4, 5, 6]);
    let col = extract_col(&m, 2);
    assert_eq!(col.data, vec![3, 6]);
}

#[test]
fn work_item_carries_its_cell_index() {
    let m = Matrix::new(vec![1, 2, 3, 4, 5, 6], 2, 3).unwrap();
    let row = extract_row(&m, 0);
    let col = extract_col(&m, 1);
    let item = MsgInput::new(1, row, col);
    assert_eq!(item.idx, 1);
    assert_eq!(item.rows.data, vec![1, 2, 3]);
    assert_eq!(item.cols.data, vec![2, 5]);
}
