use lala::error::LalaError;
use lala::linalg::Matrix;
use lala::scalar::Scalar;

fn s(x: f64) -> Scalar {
    Scalar::from_bits(x.to_bits())
}

fn f(x: Scalar) -> f64 {
    f64::from_bits(x.to_bits())
}

fn matrix(rows: &[&[f64]]) -> Matrix {
    let cols = if rows.is_empty() { 0 } else { rows[0].len() };
    let mut data = Vec::new();
    for row in rows {
        assert_eq!(row.len(), cols);
        for &x in row.iter() {
            data.push(s(x));
        }
    }
    Matrix::from_vec(rows.len(), cols, data).unwrap()
}

fn entries(m: &Matrix) -> Vec<Vec<f64>> {
    let mut out = Vec::new();
    for r in 0..m.rows() {
        let mut row = Vec::new();
        for c in 0..m.cols() {
            row.push(f(m.get(r, c)));
        }
        out.push(row);
    }
    out
}

fn bits(m: &Matrix) -> Vec<u64> {
    let mut out = Vec::new();
    for r in 0..m.rows() {
        for c in 0..m.cols() {
            out.push(m.get(r, c).to_bits());
        }
    }
    out
}

#[test]
fn new_is_all_positive_zero() {
    let m = Matrix::new(2, 3);
    assert_eq!(m.rows(), 2);
    assert_eq!(m.cols(), 3);
    assert_eq!(bits(&m), vec![0u64; 6]);
}

#[test]
fn from_vec_wants_exactly_rows_times_cols_entries() {
    assert!(Matrix::from_vec(2, 2, vec![s(1.0), s(2.0), s(3.0)]).is_none());
    assert!(Matrix::from_vec(usize::MAX, 2, vec![]).is_none());
    let m = Matrix::from_vec(2, 2, vec![s(1.0), s(2.0), s(3.0), s(4.0)]).unwrap();
    assert_eq!(entries(&m), vec![vec![1.0, 2.0], vec![3.0, 4.0]]);
}

#[test]
fn set_replaces_one_entry() {
    let mut m = matrix(&[&[1.0, 2.0], &[3.0, 4.0]]);
    m.set(1, 0, s(9.0));
    assert_eq!(entries(&m), vec![vec![1.0, 2.0], vec![9.0, 4.0]]);
}

#[test]
fn transpose_swaps_rows_and_columns() {
    let m = matrix(&[&[1.0, 2.0, 3.0], &[4.0, 5.0, 6.0]]);
    let t = m.transpose();
    assert_eq!(t.rows(), 3);
    assert_eq!(t.cols(), 2);
    assert_eq!(entries(&t), vec![vec![1.0, 4.0], vec![2.0, 5.0], vec![3.0, 6.0]]);
}

#[test]
fn transpose_twice_gives_the_matrix_back() {
    let m = matrix(&[&[1.5, -2.0, 0.25], &[f64::NAN, -0.0, 1e300]]);
    let back = m.transpose().transpose();
    assert_eq!(back.rows(), 2);
    assert_eq!(back.cols(), 3);
    assert_eq!(bits(&back), bits(&m));
}

#[test]
fn transpose_of_a_matrix_without_columns() {
    let m = Matrix::new(3, 0);
    let t = m.transpose();
    assert_eq!(t.rows(), 0);
    assert_eq!(t.cols(), 3);
}

#[test]
fn dot_multiplies_rows_by_columns() {
    let a = matrix(&[&[1.0, 2.0, 3.0], &[4.0, 5.0, 6.0]]);
    let b = matrix(&[&[7.0, 8.0], &[9.0, 10.0], &[11.0, 12.0]]);
    let p = a.dot(b).unwrap();
    assert_eq!(entries(&p), vec![vec![58.0, 64.0], vec![139.0, 154.0]]);
}

#[test]
fn dot_adds_the_products_from_left_to_right() {
    let a = matrix(&[&[1e16, 1.0, -1e16]]);
    let b = matrix(&[&[1.0], &[1.0], &[1.0]]);
    let p = a.dot(b).unwrap();
    assert_eq!(entries(&p), vec![vec![((0.0 + 1e16) + 1.0) + -1e16]]);
    assert_eq!(entries(&p), vec![vec![0.0]]);
}

#[test]
fn dot_with_the_identity_gives_the_matrix_back() {
    let a = matrix(&[&[5.0, 6.0, -1.5], &[7.0, 8.0, 2.25]]);
    let mut identity = Matrix::new(3, 3);
    identity.identity();
    assert_eq!(
        entries(&identity),
        vec![vec![1.0, 0.0, 0.0], vec![0.0, 1.0, 0.0], vec![0.0, 0.0, 1.0]]
    );
    let p = a.dot(identity).unwrap();
    assert_eq!(entries(&p), entries(&a));
}

#[test]
fn dot_rejects_shapes_that_do_not_chain() {
    let a = matrix(&[&[1.0, 2.0]]);
    let b = matrix(&[&[1.0, 2.0]]);
    assert_eq!(a.dot(b).unwrap_err(), LalaError::DimensionMismatch);
}

#[test]
fn dot_rejects_a_product_too_large_to_address() {
    let a = Matrix::new(usize::MAX, 0);
    let b = Matrix::new(0, 2);
    assert_eq!(a.dot(b).unwrap_err(), LalaError::DimensionMismatch);
}

#[test]
fn combine_works_entry_by_entry() {
    let a = matrix(&[&[1.0, 2.0], &[3.0, 4.0]]);
    let b = matrix(&[&[10.0, 20.0], &[30.0, 40.0]]);
    let sum = a.combine(b.clone(), |x, y| x.add(y)).unwrap();
    assert_eq!(entries(&sum), vec![vec![11.0, 22.0], vec![33.0, 44.0]]);
    let product = a.combine(b, |x, y| x.mul(y)).unwrap();
    assert_eq!(entries(&product), vec![vec![10.0, 40.0], vec![90.0, 160.0]]);
}

#[test]
fn combine_rejects_different_shapes() {
    let a = matrix(&[&[1.0, 2.0]]);
    let b = matrix(&[&[1.0], &[2.0]]);
    assert_eq!(a.combine(b, |x, y| x.add(y)).unwrap_err(), LalaError::DimensionMismatch);
}

#[test]
fn apply_maps_every_entry_in_place() {
    let mut m = matrix(&[&[1.0, 2.0], &[3.0, 4.0]]);
    m.apply(|x| x.div(s(2.0)));
    assert_eq!(entries(&m), vec![vec![0.5, 1.0], vec![1.5, 2.0]]);
}

#[test]
fn correct_snaps_near_integers_and_negative_zero() {
    let mut m = matrix(&[
        &[0.9999999, 2.0000005, -0.0],
        &[0.5, 1e-7, -3.9999999],
        &[1.000002, f64::INFINITY, -1e-7],
    ]);
    m.correct();
    let got = entries(&m);
    assert_eq!(got[0], vec![1.0, 2.0, 0.0]);
    assert_eq!(got[1], vec![0.5, 0.0, -4.0]);
    assert_eq!(got[2], vec![1.000002, f64::INFINITY, 0.0]);
    assert_eq!(m.get(0, 2).to_bits(), 0);
    assert_eq!(m.get(1, 1).to_bits(), 0);
    assert_eq!(m.get(2, 2).to_bits(), 0);
}

#[test]
fn correct_leaves_nan_alone() {
    let mut m = matrix(&[&[f64::NAN]]);
    m.correct();
    assert!(f(m.get(0, 0)).is_nan());
}

#[test]
fn det_of_two_by_two_is_ad_minus_bc() {
    let m = matrix(&[&[1.0, 2.0], &[3.0, 4.0]]);
    assert_eq!(f(m.det().unwrap()), -2.0);
}

#[test]
fn det_of_small_matrices() {
    assert_eq!(f(Matrix::new(0, 0).det().unwrap()), 1.0);
    assert_eq!(f(matrix(&[&[7.5]]).det().unwrap()), 7.5);
}

#[test]
fn det_of_three_by_three_expands_along_the_second_row() {
    let m = matrix(&[&[1.0, 2.0, 3.0], &[4.0, 5.0, 6.0], &[7.0, 8.0, 10.0]]);
    assert_eq!(f(m.det().unwrap()), -3.0);
    let c0 = (2.0 * 10.0 - 3.0 * 8.0) * -1.0;
    let c1 = (1.0 * 10.0 - 3.0 * 7.0) * 1.0;
    let c2 = (1.0 * 8.0 - 2.0 * 7.0) * -1.0;
    let expected = ((0.0 + c0 * 4.0) + c1 * 5.0) + c2 * 6.0;
    assert_eq!(f(m.det().unwrap()), expected);
}

#[test]
fn det_of_four_by_four() {
    let m = matrix(&[
        &[2.0, 0.0, 0.0, 1.0],
        &[0.0, 3.0, 0.0, 0.0],
        &[0.0, 0.0, 4.0, 0.0],
        &[1.0, 0.0, 0.0, 5.0],
    ]);
    assert_eq!(f(m.det().unwrap()), 108.0);
}

#[test]
fn det_needs_a_square_matrix() {
    let m = matrix(&[&[1.0, 2.0, 3.0], &[4.0, 5.0, 6.0]]);
    assert_eq!(m.det().unwrap_err(), LalaError::NotSquare);
}

#[test]
fn det_of_a_product_is_the_product_of_the_dets() {
    let a = matrix(&[&[2.0, 1.0, 0.0], &[1.0, 3.0, 1.0], &[0.0, 1.0, 4.0]]);
    let b = matrix(&[&[1.0, 0.0, 2.0], &[0.0, 1.0, 0.0], &[3.0, 0.0, 1.0]]);
    let da = f(a.det().unwrap());
    let db = f(b.det().unwrap());
    let dp = f(a.dot(b).unwrap().det().unwrap());
    assert_eq!(da, 18.0);
    assert_eq!(db, -5.0);
    assert_eq!(dp, da * db);
}

#[test]
fn cofactor_is_the_signed_minor() {
    let m = matrix(&[&[1.0, 2.0, 3.0], &[4.0, 5.0, 6.0], &[7.0, 8.0, 10.0]]);
    assert_eq!(f(m.cofactor(0, 0).unwrap()), 2.0);
    assert_eq!(f(m.cofactor(0, 1).unwrap()), 2.0);
    assert_eq!(f(m.cofactor(1, 0).unwrap()), 4.0);
    assert_eq!(f(m.cofactor(2, 2).unwrap()), -3.0);
    let small = matrix(&[&[1.0, 2.0], &[3.0, 4.0]]);
    assert_eq!(f(small.cofactor(0, 1).unwrap()), -3.0);
    assert_eq!(f(matrix(&[&[9.0]]).cofactor(0, 0).unwrap()), 1.0);
}

#[test]
fn cofactor_rejects_what_has_no_minor() {
    let wide = matrix(&[&[1.0, 2.0, 3.0], &[4.0, 5.0, 6.0]]);
    assert_eq!(wide.cofactor(0, 0).unwrap_err(), LalaError::NotSquare);
    let m = matrix(&[&[1.0, 2.0], &[3.0, 4.0]]);
    assert_eq!(m.cofactor(2, 0).unwrap_err(), LalaError::DimensionMismatch);
    assert_eq!(m.cofactor(0, 2).unwrap_err(), LalaError::DimensionMismatch);
}

#[test]
fn inverse_of_two_by_two() {
    let m = matrix(&[&[1.0, 2.0], &[3.0, 4.0]]);
    let inv = m.inverse().unwrap();
    assert_eq!(entries(&inv), vec![vec![-2.0, 1.0], vec![1.5, -0.5]]);
}

#[test]
fn inverse_of_one_by_one() {
    let inv = matrix(&[&[4.0]]).inverse().unwrap();
    assert_eq!(entries(&inv), vec![vec![0.25]]);
}

#[test]
fn inverse_of_three_by_three() {
    let m = matrix(&[&[2.0, 0.0, 0.0], &[0.0, 4.0, 0.0], &[0.0, 0.0, 8.0]]);
    let inv = m.inverse().unwrap();
    assert_eq!(
        entries(&inv),
        vec![vec![0.5, 0.0, 0.0], vec![0.0, 0.25, 0.0], vec![0.0, 0.0, 0.125]]
    );
    assert!(bits(&inv).iter().all(|&b| b != (-0.0f64).to_bits()));
}

#[test]
fn inverse_twice_gives_the_matrix_back() {
    let m = matrix(&[&[1.0, 2.0, 3.0], &[0.0, 1.0, 4.0], &[5.0, 6.0, 0.0]]);
    assert_eq!(f(m.det().unwrap()), 1.0);
    let inv = m.inverse().unwrap();
    assert_eq!(
        entries(&inv),
        vec![vec![-24.0, 18.0, 5.0], vec![20.0, -15.0, -4.0], vec![-5.0, 4.0, 1.0]]
    );
    let back = inv.inverse().unwrap();
    assert_eq!(entries(&back), entries(&m));
    let small = matrix(&[&[1.0, 2.0], &[3.0, 4.0]]);
    assert_eq!(entries(&small.inverse().unwrap().inverse().unwrap()), entries(&small));
}

#[test]
fn inverse_of_a_singular_matrix_fails() {
    let m = matrix(&[&[1.0, 2.0], &[2.0, 4.0]]);
    assert_eq!(f(m.det().unwrap()), 0.0);
    assert_eq!(m.inverse().unwrap_err(), LalaError::SingularMatrix);
    let negative_zero = matrix(&[&[-0.0]]);
    assert_eq!(negative_zero.inverse().unwrap_err(), LalaError::SingularMatrix);
    let three = matrix(&[&[1.0, 2.0, 3.0], &[4.0, 5.0, 6.0], &[7.0, 8.0, 9.0]]);
    assert_eq!(three.inverse().unwrap_err(), LalaError::SingularMatrix);
}

#[test]
fn inverse_needs_a_square_matrix() {
    let m = matrix(&[&[1.0, 2.0, 3.0], &[4.0, 5.0, 6.0]]);
    assert_eq!(m.inverse().unwrap_err(), LalaError::NotSquare);
}

#[test]
fn rref_of_an_invertible_matrix_is_the_identity() {
    let m = matrix(&[&[1.0, 2.0], &[3.0, 4.0]]);
    let reduced = m.rref();
    assert_eq!(entries(&reduced), vec![vec![1.0, 0.0], vec![0.0, 1.0]]);
    assert_eq!(bits(&reduced), bits(&matrix(&[&[1.0, 0.0], &[0.0, 1.0]])));
}

#[test]
fn rref_of_a_wide_matrix() {
    let m = matrix(&[&[2.0, 4.0, 6.0], &[1.0, 3.0, 5.0]]);
    let reduced = m.rref();
    assert_eq!(entries(&reduced), vec![vec![1.0, 0.0, -1.0], vec![0.0, 1.0, 2.0]]);
}

#[test]
fn rref_swaps_in_the_first_row_with_a_positive_head() {
    let m = matrix(&[&[0.0, 1.0], &[-1.0, 5.0], &[2.0, 0.0]]);
    let reduced = m.rref();
    assert_eq!(entries(&reduced), vec![vec![1.0, 0.0], vec![0.0, 1.0], vec![0.0, 0.0]]);
    let simple = matrix(&[&[0.0, 1.0], &[1.0, 0.0]]);
    assert_eq!(entries(&simple.rref()), vec![vec![1.0, 0.0], vec![0.0, 1.0]]);
}

#[test]
fn rref_does_not_swap_in_a_row_with_a_negative_head() {
    let m = matrix(&[&[0.0, 1.0], &[-1.0, 0.0]]);
    let reduced = m.rref();
    assert!(entries(&reduced).iter().flatten().all(|x| x.is_nan()));
}

#[test]
fn rref_of_a_matrix_without_entries_is_itself() {
    let m = Matrix::new(0, 3);
    let reduced = m.rref();
    assert_eq!(reduced.rows(), 0);
    assert_eq!(reduced.cols(), 3);
    let n = Matrix::new(2, 0);
    assert_eq!(n.rref().rows(), 2);
    assert_eq!(n.rank(), 0);
}

#[test]
fn rref_does_not_change_its_operand() {
    let m = matrix(&[&[2.0, 4.0], &[1.0, 3.0]]);
    let before = bits(&m);
    let _ = m.rref();
    assert_eq!(bits(&m), before);
}

#[test]
fn rank_counts_the_rows_that_are_left() {
    assert_eq!(matrix(&[&[1.0, 2.0], &[3.0, 4.0]]).rank(), 2);
    assert_eq!(matrix(&[&[1.0, 0.0, 0.0], &[0.0, 1.0, 0.0], &[0.0, 0.0, 1.0]]).rank(), 3);
    assert_eq!(matrix(&[&[2.0, 4.0, 6.0], &[1.0, 3.0, 5.0]]).rank(), 2);
    assert_eq!(matrix(&[&[0.0, 1.0], &[-1.0, 5.0], &[2.0, 0.0]]).rank(), 2);
}

#[test]
fn rank_is_at_most_the_smaller_side_of_a_wide_matrix() {
    let samples = [
        matrix(&[&[1.0, 2.0, 3.0]]),
        matrix(&[&[1.0, 2.0], &[2.0, 4.0]]),
        matrix(&[&[0.0, 0.0, 0.0], &[0.0, 0.0, 0.0]]),
        matrix(&[&[1.0, 2.0, 3.0, 4.0], &[5.0, 6.0, 7.0, 8.0], &[9.0, 10.0, 11.0, 12.0]]),
    ];
    for m in samples.iter() {
        let rank = m.rank();
        assert!(rank >= 0);
        assert!(rank as usize <= m.rows().min(m.cols()));
    }
}

#[test]
fn rank_of_a_zero_matrix_divides_by_its_zero_pivot() {
    let m = Matrix::new(2, 2);
    let reduced = m.rref();
    assert!(entries(&reduced).iter().flatten().all(|x| x.is_nan()));
    assert_eq!(m.rank(), 2);
}

#[test]
fn identity_sets_the_diagonal_only() {
    let mut m = matrix(&[&[5.0, 6.0], &[7.0, 8.0]]);
    m.identity();
    assert_eq!(entries(&m), vec![vec![1.0, 6.0], vec![7.0, 1.0]]);
}

#[test]
fn trace_adds_the_diagonal() {
    let m = matrix(&[&[1.0, 2.0, 3.0], &[4.0, 5.0, 6.0], &[7.0, 8.0, 10.0]]);
    assert_eq!(f(m.trace()), 16.0);
    assert_eq!(f(Matrix::new(0, 0).trace()), 0.0);
}

#[test]
fn clone_keeps_shape_and_entries() {
    let m = matrix(&[&[1.0, -0.0], &[f64::NAN, 4.0]]);
    let copy = m.clone();
    assert_eq!(copy.rows(), 2);
    assert_eq!(copy.cols(), 2);
    assert_eq!(bits(&copy), bits(&m));
}

#[test]
fn tabulate_asks_for_every_cell() {
    let m = Matrix::tabulate(2, 3, |r, c| s((10 * r + c) as f64));
    assert_eq!(entries(&m), vec![vec![0.0, 1.0, 2.0], vec![10.0, 11.0, 12.0]]);
    let none = Matrix::tabulate(0, 0, |_, _| s(1.0));
    assert_eq!(none.rows(), 0);
    assert_eq!(none.cols(), 0);
}

#[test]
fn data_is_row_major() {
    let m = matrix(&[&[1.0, 2.0, 3.0], &[4.0, 5.0, 6.0]]);
    let flat: Vec<f64> = m.data().iter().map(|x| f(*x)).collect();
    assert_eq!(flat, vec![1.0, 2.0, 3.0, 4.0, 5.0, 6.0]);
    for r in 0..2 {
        for c in 0..3 {
            assert_eq!(m.data()[r * m.cols() + c].to_bits(), m.get(r, c).to_bits());
        }
    }
}
