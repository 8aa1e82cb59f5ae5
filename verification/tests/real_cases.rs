use linear_algebra_ml::dense::matrix::Matrix;
use linear_algebra_ml::dense::ops as dense_ops;
use linear_algebra_ml::matrix::decompositions::{eigen, lu, qr, svd};
use linear_algebra_ml::matrix::ops::{determinant, eigenvalues, inv, power, scalar_mul};
use linear_algebra_ml::matrix_testing::matrix::{key_of, Matrix as Either};
use linear_algebra_ml::scalar::Scalar;
use linear_algebra_ml::sparse::matrix::SparseMatrix;
use linear_algebra_ml::sparse::ops as sparse_ops;
use linear_algebra_ml::utils::error::Error;
use linear_algebra_ml::vector::ops as vector_ops;
use linear_algebra_ml::vector::vector::Vector;

/// A double-precision scalar for the tests.
#[derive(Clone, Copy, Debug, PartialEq)]
struct Real(f64);

impl Scalar for Real {
    fn from_int_spec(_n: i32) -> Real {
        unreachable!()
    }

    fn plus_spec(self, _rhs: Real) -> Real {
        unreachable!()
    }

    fn minus_spec(self, _rhs: Real) -> Real {
        unreachable!()
    }

    fn times_spec(self, _rhs: Real) -> Real {
        unreachable!()
    }

    fn over_spec(self, _rhs: Real) -> Real {
        unreachable!()
    }

    fn powf_spec(self, _exponent: Real) -> Real {
        unreachable!()
    }

    fn sqrt_spec(self) -> Real {
        unreachable!()
    }

    fn abs_spec(self) -> Real {
        unreachable!()
    }

    fn round_spec(self) -> Real {
        unreachable!()
    }

    fn equals_spec(self, _rhs: Real) -> bool {
        unreachable!()
    }

    fn less_spec(self, _rhs: Real) -> bool {
        unreachable!()
    }

    fn from_int(n: i32) -> Real {
        Real(f64::from(n))
    }

    fn plus(self, rhs: Real) -> Real {
        Real(self.0 + rhs.0)
    }

    fn minus(self, rhs: Real) -> Real {
        Real(self.0 - rhs.0)
    }

    fn times(self, rhs: Real) -> Real {
        Real(self.0 * rhs.0)
    }

    fn over(self, rhs: Real) -> Real {
        Real(self.0 / rhs.0)
    }

    fn powf(self, exponent: Real) -> Real {
        Real(self.0.powf(exponent.0))
    }

    fn sqrt(self) -> Real {
        Real(self.0.sqrt())
    }

    fn abs(self) -> Real {
        Real(self.0.abs())
    }

    fn round(self) -> Real {
        Real(self.0.round())
    }

    fn equals(self, rhs: Real) -> bool {
        self.0 == rhs.0
    }

    fn less(self, rhs: Real) -> bool {
        self.0 < rhs.0
    }
}

fn reals(values: Vec<f64>) -> Vec<Real> {
    values.into_iter().map(Real).collect()
}

fn dense(rows: usize, cols: usize, values: Vec<f64>) -> Matrix<Real> {
    Matrix::new(rows, cols, reals(values)).unwrap()
}

fn vector(values: Vec<f64>) -> Vector<Real> {
    Vector::new(reals(values))
}

fn entries(cells: Vec<(usize, usize, f64)>) -> Vec<(usize, usize, Real)> {
    cells.into_iter().map(|(r, c, v)| (r, c, Real(v))).collect()
}

fn close(a: &Matrix<Real>, b: &Matrix<Real>, tolerance: f64) -> bool {
    a.rows() == b.rows()
        && a.cols() == b.cols()
        && a.data().iter().zip(b.data().iter()).all(|(x, y)| (x.0 - y.0).abs() < tolerance)
}

#[test]
fn new_refuses_a_buffer_of_the_wrong_length() {
    assert_eq!(
        Matrix::new(2, 2, reals(vec![1.0, 2.0, 3.0])).unwrap_err(),
        Error::DimensionMismatch
    );
    assert_eq!(Matrix::new(2, 2, reals(vec![1.0; 5])).unwrap_err(), Error::DimensionMismatch);
    assert_eq!(Matrix::<Real>::new(usize::MAX, 2, vec![]).unwrap_err(), Error::DimensionMismatch);
    assert!(Matrix::<Real>::new(0, 7, vec![]).is_ok());
}

#[test]
fn matrices_without_cells_keep_their_shape() {
    let empty: Matrix<Real> = Matrix::zeros(0, 3);
    assert_eq!((empty.rows(), empty.cols(), empty.data().len()), (0, 3, 0));
    let turned = dense_ops::transpose(&empty);
    assert_eq!((turned.rows(), turned.cols(), turned.data().len()), (3, 0, 0));
    assert_eq!(dense_ops::transpose(&turned), empty);
    let none: Matrix<Real> = Matrix::identity(0);
    assert_eq!((none.rows(), none.cols()), (0, 0));
}

#[test]
fn set_changes_one_cell() {
    let mut m = dense(2, 3, vec![1.0, 2.0, 3.0, 4.0, 5.0, 6.0]);
    m.set(1, 2, Real(9.0));
    assert_eq!(m, dense(2, 3, vec![1.0, 2.0, 3.0, 4.0, 5.0, 9.0]));
    m.set(0, 1, Real(-1.0));
    assert_eq!(m, dense(2, 3, vec![1.0, -1.0, 3.0, 4.0, 5.0, 9.0]));
}

#[test]
fn clone_is_equal_and_independent() {
    let m = dense(2, 2, vec![1.0, 2.0, 3.0, 4.0]);
    let mut copy = m.clone();
    assert_eq!(copy, m);
    copy.set(0, 0, Real(7.0));
    assert_eq!(m.get(0, 0), Real(1.0));
}

#[test]
fn minor_leaves_out_one_row_and_one_column() {
    let m = dense(3, 3, vec![1.0, 2.0, 3.0, 4.0, 5.0, 6.0, 7.0, 8.0, 9.0]);
    assert_eq!(m.minor(0, 1), dense(2, 2, vec![4.0, 6.0, 7.0, 9.0]));
    assert_eq!(m.minor(1, 1), dense(2, 2, vec![1.0, 3.0, 7.0, 9.0]));
    assert_eq!(m.minor(2, 0), dense(2, 2, vec![2.0, 3.0, 5.0, 6.0]));
    let wide = dense(2, 3, vec![1.0, 2.0, 3.0, 4.0, 5.0, 6.0]);
    assert_eq!(wide.minor(0, 0), dense(1, 2, vec![5.0, 6.0]));
}

#[test]
fn a_vector_becomes_a_column() {
    let m: Matrix<Real> = Matrix::from(vector(vec![1.0, 2.0, 3.0]));
    assert_eq!(m, dense(3, 1, vec![1.0, 2.0, 3.0]));
    let none: Matrix<Real> = Matrix::from(vector(vec![]));
    assert_eq!((none.rows(), none.cols()), (0, 1));
}

#[test]
fn subtracting_what_was_added_gives_the_matrix_back() {
    let a = dense(2, 2, vec![1.5, 2.25, -3.0, 4.0]);
    let b = dense(2, 2, vec![0.5, 0.75, 1.0, 2.0]);
    let sum = dense_ops::add(&a, &b).unwrap();
    assert_eq!(sum, dense(2, 2, vec![2.0, 3.0, -2.0, 6.0]));
    assert_eq!(dense_ops::sub(&sum, &b).unwrap(), a);
}

#[test]
fn transposing_twice_gives_the_matrix_back() {
    let a = dense(2, 3, vec![1.0, 2.0, 3.0, 4.0, 5.0, 6.0]);
    assert_eq!(dense_ops::transpose(&dense_ops::transpose(&a)), a);
}

#[test]
fn the_identity_changes_nothing_in_a_product() {
    let a = dense(2, 3, vec![1.0, 2.0, 3.0, 4.0, 5.0, 6.0]);
    assert_eq!(dense_ops::mul(&Matrix::identity(2), &a).unwrap(), a);
    assert_eq!(dense_ops::mul(&a, &Matrix::identity(3)).unwrap(), a);
    let square = dense(2, 2, vec![1.0, 2.0, 3.0, 4.0]);
    assert_eq!(dense_ops::mul(&Matrix::identity(2), &square).unwrap(), square);
    assert_eq!(dense_ops::mul(&square, &Matrix::identity(2)).unwrap(), square);
    let signed = dense(3, 3, vec![-1.5, 0.0, -0.0, 2.0, -7.0, 1e300, -1e-300, 0.25, -3.0]);
    assert_eq!(dense_ops::mul(&Matrix::identity(3), &signed).unwrap(), signed);
    assert_eq!(dense_ops::mul(&signed, &Matrix::identity(3)).unwrap(), signed);
}

#[test]
fn the_product_is_not_commutative() {
    let a = dense(2, 2, vec![1.0, 2.0, 3.0, 4.0]);
    let b = dense(2, 2, vec![0.0, 1.0, 1.0, 0.0]);
    assert_eq!(dense_ops::mul(&a, &b).unwrap(), dense(2, 2, vec![2.0, 1.0, 4.0, 3.0]));
    assert_eq!(dense_ops::mul(&b, &a).unwrap(), dense(2, 2, vec![3.0, 4.0, 1.0, 2.0]));
}

#[test]
fn shapes_that_do_not_fit_are_refused() {
    let a = dense(2, 3, vec![1.0; 6]);
    let b = dense(3, 2, vec![1.0; 6]);
    let c = dense(2, 2, vec![1.0; 4]);
    assert_eq!(dense_ops::add(&a, &b).unwrap_err(), Error::DimensionMismatch);
    assert_eq!(dense_ops::sub(&a, &b).unwrap_err(), Error::DimensionMismatch);
    assert_eq!(dense_ops::div(&a, &b).unwrap_err(), Error::DimensionMismatch);
    assert_eq!(dense_ops::add(&a, &c).unwrap_err(), Error::DimensionMismatch);
    assert_eq!(dense_ops::mul(&a, &a).unwrap_err(), Error::DimensionMismatch);
    assert_eq!(dense_ops::mul(&a, &c).unwrap_err(), Error::DimensionMismatch);
    assert!(dense_ops::mul(&a, &b).is_ok());
    assert!(dense_ops::mul(&c, &a).is_ok());
}

#[test]
fn division_by_zero_passes_through() {
    let a = dense(1, 3, vec![1.0, -1.0, 0.0]);
    let b = dense(1, 3, vec![0.0, 0.0, 0.0]);
    let q = dense_ops::div(&a, &b).unwrap();
    assert_eq!(q.get(0, 0), Real(f64::INFINITY));
    assert_eq!(q.get(0, 1), Real(f64::NEG_INFINITY));
    assert!(q.get(0, 2).0.is_nan());
}

#[test]
fn power_takes_fractional_and_negative_exponents() {
    let a = dense(1, 2, vec![4.0, 9.0]);
    assert_eq!(power(&a, Real(0.5)), dense(1, 2, vec![2.0, 3.0]));
    let b = dense(1, 2, vec![2.0, 4.0]);
    assert_eq!(power(&b, Real(-1.0)), dense(1, 2, vec![0.5, 0.25]));
    let c = dense(1, 1, vec![-1.0]);
    assert!(power(&c, Real(0.5)).get(0, 0).0.is_nan());
}

#[test]
fn scalar_mul_multiplies_every_cell() {
    let a = dense(2, 2, vec![1.0, -2.0, 0.5, 0.0]);
    assert_eq!(scalar_mul(&a, Real(-4.0)), dense(2, 2, vec![-4.0, 8.0, -2.0, 0.0]));
}

#[test]
fn determinant_by_size() {
    assert_eq!(determinant(&dense(1, 1, vec![7.5])).unwrap(), Real(7.5));
    assert_eq!(determinant(&dense(2, 2, vec![1.0, 2.0, 3.0, 4.0])).unwrap(), Real(-2.0));
    let three = dense(3, 3, vec![6.0, 1.0, 1.0, 4.0, -2.0, 5.0, 2.0, 8.0, 7.0]);
    assert_eq!(determinant(&three).unwrap(), Real(-306.0));
    let four = dense(
        4,
        4,
        vec![2.0, 0.0, 0.0, 0.0, 0.0, 3.0, 0.0, 0.0, 0.0, 0.0, 4.0, 0.0, 0.0, 0.0, 0.0, 5.0],
    );
    assert_eq!(determinant(&four).unwrap(), Real(120.0));
    let none: Matrix<Real> = Matrix::zeros(0, 0);
    assert_eq!(determinant(&none).unwrap(), Real(0.0));
}

#[test]
fn determinant_of_the_identity_is_one() {
    for n in 1..6 {
        let id: Matrix<Real> = Matrix::identity(n);
        assert_eq!(determinant(&id).unwrap(), Real(1.0));
    }
}

#[test]
fn determinant_needs_a_square_matrix() {
    assert_eq!(determinant(&dense(2, 3, vec![1.0; 6])).unwrap_err(), Error::NotSquare);
    assert_eq!(determinant(&dense(3, 1, vec![1.0; 3])).unwrap_err(), Error::NotSquare);
}

#[test]
fn eigenvalues_come_larger_first() {
    let a = dense(2, 2, vec![2.0, 0.0, 0.0, 5.0]);
    assert_eq!(eigenvalues(&a).unwrap(), reals(vec![5.0, 2.0]));
    let twice = dense(2, 2, vec![2.0, 0.0, 0.0, 2.0]);
    assert_eq!(eigenvalues(&twice).unwrap(), reals(vec![2.0, 2.0]));
    let symmetric = dense(2, 2, vec![2.0, 1.0, 1.0, 2.0]);
    assert_eq!(eigenvalues(&symmetric).unwrap(), reals(vec![3.0, 1.0]));
}

#[test]
fn eigenvalues_refuse_what_they_cannot_do() {
    let rotation = dense(2, 2, vec![0.0, -1.0, 1.0, 0.0]);
    assert_eq!(eigenvalues(&rotation).unwrap_err(), Error::ComplexEigenvalues);
    assert_eq!(eigenvalues(&dense(3, 3, vec![1.0; 9])).unwrap_err(), Error::Unsupported);
    assert_eq!(eigenvalues(&dense(1, 1, vec![1.0])).unwrap_err(), Error::Unsupported);
    assert_eq!(eigenvalues(&dense(2, 3, vec![1.0; 6])).unwrap_err(), Error::NotSquare);
    let not_a_number = dense(2, 2, vec![f64::NAN, 0.0, 0.0, 1.0]);
    assert_eq!(eigenvalues(&not_a_number).unwrap_err(), Error::ComplexEigenvalues);
}

#[test]
fn lu_gives_the_two_factors() {
    let a = dense(3, 3, vec![2.0, 3.0, 1.0, 4.0, 7.0, 3.0, 6.0, 18.0, 5.0]);
    let (l, u) = lu(&a).unwrap();
    assert_eq!(l, dense(3, 3, vec![1.0, 0.0, 0.0, 2.0, 1.0, 0.0, 3.0, 9.0, 1.0]));
    assert_eq!(u, dense(3, 3, vec![2.0, 3.0, 1.0, 0.0, 1.0, 1.0, 0.0, 0.0, -7.0]));
    assert_eq!(dense_ops::mul(&l, &u).unwrap(), a);
}

#[test]
fn lu_refuses_a_zero_pivot_and_a_shape_that_is_not_square() {
    let needs_exchange = dense(2, 2, vec![0.0, 1.0, 1.0, 0.0]);
    assert_eq!(lu(&needs_exchange).unwrap_err(), Error::SingularMatrix);
    let singular = dense(2, 2, vec![1.0, 2.0, 2.0, 4.0]);
    assert_eq!(lu(&singular).unwrap_err(), Error::SingularMatrix);
    let last_pivot = dense(1, 1, vec![0.0]);
    assert_eq!(lu(&last_pivot).unwrap_err(), Error::SingularMatrix);
    assert_eq!(lu(&dense(2, 3, vec![1.0; 6])).unwrap_err(), Error::NotSquare);
    let none: Matrix<Real> = Matrix::zeros(0, 0);
    assert!(lu(&none).is_ok());
}

#[test]
fn decompositions_that_are_not_provided_say_so() {
    let a = dense(2, 2, vec![1.0, 2.0, 3.0, 4.0]);
    assert_eq!(svd(&a).unwrap_err(), Error::Unsupported);
    assert_eq!(qr(&a).unwrap_err(), Error::Unsupported);
    assert_eq!(eigen(&a).unwrap_err(), Error::Unsupported);
}

#[test]
fn inverse_of_a_singular_matrix_is_absent() {
    assert!(inv(&dense(2, 2, vec![1.0, 2.0, 2.0, 4.0])).unwrap().is_none());
    assert!(inv(&dense(1, 1, vec![0.0])).unwrap().is_none());
    let dependent = dense(3, 3, vec![1.0, 2.0, 3.0, 2.0, 4.0, 6.0, 1.0, 0.0, 1.0]);
    assert!(inv(&dependent).unwrap().is_none());
    assert!(inv(&dense(2, 2, vec![0.0, 0.0, 0.0, 0.0])).unwrap().is_none());
}

#[test]
fn inverse_needs_a_square_matrix() {
    let wide = dense(2, 3, vec![1.0, 0.0, 0.0, 0.0, 1.0, 0.0]);
    assert_eq!(inv(&wide).unwrap_err(), Error::NotSquare);
    let tall = dense(3, 2, vec![1.0, 0.0, 0.0, 1.0, 0.0, 0.0]);
    assert_eq!(inv(&tall).unwrap_err(), Error::NotSquare);
    assert_eq!(inv(&dense(1, 2, vec![1.0, 2.0])).unwrap_err(), Error::NotSquare);
    assert_eq!(inv(&dense(2, 1, vec![1.0, 2.0])).unwrap_err(), Error::NotSquare);
    let no_rows: Matrix<Real> = Matrix::zeros(0, 3);
    assert_eq!(inv(&no_rows).unwrap_err(), Error::NotSquare);
    let no_columns: Matrix<Real> = Matrix::zeros(3, 0);
    assert_eq!(inv(&no_columns).unwrap_err(), Error::NotSquare);
    assert!(inv(&dense(2, 2, vec![1.0, 0.0, 0.0, 1.0])).is_ok());
}

#[test]
fn inverse_exchanges_rows_where_the_pivot_is_zero() {
    let a = dense(2, 2, vec![0.0, 1.0, 1.0, 0.0]);
    assert_eq!(inv(&a).unwrap().unwrap(), a);
    let b = dense(3, 3, vec![0.0, 2.0, 0.0, 1.0, 0.0, 0.0, 0.0, 0.0, 4.0]);
    let expected = dense(3, 3, vec![0.0, 1.0, 0.0, 0.5, 0.0, 0.0, 0.0, 0.0, 0.25]);
    assert_eq!(inv(&b).unwrap().unwrap(), expected);
}

#[test]
fn inverse_is_rounded_to_six_places() {
    assert_eq!(inv(&dense(1, 1, vec![3.0])).unwrap().unwrap(), dense(1, 1, vec![0.333333]));
    assert_eq!(inv(&dense(1, 1, vec![-7.0])).unwrap().unwrap(), dense(1, 1, vec![-0.142857]));
    let none: Matrix<Real> = Matrix::zeros(0, 0);
    assert_eq!(inv(&none).unwrap().unwrap(), none);
}

#[test]
fn a_matrix_times_its_inverse_is_close_to_the_identity() {
    let a = dense(2, 2, vec![4.0, 7.0, 2.0, 6.0]);
    let inverse = inv(&a).unwrap().unwrap();
    assert_eq!(inverse, dense(2, 2, vec![0.6, -0.7, -0.2, 0.4]));
    assert!(close(&dense_ops::mul(&a, &inverse).unwrap(), &Matrix::identity(2), 1e-5));
    let b = dense(3, 3, vec![2.0, -1.0, 0.0, -1.0, 2.0, -1.0, 0.0, -1.0, 2.0]);
    let inverse = inv(&b).unwrap().unwrap();
    assert_eq!(inverse, dense(3, 3, vec![0.75, 0.5, 0.25, 0.5, 1.0, 0.5, 0.25, 0.5, 0.75]));
    assert!(close(&dense_ops::mul(&b, &inverse).unwrap(), &Matrix::identity(3), 1e-5));
    let c = dense(3, 3, vec![1.0, 2.0, 3.0, 0.0, 1.0, 4.0, 5.0, 6.0, 0.0]);
    let inverse = inv(&c).unwrap().unwrap();
    assert!(close(&dense_ops::mul(&c, &inverse).unwrap(), &Matrix::identity(3), 1e-5));
    assert!(close(&dense_ops::mul(&inverse, &c).unwrap(), &Matrix::identity(3), 1e-5));
}

#[test]
fn a_sparse_cell_reads_as_its_first_entry() {
    let mut m = SparseMatrix::new(2, 2, entries(vec![(0, 0, 1.0), (0, 0, 9.0)]));
    assert_eq!(m.get(0, 0), Real(1.0));
    m.set(0, 0, Real(5.0));
    assert_eq!(m.data.len(), 3);
    assert_eq!(m.data[2], (0, 0, Real(5.0)));
    assert_eq!(m.get(0, 0), Real(1.0));
    m.set(1, 0, Real(5.0));
    assert_eq!(m.get(1, 0), Real(5.0));
    m.set(1, 0, Real(6.0));
    assert_eq!(m.get(1, 0), Real(5.0));
    assert_eq!(m.data.len(), 5);
}

#[test]
fn a_sparse_cell_without_entry_reads_as_zero() {
    let m = SparseMatrix::new(2, 2, entries(vec![(1, 1, 3.0)]));
    assert_eq!(m.get(0, 0), Real(0.0));
    assert_eq!(m.get(0, 1), Real(0.0));
    assert_eq!(m.get(7, 7), Real(0.0));
    let outside = SparseMatrix::new(1, 1, entries(vec![(5, 5, 2.0)]));
    assert_eq!(outside.get(5, 5), Real(2.0));
}

#[test]
fn the_sparse_identity_has_one_entry_for_each_row() {
    let id = SparseMatrix::<Real>::identity(3);
    assert_eq!(id.data, entries(vec![(0, 0, 1.0), (1, 1, 1.0), (2, 2, 1.0)]));
    assert_eq!(SparseMatrix::<Real>::identity(0).data.len(), 0);
}

#[test]
fn a_sparse_result_lists_every_cell_row_after_row() {
    let a = SparseMatrix::new(2, 2, entries(vec![(0, 0, 1.0), (1, 1, 2.0)]));
    let b = SparseMatrix::new(2, 2, entries(vec![(0, 1, 4.0), (1, 1, 5.0)]));
    let sum = sparse_ops::add(&a, &b).unwrap();
    assert_eq!((sum.rows, sum.cols), (2, 2));
    assert_eq!(sum.data, entries(vec![(0, 0, 1.0), (0, 1, 4.0), (1, 0, 0.0), (1, 1, 7.0)]));
    let difference = sparse_ops::sub(&a, &b).unwrap();
    assert_eq!(
        difference.data,
        entries(vec![(0, 0, 1.0), (0, 1, -4.0), (1, 0, 0.0), (1, 1, -3.0)])
    );
    let product = sparse_ops::mul(&a, &b).unwrap();
    assert_eq!(product.data, entries(vec![(0, 0, 0.0), (0, 1, 4.0), (1, 0, 0.0), (1, 1, 10.0)]));
    let scaled = sparse_ops::scalar_mul(&a, Real(3.0));
    assert_eq!(scaled.data, entries(vec![(0, 0, 3.0), (0, 1, 0.0), (1, 0, 0.0), (1, 1, 6.0)]));
    let squared = sparse_ops::power(&a, Real(2.0));
    assert_eq!(squared.data, entries(vec![(0, 0, 1.0), (0, 1, 0.0), (1, 0, 0.0), (1, 1, 4.0)]));
}

#[test]
fn the_sparse_transpose_turns_the_shape_round() {
    let a = SparseMatrix::new(2, 3, entries(vec![(0, 2, 1.0), (1, 0, 2.0)]));
    let t = sparse_ops::transpose(&a);
    assert_eq!((t.rows, t.cols), (3, 2));
    assert_eq!(
        t.data,
        entries(vec![
            (0, 0, 0.0),
            (1, 0, 0.0),
            (2, 0, 1.0),
            (0, 1, 2.0),
            (1, 1, 0.0),
            (2, 1, 0.0)
        ])
    );
    assert_eq!(t.get(2, 0), Real(1.0));
    assert_eq!(t.get(0, 1), Real(2.0));
}

#[test]
fn sparse_shapes_that_do_not_fit_are_refused() {
    let a = SparseMatrix::<Real>::zeros(2, 3);
    let b = SparseMatrix::<Real>::zeros(3, 2);
    assert_eq!(sparse_ops::add(&a, &b).unwrap_err(), Error::DimensionMismatch);
    assert_eq!(sparse_ops::sub(&a, &b).unwrap_err(), Error::DimensionMismatch);
    assert_eq!(sparse_ops::div(&a, &b).unwrap_err(), Error::DimensionMismatch);
    assert_eq!(sparse_ops::mul(&a, &a).unwrap_err(), Error::DimensionMismatch);
    assert!(sparse_ops::mul(&a, &b).is_ok());
}

#[test]
fn sparse_division_by_a_missing_cell_passes_through() {
    let a = SparseMatrix::new(1, 2, entries(vec![(0, 0, 1.0)]));
    let b = SparseMatrix::<Real>::zeros(1, 2);
    let q = sparse_ops::div(&a, &b).unwrap();
    assert_eq!(q.get(0, 0), Real(f64::INFINITY));
    assert!(q.get(0, 1).0.is_nan());
}

fn encode(m: &Matrix<Real>) -> SparseMatrix<Real> {
    let mut cells = Vec::new();
    for i in 0..m.rows() {
        for j in 0..m.cols() {
            if m.get(i, j).0 != 0.0 {
                cells.push((i, j, m.get(i, j)));
            }
        }
    }
    SparseMatrix::new(m.rows(), m.cols(), cells)
}

fn same_cells(s: &SparseMatrix<Real>, d: &Matrix<Real>) -> bool {
    s.rows == d.rows()
        && s.cols == d.cols()
        && (0..d.rows()).all(|i| (0..d.cols()).all(|j| s.get(i, j) == d.get(i, j)))
}

#[test]
fn sparse_and_dense_agree() {
    let a = dense(2, 3, vec![1.0, 0.0, 3.0, 0.0, 5.0, 6.0]);
    let b = dense(2, 3, vec![7.0, 8.0, 0.0, 10.0, 0.0, 12.0]);
    let c = dense(3, 2, vec![0.0, 2.0, 3.0, 0.0, 5.0, 6.0]);
    let (sa, sb, sc) = (encode(&a), encode(&b), encode(&c));
    assert!(same_cells(&sa, &a));
    assert!(same_cells(&sparse_ops::add(&sa, &sb).unwrap(), &dense_ops::add(&a, &b).unwrap()));
    assert!(same_cells(&sparse_ops::sub(&sa, &sb).unwrap(), &dense_ops::sub(&a, &b).unwrap()));
    assert!(same_cells(&sparse_ops::mul(&sa, &sc).unwrap(), &dense_ops::mul(&a, &c).unwrap()));
    assert!(same_cells(&sparse_ops::transpose(&sa), &dense_ops::transpose(&a)));
    assert!(same_cells(&sparse_ops::scalar_mul(&sa, Real(2.5)), &scalar_mul(&a, Real(2.5))));
    assert!(same_cells(&sparse_ops::power(&sa, Real(2.0)), &power(&a, Real(2.0))));
    let ones = dense(2, 3, vec![1.0, 2.0, 4.0, 8.0, 16.0, 32.0]);
    assert!(same_cells(
        &sparse_ops::div(&sa, &encode(&ones)).unwrap(),
        &dense_ops::div(&a, &ones).unwrap()
    ));
}

#[test]
fn vectors_of_different_length_are_refused() {
    let a = vector(vec![1.0, 2.0, 3.0]);
    let b = vector(vec![1.0, 2.0]);
    assert_eq!(vector_ops::add(&a, &b).unwrap_err(), Error::DimensionMismatch);
    assert_eq!(vector_ops::sub(&a, &b).unwrap_err(), Error::DimensionMismatch);
    assert_eq!(vector_ops::mul(&a, &b).unwrap_err(), Error::DimensionMismatch);
    assert_eq!(vector_ops::div(&a, &b).unwrap_err(), Error::DimensionMismatch);
    assert_eq!(vector_ops::dot(&a, &b).unwrap_err(), Error::DimensionMismatch);
}

#[test]
fn vectors_read_and_write_by_index() {
    let mut v = vector(vec![1.0, 2.0, 3.0]);
    assert_eq!(v.len(), 3);
    assert_eq!(v.get(1), Real(2.0));
    v.set(1, Real(8.0));
    assert_eq!(v, vector(vec![1.0, 8.0, 3.0]));
}

#[test]
fn vector_sums_and_lengths() {
    assert_eq!(vector_ops::norm(&vector(vec![3.0, 4.0])), Real(5.0));
    assert_eq!(vector_ops::norm(&vector(vec![])), Real(0.0));
    assert_eq!(vector_ops::sum(&vector(vec![])), Real(0.0));
    assert_eq!(vector_ops::sum(&vector(vec![1.5, -0.5, 2.0])), Real(3.0));
    assert_eq!(vector_ops::dot(&vector(vec![]), &vector(vec![])).unwrap(), Real(0.0));
    assert_eq!(
        vector_ops::dot(&vector(vec![1.0, 2.0]), &vector(vec![3.0, -4.0])).unwrap(),
        Real(-5.0)
    );
}

#[test]
fn hadamard_goes_by_the_first_vector() {
    let a = vector(vec![1.0, 2.0]);
    let b = vector(vec![3.0, 4.0, 5.0]);
    assert_eq!(vector_ops::hadamard(&a, &b), vector(vec![3.0, 8.0]));
}

#[test]
fn concat_keeps_the_order() {
    let a = vector(vec![1.0, 2.0]);
    let b = vector(vec![3.0]);
    assert_eq!(vector_ops::concat(&a, &b), vector(vec![1.0, 2.0, 3.0]));
    assert_eq!(vector_ops::concat(&b, &a), vector(vec![3.0, 1.0, 2.0]));
    assert_eq!(vector_ops::concat(&vector(vec![]), &a), a);
}

#[test]
fn cell_keys_keep_rows_and_columns_apart() {
    assert_eq!(key_of(0, 0), 0);
    assert_eq!(key_of(0, 5), 5);
    assert_eq!(key_of(1, 0), 1u128 << 64);
    assert_eq!(key_of(3, 7), (3u128 << 64) + 7);
    assert_ne!(key_of(1, 2), key_of(2, 1));
    assert_eq!(key_of(usize::MAX, usize::MAX), ((usize::MAX as u128) << 64) + usize::MAX as u128);
}

#[test]
fn either_kind_is_built_and_read() {
    let d = Either::new_dense(2, 2, reals(vec![1.0, 2.0, 3.0, 4.0])).unwrap();
    assert_eq!(d.get(0, 1), Real(2.0));
    assert_eq!(d.get(1, 0), Real(3.0));
    assert_eq!(
        Either::new_dense(2, 2, reals(vec![1.0, 2.0, 3.0])).unwrap_err(),
        Error::DimensionMismatch
    );
    let s = Either::new_sparse(2, 2, entries(vec![(0, 0, 1.0), (1, 1, 2.0), (0, 0, 7.0)]));
    assert_eq!(s.get(0, 0), Real(7.0));
    assert_eq!(s.get(1, 1), Real(2.0));
    assert_eq!(s.get(0, 1), Real(0.0));
    match Either::<Real>::zeros(2, 3) {
        Either::Dense { rows, cols, data } => {
            assert_eq!((rows, cols), (2, 3));
            assert_eq!(data, reals(vec![0.0; 6]));
        }
        Either::Sparse { .. } => panic!("zeros is dense"),
    }
    match Either::<Real>::identity(2) {
        Either::Dense { rows, cols, data } => {
            assert_eq!((rows, cols), (2, 2));
            assert_eq!(data, reals(vec![1.0, 0.0, 0.0, 1.0]));
        }
        Either::Sparse { .. } => panic!("the identity is dense"),
    }
}

#[test]
fn a_keyed_cell_is_overwritten_and_a_zero_is_not_kept() {
    let mut s = Either::new_sparse(2, 2, entries(vec![]));
    s.set(0, 1, Real(3.0));
    s.set(0, 1, Real(4.0));
    assert_eq!(s.get(0, 1), Real(4.0));
    match &s {
        Either::Sparse { data, .. } => {
            assert_eq!(data.len(), 1);
            assert_eq!(data.get(&key_of(0, 1)), Some(&Real(4.0)));
        }
        Either::Dense { .. } => panic!("the matrix is sparse"),
    }
    s.set(0, 1, Real(0.0));
    assert_eq!(s.get(0, 1), Real(0.0));
    s.set(1, 1, Real(-0.0));
    match &s {
        Either::Sparse { data, .. } => assert_eq!(data.len(), 0),
        Either::Dense { .. } => panic!("the matrix is sparse"),
    }
    let mut d = Either::<Real>::zeros(2, 2);
    d.set(1, 0, Real(5.0));
    assert_eq!(d.get(1, 0), Real(5.0));
    assert_eq!(d.get(0, 1), Real(0.0));
    d.set(1, 0, Real(0.0));
    assert_eq!(d.get(1, 0), Real(0.0));
}

#[test]
fn rounding_shows_in_sums_products_and_factors() {
    let small = dense(1, 1, vec![1e-20]);
    let one = dense(1, 1, vec![1.0]);
    let sum = dense_ops::add(&small, &one).unwrap();
    assert_eq!(dense_ops::sub(&sum, &one).unwrap(), dense(1, 1, vec![0.0]));

    let unbounded = dense(2, 2, vec![f64::INFINITY, 1.0, 1.0, 1.0]);
    let product = dense_ops::mul(&Matrix::identity(2), &unbounded).unwrap();
    assert_eq!(product.get(0, 0), Real(f64::INFINITY));
    assert!(product.get(1, 0).0.is_nan());

    let a = dense(2, 2, vec![0.1, 0.1, 0.2, 0.9]);
    let (l, u) = lu(&a).unwrap();
    assert_eq!(l, dense(2, 2, vec![1.0, 0.0, 2.0, 1.0]));
    let back = dense_ops::mul(&l, &u).unwrap();
    assert_eq!(back, dense(2, 2, vec![0.1, 0.1, 0.2, 0.8999999999999999]));
    assert!(close(&back, &a, 1e-12));
}
