use linear_algebra_ml::dense::matrix::Matrix;
use linear_algebra_ml::dense::ops as dense_ops;
use linear_algebra_ml::matrix::decompositions::lu;
use linear_algebra_ml::matrix::ops::{determinant, eigenvalues, inv, power, scalar_mul};
use linear_algebra_ml::scalar::Scalar;
use linear_algebra_ml::sparse::matrix::SparseMatrix;
use linear_algebra_ml::sparse::ops as sparse_ops;
use linear_algebra_ml::utils::error::Error;
use linear_algebra_ml::utils::text;
use linear_algebra_ml::vector::ops as vector_ops;
use linear_algebra_ml::vector::vector::Vector;

fn bits(rows: usize, cols: usize, cells: Vec<u8>) -> Matrix<bool> {
    Matrix::new(rows, cols, cells.into_iter().map(|b| b != 0).collect()).unwrap()
}

fn strings(cells: Vec<&str>) -> Vec<String> {
    cells.into_iter().map(String::from).collect()
}

#[test]
fn the_two_element_field_computes_as_it_should() {
    assert_eq!(<bool as Scalar>::from_int(0), false);
    assert_eq!(<bool as Scalar>::from_int(1), true);
    assert_eq!(<bool as Scalar>::from_int(4), false);
    assert_eq!(<bool as Scalar>::from_int(-1), true);
    assert_eq!(<bool as Scalar>::from_int(1_000_000), false);
    for x in [false, true] {
        for y in [false, true] {
            assert_eq!(x.plus(y), x ^ y);
            assert_eq!(x.minus(y), x ^ y);
            assert_eq!(x.times(y), x & y);
            assert_eq!(x.over(y), x & y);
            assert_eq!(x.equals(y), x == y);
            assert_eq!(x.less(y), !x & y);
        }
        assert_eq!(x.powf(false), true);
        assert_eq!(x.powf(true), x);
        assert_eq!(x.sqrt(), x);
        assert_eq!(x.abs(), x);
        assert_eq!(x.round(), x);
    }
}

#[test]
fn exact_sums_and_products() {
    let a = bits(2, 2, vec![1, 1, 0, 1]);
    let b = bits(2, 2, vec![1, 0, 1, 1]);
    let sum = dense_ops::add(&a, &b).unwrap();
    assert_eq!(sum, bits(2, 2, vec![0, 1, 1, 0]));
    assert_eq!(dense_ops::sub(&sum, &b).unwrap(), a);
    assert_eq!(dense_ops::mul(&a, &b).unwrap(), bits(2, 2, vec![0, 1, 1, 1]));
    assert_eq!(dense_ops::div(&a, &b).unwrap(), bits(2, 2, vec![1, 0, 0, 1]));
    assert_eq!(dense_ops::transpose(&a), bits(2, 2, vec![1, 0, 1, 1]));
    assert_eq!(scalar_mul(&a, false), bits(2, 2, vec![0, 0, 0, 0]));
    assert_eq!(scalar_mul(&a, true), a);
    assert_eq!(power(&a, false), bits(2, 2, vec![1, 1, 1, 1]));
    assert_eq!(dense_ops::mul(&Matrix::identity(2), &a).unwrap(), a);
    assert_eq!(dense_ops::mul(&a, &Matrix::identity(2)).unwrap(), a);
}

#[test]
fn exact_factors_multiply_back() {
    let matrices = vec![
        bits(1, 1, vec![1]),
        bits(2, 2, vec![1, 1, 1, 0]),
        bits(3, 3, vec![1, 1, 0, 1, 0, 1, 0, 1, 0]),
        bits(3, 3, vec![1, 0, 1, 1, 1, 0, 1, 1, 1]),
        bits(4, 4, vec![1, 1, 1, 1, 0, 1, 1, 1, 1, 1, 0, 1, 0, 1, 0, 1]),
    ];
    let mut factored = 0;
    for a in matrices.iter() {
        if let Ok((l, u)) = lu(a) {
            factored += 1;
            assert_eq!(&dense_ops::mul(&l, &u).unwrap(), a);
            for i in 0..a.rows() {
                assert_eq!(l.get(i, i), true);
                for j in 0..a.cols() {
                    if j > i {
                        assert_eq!(l.get(i, j), false);
                    }
                    if j < i {
                        assert_eq!(u.get(i, j), false);
                    }
                }
            }
        }
    }
    assert!(factored >= 3);
    assert_eq!(lu(&bits(2, 2, vec![0, 1, 1, 0])).unwrap_err(), Error::SingularMatrix);
}

#[test]
fn exact_elimination_finds_the_singular_matrices() {
    assert!(inv(&bits(2, 2, vec![1, 1, 1, 1])).unwrap().is_none());
    assert!(inv(&bits(2, 2, vec![0, 0, 0, 1])).unwrap().is_none());
    assert!(inv(&bits(3, 3, vec![1, 1, 0, 0, 1, 1, 1, 0, 1])).unwrap().is_none());
    assert!(inv(&bits(2, 2, vec![0, 1, 1, 0])).unwrap().is_some());
    assert!(inv(&bits(3, 3, vec![1, 1, 0, 1, 0, 1, 0, 1, 0])).unwrap().is_some());
    assert!(inv(&bits(3, 3, vec![0, 1, 1, 1, 1, 0, 1, 0, 0])).unwrap().is_some());
    assert_eq!(inv(&bits(2, 3, vec![1, 0, 0, 0, 1, 0])).unwrap_err(), Error::NotSquare);
}

#[test]
fn exact_determinants() {
    for n in 1..6 {
        let id: Matrix<bool> = Matrix::identity(n);
        assert_eq!(determinant(&id).unwrap(), true);
    }
    assert_eq!(determinant(&bits(2, 2, vec![1, 1, 1, 1])).unwrap(), false);
    assert_eq!(determinant(&bits(3, 3, vec![1, 1, 0, 1, 0, 1, 0, 1, 0])).unwrap(), true);
    assert_eq!(determinant(&bits(3, 3, vec![1, 1, 0, 0, 1, 1, 1, 0, 1])).unwrap(), false);
    assert_eq!(determinant(&bits(2, 3, vec![1; 6])).unwrap_err(), Error::NotSquare);
}

#[test]
fn exact_eigenvalues() {
    assert_eq!(eigenvalues(&bits(2, 2, vec![1, 0, 0, 1])).unwrap(), vec![false, false]);
    assert_eq!(eigenvalues(&bits(2, 2, vec![1, 0, 0, 0])).unwrap(), vec![false, false]);
    assert_eq!(eigenvalues(&bits(3, 3, vec![0; 9])).unwrap_err(), Error::Unsupported);
}

#[test]
fn exact_sparse_and_vector_work() {
    let mut s = SparseMatrix::<bool>::zeros(2, 2);
    s.set(0, 1, true);
    s.set(0, 1, false);
    assert_eq!(s.get(0, 1), true);
    assert_eq!(s.get(1, 1), false);
    let t = sparse_ops::transpose(&s);
    assert_eq!(t.get(1, 0), true);
    assert_eq!(t.data.len(), 4);
    let v = Vector::new(vec![true, true, false]);
    let w = Vector::new(vec![true, false, true]);
    assert_eq!(vector_ops::dot(&v, &w).unwrap(), true);
    assert_eq!(vector_ops::sum(&v), false);
    assert_eq!(vector_ops::add(&v, &w).unwrap(), Vector::new(vec![false, true, true]));
}

#[test]
fn cells_are_written_in_lines() {
    assert_eq!(text::line(&strings(vec![])), "");
    assert_eq!(text::line(&strings(vec!["1"])), "1 ");
    assert_eq!(text::line(&strings(vec!["1", "2.5", "-3"])), "1 2.5 -3 ");
    assert_eq!(
        text::grid(2, 3, &strings(vec!["1.00", "2.00", "3.00", "4.00", "5.00", "6.00"])).unwrap(),
        "1.00 2.00 3.00 \n4.00 5.00 6.00 \n"
    );
    assert_eq!(text::grid(0, 3, &strings(vec![])).unwrap(), "");
    assert_eq!(text::grid(2, 0, &strings(vec![])).unwrap(), "\n\n");
    assert_eq!(text::grid(1, 1, &strings(vec!["x"])).unwrap(), "x \n");
}

#[test]
fn a_grid_needs_a_cell_for_each_place() {
    assert_eq!(
        text::grid(2, 2, &strings(vec!["1", "2", "3"])).unwrap_err(),
        Error::DimensionMismatch
    );
    assert_eq!(text::grid(1, 1, &strings(vec![])).unwrap_err(), Error::DimensionMismatch);
    assert_eq!(text::grid(usize::MAX, 2, &strings(vec![])).unwrap_err(), Error::DimensionMismatch);
}

#[test]
fn each_error_has_its_message() {
    assert_eq!(
        Error::DimensionMismatch.message(),
        "Matrix size mismatch: matrices must have the same dimensions"
    );
    assert_eq!(Error::NotSquare.message(), "Matrix is not square");
    assert_eq!(Error::SingularMatrix.message(), "Matrix is singular");
    assert_eq!(Error::ComplexEigenvalues.message(), "Complex eigenvalues not supported");
    assert_eq!(Error::Unsupported.message(), "Operation is not supported");
}
