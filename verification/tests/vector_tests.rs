use linear_algebra_ml::scalar::Scalar;
use linear_algebra_ml::vector::ops;
use linear_algebra_ml::vector::vector::Vector;

/// A double-precision scalar for the tests.
#[derive(Clone, Copy, Debug, PartialEq)]
struct Real(f64);

impl Scalar for Real {
    fn from_int_spec(_n: i32) -> Real {
        unreachable!()
    }

    fn plus_spec(self, _rhs: Real) -> Real {
        unreachable!()
    }

    fn minus_spec(self, _rhs: Real) -> Real {
        unreachable!()
    }

    fn times_spec(self, _rhs: Real) -> Real {
        unreachable!()
    }

    fn over_spec(self, _rhs: Real) -> Real {
        unreachable!()
    }

    fn powf_spec(self, _exponent: Real) -> Real {
        unreachable!()
    }

    fn sqrt_spec(self) -> Real {
        unreachable!()
    }

    fn abs_spec(self) -> Real {
        unreachable!()
    }

    fn round_spec(self) -> Real {
        unreachable!()
    }

    fn equals_spec(self, _rhs: Real) -> bool {
        unreachable!()
    }

    fn less_spec(self, _rhs: Real) -> bool {
        unreachable!()
    }

    fn from_int(n: i32) -> Real {
        Real(f64::from(n))
    }

    fn plus(self, rhs: Real) -> Real {
        Real(self.0 + rhs.0)
    }

    fn minus(self, rhs: Real) -> Real {
        Real(self.0 - rhs.0)
    }

    fn times(self, rhs: Real) -> Real {
        Real(self.0 * rhs.0)
    }

    fn over(self, rhs: Real) -> Real {
        Real(self.0 / rhs.0)
    }

    fn powf(self, exponent: Real) -> Real {
        Real(self.0.powf(exponent.0))
    }

    fn sqrt(self) -> Real {
        Real(self.0.sqrt())
    }

    fn abs(self) -> Real {
        Real(self.0.abs())
    }

    fn round(self) -> Real {
        Real(self.0.round())
    }

    fn equals(self, rhs: Real) -> bool {
        self.0 == rhs.0
    }

    fn less(self, rhs: Real) -> bool {
        self.0 < rhs.0
    }
}

fn reals(values: Vec<f64>) -> Vec<Real> {
    values.into_iter().map(Real).collect()
}

#[test]
fn test_vector_add() {
    let a = Vector::new(reals(vec![1.0, 2.0, 3.0]));
    let b = Vector::new(reals(vec![4.0, 5.0, 6.0]));
    let result = ops::add(&a, &b).unwrap();
    assert_eq!(result, Vector::new(reals(vec![5.0, 7.0, 9.0])));
}

#[test]
fn test_vector_sub() {
    let a = Vector::new(reals(vec![1.0, 2.0, 3.0]));
    let b = Vector::new(reals(vec![4.0, 5.0, 6.0]));
    let result = ops::sub(&a, &b).unwrap();
    assert_eq!(result, Vector::new(reals(vec![-3.0, -3.0, -3.0])));
}

#[test]
fn test_vector_mul() {
    let a = Vector::new(reals(vec![1.0, 2.0, 3.0]));
    let b = Vector::new(reals(vec![4.0, 5.0, 6.0]));
    let result = ops::mul(&a, &b).unwrap();
    assert_eq!(result, Vector::new(reals(vec![4.0, 10.0, 18.0])));
}

#[test]
fn test_vector_div() {
    let a = Vector::new(reals(vec![1.0, 2.0, 3.0]));
    let b = Vector::new(reals(vec![4.0, 5.0, 6.0]));
    let result = ops::div(&a, &b).unwrap();
    assert_eq!(result, Vector::new(reals(vec![0.25, 0.4, 0.5])));
}

#[test]
fn vector_tests_test_vector_dot() {
    let a = Vector::new(reals(vec![1.0, 2.0, 3.0]));
    let b = Vector::new(reals(vec![4.0, 5.0, 6.0]));
    let result = ops::dot(&a, &b).unwrap();
    assert_eq!(result, Real(32.0));
}

#[test]
fn test_vector_sum() {
    let a = Vector::new(reals(vec![1.0, 2.0, 3.0]));
    let result = ops::sum(&a);
    assert_eq!(result, Real(6.0));
}

#[test]
fn test_vector_norm() {
    let a = Vector::new(reals(vec![1.0, 2.0, 3.0]));
    let result = ops::norm(&a);
    assert_eq!(result, Real(3.7416573867739413));
}

#[test]
fn test_vector_hadamard() {
    let a = Vector::new(reals(vec![1.0, 2.0, 3.0]));
    let b = Vector::new(reals(vec![4.0, 5.0, 6.0]));
    let result = ops::hadamard(&a, &b);
    assert_eq!(result, Vector::new(reals(vec![4.0, 10.0, 18.0])));
}

#[test]
fn test_vector_concat() {
    let a = Vector::new(reals(vec![1.0, 2.0, 3.0]));
    let b = Vector::new(reals(vec![4.0, 5.0, 6.0]));
    let result = ops::concat(&a, &b);
    assert_eq!(result, Vector::new(reals(vec![1.0, 2.0, 3.0, 4.0, 5.0, 6.0])));
}

#[test]
fn test_vector_scalar_mul() {
    let a = Vector::new(reals(vec![1.0, 2.0, 3.0]));
    let result = ops::vec_scalar_mul(&a, Real(2.0));
    assert_eq!(result, Vector::new(reals(vec![2.0, 4.0, 6.0])));
}
