use vstd::prelude::*;
use crate::scalar::Scalar;
use crate::scalar::zero;
use crate::utils::error::Error;
use crate::utils::grid::sequence;
use crate::vector::vector::Vector;

verus! {

/// The item-by-item sum.
pub open spec fn add_spec<T: Scalar>(a: Seq<T>, b: Seq<T>) -> Seq<T> {
    Seq::new(a.len(), |i: int| a[i].plus_spec(b[i]))
}

/// The item-by-item difference.
pub open spec fn sub_spec<T: Scalar>(a: Seq<T>, b: Seq<T>) -> Seq<T> {
    Seq::new(a.len(), |i: int| a[i].minus_spec(b[i]))
}

/// The item-by-item product.
pub open spec fn mul_spec<T: Scalar>(a: Seq<T>, b: Seq<T>) -> Seq<T> {
    Seq::new(a.len(), |i: int| a[i].times_spec(b[i]))
}

/// The item-by-item quotient.
pub open spec fn div_spec<T: Scalar>(a: Seq<T>, b: Seq<T>) -> Seq<T> {
    Seq::new(a.len(), |i: int| a[i].over_spec(b[i]))
}

/// Every item multiplied by `scalar`.
pub open spec fn scalar_mul_spec<T: Scalar>(a: Seq<T>, scalar: T) -> Seq<T> {
    Seq::new(a.len(), |i: int| a[i].times_spec(scalar))
}

/// The sum of the products of the first `n` items of `a` and `b`, added up
/// from zero in ascending order.
pub open spec fn dot_prefix<T: Scalar>(a: Seq<T>, b: Seq<T>, n: nat) -> T
    decreases n,
{
    if n == 0 {
        zero::<T>()
    } else {
        dot_prefix(a, b, (n - 1) as nat).plus_spec(a[n - 1].times_spec(b[n - 1]))
    }
}

/// The sum of the first `n` items, added up from zero in ascending order.
pub open spec fn sum_prefix<T: Scalar>(a: Seq<T>, n: nat) -> T
    decreases n,
{
    if n == 0 {
        zero::<T>()
    } else {
        sum_prefix(a, (n - 1) as nat).plus_spec(a[n - 1])
    }
}

/// The Euclidean length: the root of the sum of the squares.
pub open spec fn norm_spec<T: Scalar>(a: Seq<T>) -> T {
    dot_prefix(a, a, a.len()).sqrt_spec()
}

/// Adds two vectors of the same length item by item.
pub fn add<T: Scalar>(a: &Vector<T>, b: &Vector<T>) -> (r: Result<Vector<T>, Error>)
    ensures
        match r {
            Ok(v) => a@.len() == b@.len() && v@ == add_spec(a@, b@),
            Err(e) => a@.len() != b@.len() && e == Error::DimensionMismatch,
        },
{
    if a.len() != b.len() {
        return Err(Error::DimensionMismatch);
    }
    let ghost item = |i: int| a@[i].plus_spec(b@[i]);
    let f = |i: usize| -> (e: T)
        requires
            i < a@.len(),
        ensures
            e == item(i as int),
        { a.get(i).plus(b.get(i)) };
    Ok(Vector::new(sequence(a.len(), f, Ghost(item))))
}

/// Subtracts `b` from `a`, two vectors of the same length, item by item.
pub fn sub<T: Scalar>(a: &Vector<T>, b: &Vector<T>) -> (r: Result<Vector<T>, Error>)
    ensures
        match r {
            Ok(v) => a@.len() == b@.len() && v@ == sub_spec(a@, b@),
            Err(e) => a@.len() != b@.len() && e == Error::DimensionMismatch,
        },
{
    if a.len() != b.len() {
        return Err(Error::DimensionMismatch);
    }
    let ghost item = |i: int| a@[i].minus_spec(b@[i]);
    let f = |i: usize| -> (e: T)
        requires
            i < a@.len(),
        ensures
            e == item(i as int),
        { a.get(i).minus(b.get(i)) };
    Ok(Vector::new(sequence(a.len(), f, Ghost(item))))
}

/// Multiplies two vectors of the same length item by item.
pub fn mul<T: Scalar>(a: &Vector<T>, b: &Vector<T>) -> (r: Result<Vector<T>, Error>)
    ensures
        match r {
            Ok(v) => a@.len() == b@.len() && v@ == mul_spec(a@, b@),
            Err(e) => a@.len() != b@.len() && e == Error::DimensionMismatch,
        },
{
    if a.len() != b.len() {
        return Err(Error::DimensionMismatch);
    }
    let ghost item = |i: int| a@[i].times_spec(b@[i]);
    let f = |i: usize| -> (e: T)
        requires
            i < a@.len(),
        ensures
            e == item(i as int),
        { a.get(i).times(b.get(i)) };
    Ok(Vector::new(sequence(a.len(), f, Ghost(item))))
}

/// Divides `a` by `b`, two vectors of the same length, item by item.
pub fn div<T: Scalar>(a: &Vector<T>, b: &Vector<T>) -> (r: Result<Vector<T>, Error>)
    ensures
        match r {
            Ok(v) => a@.len() == b@.len() && v@ == div_spec(a@, b@),
            Err(e) => a@.len() != b@.len() && e == Error::DimensionMismatch,
        },
{
    if a.len() != b.len() {
        return Err(Error::DimensionMismatch);
    }
    let ghost item = |i: int| a@[i].over_spec(b@[i]);
    let f = |i: usize| -> (e: T)
        requires
            i < a@.len(),
        ensures
            e == item(i as int),
        { a.get(i).over(b.get(i)) };
    Ok(Vector::new(sequence(a.len(), f, Ghost(item))))
}

/// The dot product of two vectors of the same length.
pub fn dot<T: Scalar>(a: &Vector<T>, b: &Vector<T>) -> (r: Result<T, Error>)
    ensures
        match r {
            Ok(d) => a@.len() == b@.len() && d == dot_prefix(a@, b@, a@.len()),
            Err(e) => a@.len() != b@.len() && e == Error::DimensionMismatch,
        },
{
    if a.len() != b.len() {
        return Err(Error::DimensionMismatch);
    }
    let n: usize = a.len();
    let mut result: T = T::from_int(0);
    let mut i: usize = 0;
    while i < n
        invariant
            i <= n,
            n == a@.len(),
            n == b@.len(),
            result == dot_prefix(a@, b@, i as nat),
        decreases n - i,
    {
        result = result.plus(a.get(i).times(b.get(i)));
        i += 1;
    }
    Ok(result)
}

/// Multiplies every item by `scalar`.
pub fn vec_scalar_mul<T: Scalar>(vector: &Vector<T>, scalar: T) -> (v: Vector<T>)
    ensures
        v@ == scalar_mul_spec(vector@, scalar),
{
    let ghost item = |i: int| vector@[i].times_spec(scalar);
    let f = |i: usize| -> (e: T)
        requires
            i < vector@.len(),
        ensures
            e == item(i as int),
        { vector.get(i).times(scalar) };
    Vector::new(sequence(vector.len(), f, Ghost(item)))
}

/// The Euclidean length of the vector.
pub fn norm<T: Scalar>(vector: &Vector<T>) -> (r: T)
    ensures
        r == norm_spec(vector@),
{
    let n: usize = vector.len();
    let mut result: T = T::from_int(0);
    let mut i: usize = 0;
    while i < n
        invariant
            i <= n,
            n == vector@.len(),
            result == dot_prefix(vector@, vector@, i as nat),
        decreases n - i,
    {
        result = result.plus(vector.get(i).times(vector.get(i)));
        i += 1;
    }
    result.sqrt()
}

/// The item-by-item product of `a` with the items of `b` at the same
/// indices; `b` may be the longer one.
pub fn hadamard<T: Scalar>(a: &Vector<T>, b: &Vector<T>) -> (v: Vector<T>)
    requires
        a@.len() <= b@.len(),
    ensures
        v@ == mul_spec(a@, b@),
{
    let ghost item = |i: int| a@[i].times_spec(b@[i]);
    let f = |i: usize| -> (e: T)
        requires
            i < a@.len(),
        ensures
            e == item(i as int),
        { a.get(i).times(b.get(i)) };
    Vector::new(sequence(a.len(), f, Ghost(item)))
}

/// The items of `a` followed by those of `b`.
pub fn concat<T: Copy>(a: &Vector<T>, b: &Vector<T>) -> (v: Vector<T>)
    ensures
        v@ == a@ + b@,
{
    let mut data: Vec<T> = Vec::new();
    let mut i: usize = 0;
    while i < a.len()
        invariant
            i <= a@.len(),
            data@ == a@.take(i as int),
        decreases a@.len() - i,
    {
        data.push(a.get(i));
        assert(data@ =~= a@.take(i + 1));
        i += 1;
    }
    let mut j: usize = 0;
    while j < b.len()
        invariant
            j <= b@.len(),
            data@ == a@ + b@.take(j as int),
        decreases b@.len() - j,
    {
        data.push(b.get(j));
        assert(data@ =~= a@ + b@.take(j + 1));
        j += 1;
    }
    assert(data@ =~= a@ + b@);
    Vector::new(data)
}

/// The sum of the items.
pub fn sum<T: Scalar>(vector: &Vector<T>) -> (r: T)
    ensures
        r == sum_prefix(vector@, vector@.len()),
{
    let n: usize = vector.len();
    let mut result: T = T::from_int(0);
    let mut i: usize = 0;
    while i < n
        invariant
            i <= n,
            n == vector@.len(),
            result == sum_prefix(vector@, i as nat),
        decreases n - i,
    {
        result = result.plus(vector.get(i));
        i += 1;
    }
    result
}

} // verus!
