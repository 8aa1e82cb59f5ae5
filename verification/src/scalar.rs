use vstd::prelude::*;

verus! {

/// The numbers that fill a matrix or a vector.
///
/// Each operation comes twice: as a model function (`.._spec`), which says
/// what the operation yields, and as the executable method, which must return
/// exactly that. The model is a function, so an implementation promises that
/// equal operands always give equal results.
///
/// No operation may fail: division by zero, the root of a negative number and
/// the like yield whatever value the scalar keeps for them.
///
/// Everything the library proves, it proves of a scalar whose methods keep
/// this promise. For `bool`, below, the promise is proved. An implementation
/// that is compiled without being verified is taken at its word.
pub trait Scalar: Copy {
    /// The scalar that stands for the integer `n`.
    spec fn from_int_spec(n: i32) -> Self;

    /// Sum.
    spec fn plus_spec(self, rhs: Self) -> Self;

    /// Difference.
    spec fn minus_spec(self, rhs: Self) -> Self;

    /// Product.
    spec fn times_spec(self, rhs: Self) -> Self;

    /// Quotient.
    spec fn over_spec(self, rhs: Self) -> Self;

    /// `self` raised to `exponent`.
    spec fn powf_spec(self, exponent: Self) -> Self;

    /// Square root.
    spec fn sqrt_spec(self) -> Self;

    /// Magnitude.
    spec fn abs_spec(self) -> Self;

    /// Nearest whole number.
    spec fn round_spec(self) -> Self;

    /// Numeric equality, which need not be identity.
    spec fn equals_spec(self, rhs: Self) -> bool;

    /// Strict numeric order, which need not be total.
    spec fn less_spec(self, rhs: Self) -> bool;

    /// The scalar that stands for the integer `n`.
    fn from_int(n: i32) -> (r: Self)
        ensures
            r == Self::from_int_spec(n),
    ;

    /// `self` plus `rhs`.
    fn plus(self, rhs: Self) -> (r: Self)
        ensures
            r == self.plus_spec(rhs),
    ;

    /// `self` less `rhs`.
    fn minus(self, rhs: Self) -> (r: Self)
        ensures
            r == self.minus_spec(rhs),
    ;

    /// `self` times `rhs`.
    fn times(self, rhs: Self) -> (r: Self)
        ensures
            r == self.times_spec(rhs),
    ;

    /// `self` divided by `rhs`.
    fn over(self, rhs: Self) -> (r: Self)
        ensures
            r == self.over_spec(rhs),
    ;

    /// `self` raised to `exponent`.
    fn powf(self, exponent: Self) -> (r: Self)
        ensures
            r == self.powf_spec(exponent),
    ;

    /// The square root of `self`.
    fn sqrt(self) -> (r: Self)
        ensures
            r == self.sqrt_spec(),
    ;

    /// The magnitude of `self`.
    fn abs(self) -> (r: Self)
        ensures
            r == self.abs_spec(),
    ;

    /// The whole number nearest to `self`.
    fn round(self) -> (r: Self)
        ensures
            r == self.round_spec(),
    ;

    /// Whether `self` and `rhs` are numerically equal.
    fn equals(self, rhs: Self) -> (r: bool)
        ensures
            r == self.equals_spec(rhs),
    ;

    /// Whether `self` is numerically less than `rhs`.
    fn less(self, rhs: Self) -> (r: bool)
        ensures
            r == self.less_spec(rhs),
    ;
}

/// The scalar zero.
pub open spec fn zero<T: Scalar>() -> T {
    T::from_int_spec(0)
}

/// The scalar one.
pub open spec fn one<T: Scalar>() -> T {
    T::from_int_spec(1)
}

/// Zero and one behave towards `x` as they do in a ring: adding zero and
/// multiplying by one leave `x` as it is, and multiplying by zero gives zero.
/// A scalar with rounding, signed zeros or infinities need not grant this of
/// each of its values.
pub open spec fn unit_laws<T: Scalar>(x: T) -> bool {
    &&& zero::<T>().plus_spec(x) == x
    &&& x.plus_spec(zero::<T>()) == x
    &&& one::<T>().times_spec(x) == x
    &&& x.times_spec(one::<T>()) == x
    &&& zero::<T>().times_spec(x) == zero::<T>()
    &&& x.times_spec(zero::<T>()) == zero::<T>()
}

/// `x` is finite: it is numerically equal to itself, and a zero times it is
/// a zero, on whichever side the zero stands. A scalar with infinities or
/// with values that are no numbers does not grant this of those.
pub open spec fn finite<T: Scalar>(x: T) -> bool {
    &&& x.equals_spec(x)
    &&& forall|z: T|
        z.equals_spec(zero::<T>()) ==> (#[trigger] z.times_spec(x)).equals_spec(zero::<T>())
    &&& forall|z: T|
        z.equals_spec(zero::<T>()) ==> (#[trigger] x.times_spec(z)).equals_spec(zero::<T>())
}

/// Zeros and ones are neutral, numerically: zero and one equal themselves;
/// adding a scalar that equals zero to a scalar that equals `x`, or taking it
/// from one, gives a scalar that equals `x`; and so does multiplying a scalar
/// that equals `x` by one that equals one. Nothing is asked of scalars that
/// do not equal themselves, nor of how zero multiplies.
#[verifier::opaque]
pub open spec fn neutral_units<T: Scalar>() -> bool {
    &&& zero::<T>().equals_spec(zero::<T>())
    &&& one::<T>().equals_spec(one::<T>())
    &&& forall|w: T, z: T, x: T|
        w.equals_spec(x) && z.equals_spec(zero::<T>()) ==> #[trigger] w.plus_spec(z).equals_spec(x)
    &&& forall|w: T, z: T, x: T|
        w.equals_spec(x) && z.equals_spec(zero::<T>()) ==> #[trigger] z.plus_spec(w).equals_spec(x)
    &&& forall|w: T, z: T, x: T|
        w.equals_spec(x) && z.equals_spec(zero::<T>()) ==> #[trigger] w.minus_spec(z).equals_spec(
            x,
        )
    &&& forall|u: T, w: T, x: T|
        u.equals_spec(one::<T>()) && w.equals_spec(x) ==> #[trigger] u.times_spec(w).equals_spec(x)
    &&& forall|u: T, w: T, x: T|
        u.equals_spec(one::<T>()) && w.equals_spec(x) ==> #[trigger] w.times_spec(u).equals_spec(x)
}

/// With neutral zeros and ones, zero equals zero and one equals one.
pub proof fn lemma_zero_and_one<T: Scalar>()
    requires
        neutral_units::<T>(),
    ensures
        zero::<T>().equals_spec(zero::<T>()),
        one::<T>().equals_spec(one::<T>()),
{
    reveal(neutral_units);
}

/// With neutral zeros and ones, a scalar that equals `x` still equals `x`
/// with a zero added on either side, or taken from it.
pub proof fn lemma_zero_is_neutral<T: Scalar>(w: T, z: T, x: T)
    requires
        neutral_units::<T>(),
        w.equals_spec(x),
        z.equals_spec(zero::<T>()),
    ensures
        w.plus_spec(z).equals_spec(x),
        z.plus_spec(w).equals_spec(x),
        w.minus_spec(z).equals_spec(x),
{
    reveal(neutral_units);
}

/// With neutral zeros and ones, a scalar that equals `x` still equals `x`
/// when multiplied by a one on either side.
pub proof fn lemma_one_is_neutral<T: Scalar>(u: T, w: T, x: T)
    requires
        neutral_units::<T>(),
        u.equals_spec(one::<T>()),
        w.equals_spec(x),
    ensures
        u.times_spec(w).equals_spec(x),
        w.times_spec(u).equals_spec(x),
{
    reveal(neutral_units);
}

/// In the field of two elements zeros and ones are neutral and every scalar
/// is finite.
pub proof fn lemma_two_elements_neutral()
    ensures
        neutral_units::<bool>(),
        forall|x: bool| #[trigger] finite(x),
{
    reveal(neutral_units);
}

/// The scalar computes exactly, as a field does: zero and one are neutral,
/// addition and multiplication are associative and commutative,
/// multiplication spreads over a sum, subtraction undoes addition, and
/// division by a scalar that is not zero undoes multiplication by it and is
/// undone by it. A scalar that rounds does not grant this.
#[verifier::opaque]
pub open spec fn exact_arithmetic<T: Scalar>() -> bool {
    &&& forall|x: T| #[trigger] unit_laws(x)
    &&& forall|x: T, y: T, z: T| #[trigger]
        x.plus_spec(y).plus_spec(z) == x.plus_spec(y.plus_spec(z))
    &&& forall|x: T, y: T| #[trigger] x.plus_spec(y) == y.plus_spec(x)
    &&& forall|x: T, y: T, z: T| #[trigger]
        x.times_spec(y).times_spec(z) == x.times_spec(y.times_spec(z))
    &&& forall|x: T, y: T| #[trigger] x.times_spec(y) == y.times_spec(x)
    &&& forall|x: T, y: T, z: T| #[trigger]
        x.plus_spec(y).times_spec(z) == x.times_spec(z).plus_spec(y.times_spec(z))
    &&& forall|x: T, y: T| #[trigger] x.minus_spec(y).plus_spec(y) == x
    &&& forall|x: T| #[trigger] x.minus_spec(x) == zero::<T>()
    &&& forall|x: T, d: T|
        !d.equals_spec(zero::<T>()) ==> #[trigger] x.over_spec(d).times_spec(d) == x
    &&& forall|x: T, d: T|
        !d.equals_spec(zero::<T>()) ==> #[trigger] x.times_spec(d).over_spec(d) == x
}

/// With exact arithmetic, zero and one behave towards every scalar as they
/// do in a ring.
pub proof fn lemma_units<T: Scalar>(x: T)
    requires
        exact_arithmetic::<T>(),
    ensures
        unit_laws(x),
{
    reveal(exact_arithmetic);
}

/// With exact arithmetic, adding back what was subtracted gives the scalar
/// back.
pub proof fn lemma_minus_then_plus<T: Scalar>(x: T, y: T)
    requires
        exact_arithmetic::<T>(),
    ensures
        x.minus_spec(y).plus_spec(y) == x,
{
    reveal(exact_arithmetic);
}

/// With exact arithmetic, a scalar less itself is zero, and a scalar less
/// zero is itself.
pub proof fn lemma_minus_self_and_zero<T: Scalar>(x: T)
    requires
        exact_arithmetic::<T>(),
    ensures
        x.minus_spec(x) == zero::<T>(),
        x.minus_spec(zero::<T>()) == x,
{
    reveal(exact_arithmetic);
    assert(unit_laws(x.minus_spec(zero::<T>())));
    assert(x.minus_spec(zero::<T>()).plus_spec(zero::<T>()) == x);
}

/// With exact arithmetic, a quotient times its divisor is the dividend, a
/// scalar divided by itself is one, and zero divided is zero, as long as the
/// divisor is not zero.
pub proof fn lemma_division<T: Scalar>(x: T, d: T)
    requires
        exact_arithmetic::<T>(),
        !d.equals_spec(zero::<T>()),
    ensures
        x.over_spec(d).times_spec(d) == x,
        d.over_spec(d) == one::<T>(),
        zero::<T>().over_spec(d) == zero::<T>(),
{
    reveal(exact_arithmetic);
    assert(unit_laws(d));
    assert(one::<T>().times_spec(d).over_spec(d) == one::<T>());
    assert(zero::<T>().times_spec(d).over_spec(d) == zero::<T>());
}

/// With exact arithmetic, a sum times a scalar is the sum of the products,
/// whichever side the scalar stands on.
pub proof fn lemma_spread<T: Scalar>(x: T, y: T, f: T)
    requires
        exact_arithmetic::<T>(),
    ensures
        x.plus_spec(y).times_spec(f) == x.times_spec(f).plus_spec(y.times_spec(f)),
        f.times_spec(x.plus_spec(y)) == f.times_spec(x).plus_spec(f.times_spec(y)),
{
    reveal(exact_arithmetic);
    assert(f.times_spec(x.plus_spec(y)) == x.plus_spec(y).times_spec(f));
    assert(x.times_spec(f) == f.times_spec(x));
    assert(y.times_spec(f) == f.times_spec(y));
}

/// The field of two elements computes exactly.
pub proof fn lemma_two_elements_exact()
    ensures
        exact_arithmetic::<bool>(),
{
    reveal(exact_arithmetic);
}

/// The field of two elements: `false` is zero and `true` is one. Sum and
/// difference are exclusive or, the product is conjunction, and every
/// operation is exact. Dividing by zero gives zero.
impl Scalar for bool {
    open spec fn from_int_spec(n: i32) -> bool {
        n % 2 != 0
    }

    open spec fn plus_spec(self, rhs: bool) -> bool {
        self != rhs
    }

    open spec fn minus_spec(self, rhs: bool) -> bool {
        self != rhs
    }

    open spec fn times_spec(self, rhs: bool) -> bool {
        self && rhs
    }

    open spec fn over_spec(self, rhs: bool) -> bool {
        self && rhs
    }

    open spec fn powf_spec(self, exponent: bool) -> bool {
        !exponent || self
    }

    open spec fn sqrt_spec(self) -> bool {
        self
    }

    open spec fn abs_spec(self) -> bool {
        self
    }

    open spec fn round_spec(self) -> bool {
        self
    }

    open spec fn equals_spec(self, rhs: bool) -> bool {
        self == rhs
    }

    open spec fn less_spec(self, rhs: bool) -> bool {
        !self && rhs
    }

    fn from_int(n: i32) -> (r: bool) {
        n % 2 != 0
    }

    fn plus(self, rhs: bool) -> (r: bool) {
        self != rhs
    }

    fn minus(self, rhs: bool) -> (r: bool) {
        self != rhs
    }

    fn times(self, rhs: bool) -> (r: bool) {
        self && rhs
    }

    fn over(self, rhs: bool) -> (r: bool) {
        self && rhs
    }

    fn powf(self, exponent: bool) -> (r: bool) {
        !exponent || self
    }

    fn sqrt(self) -> (r: bool) {
        self
    }

    fn abs(self) -> (r: bool) {
        self
    }

    fn round(self) -> (r: bool) {
        self
    }

    fn equals(self, rhs: bool) -> (r: bool) {
        self == rhs
    }

    fn less(self, rhs: bool) -> (r: bool) {
        !self && rhs
    }
}

} // verus!
