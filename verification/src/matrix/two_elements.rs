use vstd::prelude::*;
use crate::dense::matrix::MatrixView;
use crate::dense::ops::{
    add_spec,
    lemma_mul_identity_left_exact,
    lemma_mul_identity_right_exact,
    lemma_sub_undoes_add,
    mul_spec,
    same_shape,
    sub_spec,
};
use crate::matrix::decompositions::lu_steps;
use crate::matrix::inverse_product::{
    lemma_inverse_multiplies_to_identity,
    reduced_after,
    right_half,
};
use crate::matrix::lu_product::{lemma_lu_multiplies_back, lower_after, upper_after};
use crate::matrix::ops::{augmented, determinant_spec, gauss_jordan, lemma_determinant_identity};
use crate::scalar::{finite, lemma_two_elements_exact, lemma_two_elements_neutral};

verus! {

/// Over the field of two elements, subtracting what was added gives the
/// matrix back.
pub proof fn lemma_sub_undoes_add_two_elements(a: MatrixView<bool>, b: MatrixView<bool>)
    requires
        a.wf(),
        same_shape(a, b),
    ensures
        sub_spec(add_spec(a, b), b) == a,
{
    lemma_sub_undoes_add(a, b);
}

/// Over the field of two elements, the identity on either side of a product
/// leaves the matrix as it is.
pub proof fn lemma_mul_identity_two_elements(a: MatrixView<bool>)
    requires
        a.wf(),
    ensures
        mul_spec(MatrixView::<bool>::identity(a.rows), a) == a,
        mul_spec(a, MatrixView::<bool>::identity(a.cols)) == a,
{
    lemma_mul_identity_left_exact(a);
    lemma_mul_identity_right_exact(a);
}

/// Over the field of two elements, the determinant of an identity with at
/// least one row is one.
pub proof fn lemma_determinant_identity_two_elements(n: nat)
    requires
        n >= 1,
    ensures
        determinant_spec(MatrixView::<bool>::identity(n)) == true,
{
    lemma_two_elements_neutral();
    assert(finite(true));
    assert(finite(false));
    lemma_determinant_identity::<bool>(n);
}

/// Over the field of two elements, the factors of a square matrix that
/// elimination without exchange of rows can factor multiply back to it.
pub proof fn lemma_lu_two_elements(a: MatrixView<bool>)
    requires
        a.wf(),
        a.rows == a.cols,
        lu_steps(a, a.rows) is Some,
    ensures
        mul_spec(lower_after(a, a.rows), upper_after(a, a.rows)) == a,
{
    lemma_two_elements_exact();
    lemma_lu_multiplies_back(a);
}

/// Over the field of two elements, a square matrix on which elimination with
/// exchange of rows meets no zero pivot, times the right half of its reduced
/// augmented matrix, is the identity.
pub proof fn lemma_inverse_two_elements(a: MatrixView<bool>)
    requires
        a.wf(),
        a.rows == a.cols,
        gauss_jordan(augmented(a), a.rows) is Some,
    ensures
        mul_spec(a, right_half(reduced_after(a, a.rows))) == MatrixView::<bool>::identity(a.rows),
{
    lemma_two_elements_exact();
    lemma_inverse_multiplies_to_identity(a);
}

} // verus!
