use vstd::prelude::*;

verus! {

/// Why an operation refused its input.
#[derive(Debug, Clone, Copy, PartialEq, Eq, Structural)]
pub enum Error {
    /// The shapes of the operands do not fit the operation, or a buffer does
    /// not fit the shape it was given for.
    DimensionMismatch,
    /// A square matrix was needed.
    NotSquare,
    /// Elimination met a pivot that is zero.
    SingularMatrix,
    /// The eigenvalues are not real.
    ComplexEigenvalues,
    /// The operation is not provided for this input.
    Unsupported,
}

impl Error {
    /// The message for this error.
    pub open spec fn message_spec(self) -> Seq<char> {
        match self {
            Error::DimensionMismatch =>
                "Matrix size mismatch: matrices must have the same dimensions"@,
            Error::NotSquare => "Matrix is not square"@,
            Error::SingularMatrix => "Matrix is singular"@,
            Error::ComplexEigenvalues => "Complex eigenvalues not supported"@,
            Error::Unsupported => "Operation is not supported"@,
        }
    }

    /// The message for this error, as it is shown to a reader.
    pub fn message(&self) -> (text: String)
        ensures
            text@ == self.message_spec(),
    {
        match self {
            Error::DimensionMismatch =>
                "Matrix size mismatch: matrices must have the same dimensions".to_owned(),
            Error::NotSquare => "Matrix is not square".to_owned(),
            Error::SingularMatrix => "Matrix is singular".to_owned(),
            Error::ComplexEigenvalues => "Complex eigenvalues not supported".to_owned(),
            Error::Unsupported => "Operation is not supported".to_owned(),
        }
    }
}

} // verus!
