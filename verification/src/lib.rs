//! A linear-algebra kernel: dense and sparse matrices and vectors over any
//! scalar, with their arithmetic, transposition and decompositions.
//!
//! The kernel never computes with a number itself. Every operation on a cell
//! goes through the `Scalar` trait, and every contract is stated over that
//! trait's model functions, so what is proved holds for any scalar that
//! honours the trait: the shape of each result, which cells are combined, and
//! in which order.

pub mod dense;
pub mod matrix;
pub mod matrix_testing;
pub mod scalar;
pub mod sparse;
pub mod utils;
pub mod vector;
