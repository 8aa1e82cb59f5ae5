pub use crate::dense::matrix::{Matrix, MatrixView};
