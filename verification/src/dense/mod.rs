pub mod matrix;
pub mod ops;
