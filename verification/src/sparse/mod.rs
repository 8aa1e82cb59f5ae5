pub mod agreement;
pub mod matrix;
pub mod ops;
