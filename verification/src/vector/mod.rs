pub mod ops;
pub mod vector;
