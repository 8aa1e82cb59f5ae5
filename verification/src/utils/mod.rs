pub mod error;
pub mod grid;
pub mod text;
