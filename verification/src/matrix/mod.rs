pub mod decompositions;
pub mod inverse_product;
pub mod lu_product;
pub mod matrix;
pub mod ops;
pub mod two_elements;
