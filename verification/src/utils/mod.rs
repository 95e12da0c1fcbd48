//! Utilities: decimal text of numbers, sorting small index lists, spatial queries.
pub mod text;
pub mod sort;
pub mod spatial;
