//! Lenstra–Lenstra–Lovász lattice basis reduction: the exact, verified parts.
//!
//! Rows of a basis are sequences of numbers. This crate holds the dot product
//! on integer rows, the integer row operations that reduction is built from
//! together with the proof that they keep the lattice, and the index logic of
//! the reduction passes: the order in which coefficient pairs are visited, the
//! layout of a coefficient row, the choice of the row pair to swap, the
//! adjacent swap itself, and the driver that decides when reduction stops.

pub mod dot;
pub mod driver;
pub mod lattice;
pub mod passes;
pub mod rows;

pub use dot::DotProduct;
