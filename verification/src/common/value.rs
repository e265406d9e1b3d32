//! Permissible values for characteristics.

pub mod kind;

pub use kind::Kind;
