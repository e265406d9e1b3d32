//! Numerical features.

use vstd::prelude::*;

verus! {

/// A numerical feature type.
#[derive(Clone, Debug, PartialEq, Eq, Structural)]
pub enum Type {
    /// An signed integer.
    Signed,
    /// An unsigned integer.
    Unsigned,
    /// A float.
    Float,
}

} // verus!
