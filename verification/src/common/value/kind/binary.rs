//! Binary features.

use crate::field;
use vstd::prelude::*;

verus! {

/// The description of a binary feature kind.
#[derive(Clone, Debug, PartialEq, Eq)]
pub struct Description {
    /// A description of the `true` field value.
    pub when_true: field::Description,
    /// A description of the `false` field value.
    pub when_false: field::Description,
}

} // verus!
