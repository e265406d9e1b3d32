//! Composable characteristics and the states they pass through.

use crate::common::reference_items;
use crate::common::reference_list;
use crate::common::value::Kind;
use crate::common::Common;
use crate::common::OptionalCommon;
use crate::common::Reference;
use crate::identifier::Identifier;
use crate::rfc::Link;
use vstd::prelude::*;

verus! {

/// A moment in time: the seconds since the first of January 1970, 0:00
/// UTC, and the nanoseconds since the last full second.
#[derive(Clone, Copy, Debug, PartialEq, Eq, Structural)]
pub struct Timestamp {
    /// The seconds since the first of January 1970, 0:00 UTC.
    pub seconds: i64,
    /// The nanoseconds since the last full second.
    pub nanoseconds: u32,
}

/// A composable characteristic.
#[derive(Clone, Debug, PartialEq)]
pub enum Characteristic {
    /// A characteristic that is currently being drafted.
    Draft {
        /// The common set of elements for any characteristic.
        ///
        /// In this case, the set of features is captured by an
        /// [`OptionalCommon`], indicating that fields may or may not be present
        /// in draft phase.
        common: OptionalCommon,
    },
    /// A characteristic that is currently being proposed to be adopted.
    Proposed {
        /// The common set of elements for any characteristic.
        common: Common,
    },
    /// An characteristics that has been accepted in principle and has entered
    /// the settling phase of adoption.
    Provisional {
        /// The common set of elements for any characteristic.
        common: Common,
    },
    /// A characteristic that has been adopted.
    Adopted {
        /// The common set of elements for any characteristic.
        common: Common,
        /// The date that the characteristic was adopted.
        adoption_date: Timestamp,
    },
}

impl Characteristic {
    /// The common elements, each where it is present.
    pub open spec fn common(self) -> OptionalCommon {
        match self {
            Characteristic::Draft { common } => common,
            Characteristic::Proposed { common }
            | Characteristic::Provisional { common }
            | Characteristic::Adopted { common, .. } => OptionalCommon {
                name: Some(common.name),
                identifier: Some(common.identifier),
                rfc: Some(common.rfc),
                description: Some(common.description),
                values: Some(common.values),
                references: common.references,
            },
        }
    }

    /// Gets the characteristic's identifier (if one has been assigned).
    pub fn identifier(&self) -> (r: Option<&Identifier>)
        ensures
            match r {
                Some(identifier) => self.common().identifier == Some(*identifier),
                None => self.common().identifier is None,
            },
    {
        match self {
            Characteristic::Draft { common } => match &common.identifier {
                Some(identifier) => Some(identifier),
                None => None,
            },
            Characteristic::Proposed { common }
            | Characteristic::Provisional { common }
            | Characteristic::Adopted { common, .. } => Some(&common.identifier),
        }
    }

    /// Gets the name.
    pub fn name(&self) -> (r: Option<&str>)
        ensures
            match r {
                Some(name) => self.common().name is Some && self.common().name->0@ == name@,
                None => self.common().name is None,
            },
    {
        match self {
            Characteristic::Draft { common } => match &common.name {
                Some(name) => Some(name.as_str()),
                None => None,
            },
            Characteristic::Proposed { common }
            | Characteristic::Provisional { common }
            | Characteristic::Adopted { common, .. } => Some(common.name.as_str()),
        }
    }

    /// Gets the link to the associated RFC.
    pub fn rfc(&self) -> (r: Option<&Link>)
        ensures
            match r {
                Some(link) => self.common().rfc == Some(*link),
                None => self.common().rfc is None,
            },
    {
        match self {
            Characteristic::Draft { common } => match &common.rfc {
                Some(link) => Some(link),
                None => None,
            },
            Characteristic::Proposed { common }
            | Characteristic::Provisional { common }
            | Characteristic::Adopted { common, .. } => Some(&common.rfc),
        }
    }

    /// Gets the permissible values.
    pub fn values(&self) -> (r: Option<&Kind>)
        ensures
            match r {
                Some(kind) => self.common().values == Some(*kind),
                None => self.common().values is None,
            },
    {
        match self {
            Characteristic::Draft { common } => match &common.values {
                Some(kind) => Some(kind),
                None => None,
            },
            Characteristic::Proposed { common }
            | Characteristic::Provisional { common }
            | Characteristic::Adopted { common, .. } => Some(&common.values),
        }
    }

    /// Gets the description.
    pub fn description(&self) -> (r: Option<&str>)
        ensures
            match r {
                Some(description) => self.common().description is Some
                    && self.common().description->0@ == description@,
                None => self.common().description is None,
            },
    {
        match self {
            Characteristic::Draft { common } => match &common.description {
                Some(description) => Some(description.as_str()),
                None => None,
            },
            Characteristic::Proposed { common }
            | Characteristic::Provisional { common }
            | Characteristic::Adopted { common, .. } => Some(common.description.as_str()),
        }
    }

    /// Gets the references, in order.
    pub fn references(&self) -> (r: Option<Vec<&Reference>>)
        ensures
            match r {
                Some(references) => {
                    &&& self.common().references is Some
                    &&& references@.len() == reference_items(self.common().references->0).len()
                    &&& references@.len() > 0
                    &&& forall|i: int|
                        0 <= i < references@.len() ==> *references@[i] == reference_items(
                            self.common().references->0,
                        )[i]
                },
                None => self.common().references is None,
            },
    {
        let list = match self {
            Characteristic::Draft { common } => &common.references,
            Characteristic::Proposed { common }
            | Characteristic::Provisional { common }
            | Characteristic::Adopted { common, .. } => &common.references,
        };
        match list {
            Some(list) => Some(reference_list(list)),
            None => None,
        }
    }

    /// Gets the adoption date (if it the charactertistic has been adopted).
    pub fn adoption_date(&self) -> (r: Option<&Timestamp>)
        ensures
            match *self {
                Characteristic::Adopted { adoption_date, .. } => r == Some(&adoption_date),
                _ => r is None,
            },
    {
        match self {
            Characteristic::Draft { .. }
            | Characteristic::Proposed { .. }
            | Characteristic::Provisional { .. } => None,
            Characteristic::Adopted { adoption_date, .. } => Some(adoption_date),
        }
    }
}

/// The status of a characteristic.
#[derive(Clone, Debug, PartialEq, Eq)]
pub enum Status {
    /// An RFC that is currently being proposed.
    Proposed {
        /// The text of a link to the RFC within which the characteristic
        /// is being discussed.
        rfc: String,
    },
    /// An RFC that has been provisionally accepted and has entered the settling
    /// phase of adoption.
    Provisional {
        /// The text of a link to the RFC within which the characteristic
        /// is being discussed.
        rfc: String,
    },
    /// A characteristic that has been adopted.
    Adopted {
        /// The identifier.
        identifier: Identifier,
        /// The text of a link to the RFC within which the characteristic
        /// was adopted.
        rfc: String,
        /// The date that the characteristic was adopted.
        date: Timestamp,
    },
}

impl Status {
    /// Gets the characteristic's identifier, if one has been assigned.
    pub fn identifier(&self) -> (r: Option<&Identifier>)
        ensures
            match *self {
                Status::Adopted { identifier, .. } => r == Some(&identifier),
                _ => r is None,
            },
    {
        match self {
            Status::Proposed { .. } | Status::Provisional { .. } => None,
            Status::Adopted { identifier, .. } => Some(identifier),
        }
    }
}

} // verus!
