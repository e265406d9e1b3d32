//! Common features for a composable characteristics.

use crate::identifier::Identifier;
use crate::rfc;
use crate::sentence::Sentence;
use vstd::prelude::*;

pub mod value;

verus! {

/// `nonempty::NonEmpty`: a list of at least one item. Nothing inside it is
/// seen; what a list of references holds is said by `reference_items`.
#[verifier::external_type_specification]
#[verifier::external_body]
#[verifier::reject_recursive_types(T)]
pub struct ExNonEmpty<T>(nonempty::NonEmpty<T>);

/// What a list of references holds, in order: at least one reference.
pub uninterp spec fn reference_items(list: nonempty::NonEmpty<Reference>) -> Seq<Reference>;

/// `NonEmpty::iter`: the items of the list by reference, in order.
#[verifier::external_body]
pub(crate) fn reference_list(list: &nonempty::NonEmpty<Reference>) -> (items: Vec<&Reference>)
    ensures
        items@.len() == reference_items(*list).len(),
        items@.len() > 0,
        forall|i: int| 0 <= i < items@.len() ==> *items@[i] == reference_items(*list)[i],
{
    list.iter().collect()
}

/// A reference.
#[derive(Clone, Debug, PartialEq, Eq)]
pub enum Reference {
    /// A peer-reviewed published manuscript.
    Manuscript {
        /// The title of the publication.
        title: String,
        /// The authors of the manuscript.
        authors: String,
        /// Discusses the contextual relevance of this manuscript for this ECC.
        context: Sentence,
        /// The text of a URL where the publication can be accessed.
        url: String,
        /// Whether or not the manuscript should be highlighted or not.
        highlighted: bool,
    },
    /// A non-peer reviewed preprint.
    Preprint {
        /// The title of the preprint.
        title: String,
        /// The authors of the manuscript.
        authors: String,
        /// Discusses the contextual relevance of this preprint for this ECC.
        context: Sentence,
        /// The text of a URL where the preprint can be accessed.
        url: String,
        /// Whether or not the preprint should be highlighted or not.
        highlighted: bool,
    },
}

/// Common features for composable characteristics in any stage.
#[derive(Clone, Debug, PartialEq)]
pub struct Common {
    /// The name.
    pub name: String,
    /// The provisional identifier.
    pub identifier: Identifier,
    /// A link to the RFC for the characteristic.
    ///
    /// All discussion of the characteristic, whether in the draft phase or
    /// questions after adoption, should occur within this RFC link.
    pub rfc: rfc::Link,
    /// A description.
    pub description: String,
    /// The permissible values that the characteristic takes.
    pub values: value::Kind,
    /// An optional list of publications.
    pub references: Option<nonempty::NonEmpty<Reference>>,
}

/// An "option common" feature set.
///
/// This represents a [`Common`] where all of the fields are optional. This
/// feature set should only be relevant for characteristics in the `draft` phase
/// where all of the information might not yet be filled in.
#[derive(Clone, Debug, PartialEq)]
pub struct OptionalCommon {
    /// The name of the characteristic.
    pub name: Option<String>,
    /// The provisional identifier.
    pub identifier: Option<Identifier>,
    /// A link to the RFC within which the characteristic has been and is being
    /// discussed.
    ///
    /// Any questions regarding the characteristic after adoption should also be
    /// organized here.
    pub rfc: Option<rfc::Link>,
    /// A description.
    pub description: Option<String>,
    /// The permissible values that the characteristic takes.
    pub values: Option<value::Kind>,
    /// An optional list of publications.
    pub references: Option<nonempty::NonEmpty<Reference>>,
}

impl OptionalCommon {
    /// Whether every field that a [`Common`] needs is present.
    pub open spec fn is_complete(self) -> bool {
        &&& self.name is Some
        &&& self.identifier is Some
        &&& self.rfc is Some
        &&& self.description is Some
        &&& self.values is Some
    }

    /// Consumes `self` and returns a [`Common`].
    pub fn into_common(self) -> (common: Common)
        requires
            self.is_complete(),
        ensures
            common == (Common {
                name: self.name->0,
                identifier: self.identifier->0,
                rfc: self.rfc->0,
                description: self.description->0,
                values: self.values->0,
                references: self.references,
            }),
    {
        Common {
            name: self.name.unwrap(),
            identifier: self.identifier.unwrap(),
            rfc: self.rfc.unwrap(),
            description: self.description.unwrap(),
            values: self.values.unwrap(),
            references: self.references,
        }
    }
}

} // verus!
