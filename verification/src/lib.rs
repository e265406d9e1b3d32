//! The Encyclopedia of Composable Characteristics and its ontologies.
//!
//! The ontology is a taxonomy of named nodes. Names are checked word by word
//! against the rules of casing ([`node::name`]), the nodes are built into a
//! tree ([`graph`]), and every node of the tree is given the path of its
//! file ([`directory`]). What holds of these whatever the input is proved in
//! [`laws`].
//!
//! A characteristic ([`characteristic`]) has an identifier
//! ([`identifier`]), a link to its request for comments ([`rfc`]) and a
//! description in sentences ([`sentence`]).

pub mod characteristic;
pub mod common;
pub mod directory;
pub mod field;
pub mod graph;
pub mod identifier;
pub mod laws;
pub mod node;
pub mod rfc;
pub mod sentence;
pub mod text;

pub use characteristic::Characteristic;
pub use directory::Directory;
pub use graph::Taxonomy;
pub use identifier::Identifier;
pub use node::Node;
pub use rfc::Link;
