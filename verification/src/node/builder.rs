//! Node builders.

use super::Name;
use super::Node;
use super::NodeView;
use vstd::prelude::*;

verus! {

/// An error when using a node builder.
#[derive(Debug)]
pub enum Error {
    /// A required field was missing.
    MissingField(&'static str),
}

impl Error {
    /// The text that reports this error.
    pub fn to_string(&self) -> (s: String)
        ensures
            match self {
                Error::MissingField(field) => s@ == "missing required field: "@ + field@,
            },
    {
        match self {
            Error::MissingField(field) => {
                let mut s = String::from_str("missing required field: ");
                s.append(field);
                s
            },
        }
    }
}

/// What a builder holds: the fields that were set.
pub struct BuilderView {
    pub name: Option<Seq<char>>,
    pub parent: Option<Seq<char>>,
    pub code: Option<Seq<char>>,
}

/// A builder for a node.
pub struct Builder {
    /// The node.
    name: Option<Name>,
    /// The parent node.
    parent: Option<Name>,
    /// The short code.
    code: Option<String>,
}

impl View for Builder {
    type V = BuilderView;

    closed spec fn view(&self) -> BuilderView {
        BuilderView {
            name: match self.name {
                Some(name) => Some(name@),
                None => None,
            },
            parent: match self.parent {
                Some(parent) => Some(parent@),
                None => None,
            },
            code: match self.code {
                Some(code) => Some(code@),
                None => None,
            },
        }
    }
}

impl Default for Builder {
    fn default() -> (builder: Self)
        ensures
            builder@ == (BuilderView { name: None, parent: None, code: None }),
    {
        Builder { name: None, parent: None, code: None }
    }
}

/// The node that a builder with these fields gives, or the first required
/// field that it lacks.
pub open spec fn built(b: BuilderView) -> Result<NodeView, Seq<char>> {
    if b.name is None {
        Err("name"@)
    } else if b.parent is None {
        Err("parent"@)
    } else {
        Ok(NodeView { name: b.name->0, parent: b.parent->0, code: b.code })
    }
}

impl Builder {
    /// Sets the name for the node.
    pub fn name(self, value: Name) -> (builder: Self)
        ensures
            builder@ == (BuilderView { name: Some(value@), ..self@ }),
    {
        let mut builder = self;
        builder.name = Some(value);
        builder
    }

    /// Sets the parent for the node.
    pub fn parent(self, value: Name) -> (builder: Self)
        ensures
            builder@ == (BuilderView { parent: Some(value@), ..self@ }),
    {
        let mut builder = self;
        builder.parent = Some(value);
        builder
    }

    /// Sets the short code for the node.
    pub fn code(self, value: String) -> (builder: Self)
        ensures
            builder@ == (BuilderView { code: Some(value@), ..self@ }),
    {
        let mut builder = self;
        builder.code = Some(value);
        builder
    }

    /// Consumes self and tries to return a built node.
    pub fn try_build(self) -> (r: Result<Node, Error>)
        ensures
            match r {
                Ok(node) => built(self@) == Ok::<NodeView, Seq<char>>(node@),
                Err(Error::MissingField(field)) => built(self@) == Err::<NodeView, Seq<char>>(
                    field@,
                ),
            },
    {
        let name = match self.name {
            Some(name) => name,
            None => {
                return Err(Error::MissingField("name"));
            },
        };
        let parent = match self.parent {
            Some(parent) => parent,
            None => {
                return Err(Error::MissingField("parent"));
            },
        };
        match self.code {
            Some(code) => Ok(Node::with_code(name, parent, code)),
            None => Ok(Node::new(name, parent)),
        }
    }
}

} // verus!
