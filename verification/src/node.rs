//! Nodes of the taxonomy.

use vstd::prelude::*;

pub mod builder;
pub mod name;

pub use builder::Builder;
pub use name::Name;

verus! {

/// What a node holds: its name, the name of its parent, and its short code.
pub struct NodeView {
    pub name: Seq<char>,
    pub parent: Seq<char>,
    pub code: Option<Seq<char>>,
}

/// A node in the taxonomy. A node whose parent is the empty name is a root.
#[derive(Debug)]
pub struct Node {
    /// The name of the node.
    name: Name,
    /// The name of the parent node.
    parent: Name,
    /// The short code for the node.
    code: Option<String>,
}

impl View for Node {
    type V = NodeView;

    closed spec fn view(&self) -> NodeView {
        NodeView {
            name: self.name@,
            parent: self.parent@,
            code: match self.code {
                Some(code) => Some(code@),
                None => None,
            },
        }
    }
}

impl Clone for Node {
    fn clone(&self) -> (r: Self)
        ensures
            r@ == self@,
    {
        let code = match &self.code {
            Some(code) => Some(code.clone()),
            None => None,
        };
        Node { name: self.name.clone(), parent: self.parent.clone(), code }
    }
}

impl PartialEq for Node {
    fn eq(&self, other: &Self) -> (r: bool) {
        let same_code = match (&self.code, &other.code) {
            (Some(a), Some(b)) => *a == *b,
            (None, None) => true,
            _ => false,
        };
        self.name == other.name && self.parent == other.parent && same_code
    }
}

impl Eq for Node {}

impl vstd::std_specs::cmp::PartialEqSpecImpl for Node {
    open spec fn obeys_eq_spec() -> bool {
        true
    }

    open spec fn eq_spec(&self, other: &Self) -> bool {
        self@ == other@
    }
}

impl Node {
    /// Creates a node without a short code.
    pub fn new(name: Name, parent: Name) -> (node: Self)
        ensures
            node@ == (NodeView { name: name@, parent: parent@, code: None }),
    {
        Self { name, parent, code: None }
    }

    /// Creates a node with a short code.
    pub fn with_code(name: Name, parent: Name, code: String) -> (node: Self)
        ensures
            node@ == (NodeView { name: name@, parent: parent@, code: Some(code@) }),
    {
        Self { name, parent, code: Some(code) }
    }

    /// Gets the node name.
    pub fn name(&self) -> (name: &Name)
        ensures
            name@ == self@.name,
    {
        &self.name
    }

    /// Consumes `self` and returns the node name.
    pub fn into_name(self) -> (name: Name)
        ensures
            name@ == self@.name,
    {
        self.name
    }

    /// Gets the node's parent.
    pub fn parent(&self) -> (parent: &Name)
        ensures
            parent@ == self@.parent,
    {
        &self.parent
    }

    /// Consumes `self` and returns the node's parent.
    pub fn into_parent(self) -> (parent: Name)
        ensures
            parent@ == self@.parent,
    {
        self.parent
    }

    /// Gets the short code of the node.
    pub fn code(&self) -> (code: Option<&str>)
        ensures
            match code {
                Some(c) => self@.code == Some(c@),
                None => self@.code is None,
            },
    {
        match &self.code {
            Some(code) => Some(code.as_str()),
            None => None,
        }
    }

    /// Consumes `self` and returns the node's short code.
    pub fn into_code(self) -> (code: Option<String>)
        ensures
            match code {
                Some(c) => self@.code == Some(c@),
                None => self@.code is None,
            },
    {
        self.code
    }

    /// Whether the node is a root: whether its parent is the empty name.
    pub fn is_root(&self) -> (r: bool)
        ensures
            r == (self@.parent.len() == 0),
    {
        self.parent.inner().is_empty()
    }
}

} // verus!
