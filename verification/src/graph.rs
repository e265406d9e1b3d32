//! The taxonomy as a directed graph: an arena of nodes addressed by index,
//! with edges from parent to child.
//!
//! The arena is a `petgraph` graph. What it holds is modelled by two
//! sequences: the nodes in index order and the edges in the order in which
//! they were added.

use crate::laws::law_built_tree_is_tree;
use crate::node::Name;
use crate::node::Node;
use crate::node::NodeView;
use vstd::prelude::*;

verus! {

/// `petgraph::graph::Graph`: a graph of nodes and edges addressed by index.
/// Nothing inside it is seen; what it holds is said by `graph_nodes` and
/// `graph_edges`.
#[verifier::external_type_specification]
#[verifier::external_body]
#[verifier::reject_recursive_types(N)]
#[verifier::reject_recursive_types(E)]
#[verifier::reject_recursive_types(Ty)]
#[verifier::reject_recursive_types(Ix)]
pub struct ExGraph<N, E, Ty, Ix>(petgraph::graph::Graph<N, E, Ty, Ix>);

/// `petgraph::Directed`: the mark of a graph whose edges have a direction.
#[verifier::external_type_specification]
#[verifier::external_body]
pub struct ExDirected(petgraph::Directed);

/// The arena that holds the taxonomy.
pub type Arena = petgraph::graph::Graph<Node, (), petgraph::Directed, u32>;

/// The nodes of the arena, in index order.
pub uninterp spec fn graph_nodes(g: Arena) -> Seq<Node>;

/// The edges of the arena as pairs of source and target, in the order in
/// which they were added.
pub uninterp spec fn graph_edges(g: Arena) -> Seq<(int, int)>;

/// The sources of the edges that end in `node`, the most recently added first.
pub open spec fn parents_of(edges: Seq<(int, int)>, node: int) -> Seq<int>
    decreases edges.len(),
{
    if edges.len() == 0 {
        Seq::empty()
    } else if edges.last().1 == node {
        seq![edges.last().0] + parents_of(edges.drop_last(), node)
    } else {
        parents_of(edges.drop_last(), node)
    }
}

/// The targets of the edges that start in `node`, the most recently added first.
pub open spec fn children_of(edges: Seq<(int, int)>, node: int) -> Seq<int>
    decreases edges.len(),
{
    if edges.len() == 0 {
        Seq::empty()
    } else if edges.last().0 == node {
        seq![edges.last().1] + children_of(edges.drop_last(), node)
    } else {
        children_of(edges.drop_last(), node)
    }
}

/// Whether every edge joins two of the first `n` indices.
pub open spec fn edges_in_bounds(edges: Seq<(int, int)>, n: int) -> bool {
    forall|k: int|
        0 <= k < edges.len() ==> 0 <= (#[trigger] edges[k]).0 < n && 0 <= edges[k].1 < n
}

/// What the nodes of `nodes` hold, in order.
pub open spec fn views(nodes: Seq<Node>) -> Seq<NodeView> {
    nodes.map_values(|n: Node| n@)
}

/// The least index below `k` of a node named `name`, if there is one.
pub open spec fn first_named(nodes: Seq<NodeView>, k: int, name: Seq<char>) -> Option<int>
    decreases k,
{
    if k <= 0 {
        None
    } else {
        match first_named(nodes, k - 1, name) {
            Some(i) => Some(i),
            None => if nodes[k - 1].name == name {
                Some(k - 1)
            } else {
                None
            },
        }
    }
}

/// Whether the node at `j` has the name of a node before it.
pub open spec fn is_repeat(nodes: Seq<NodeView>, j: int) -> bool {
    first_named(nodes, j, nodes[j].name) is Some
}

/// The least index below `k` of a node that has the name of a node before
/// it, if there is one.
pub open spec fn first_repeat(nodes: Seq<NodeView>, k: int) -> Option<int>
    decreases k,
{
    if k <= 0 {
        None
    } else {
        match first_repeat(nodes, k - 1) {
            Some(j) => Some(j),
            None => if is_repeat(nodes, k - 1) {
                Some(k - 1)
            } else {
                None
            },
        }
    }
}

/// Whether the node at `i` is a root: whether its parent is the empty name.
pub open spec fn is_root(nodes: Seq<NodeView>, i: int) -> bool {
    nodes[i].parent.len() == 0
}

/// The indices below `k` of the roots, in order.
pub open spec fn roots(nodes: Seq<NodeView>, k: int) -> Seq<int>
    decreases k,
{
    if k <= 0 {
        Seq::empty()
    } else if is_root(nodes, k - 1) {
        roots(nodes, k - 1).push(k - 1)
    } else {
        roots(nodes, k - 1)
    }
}

/// The index of the parent of the node at `i`: the least index of a node
/// that has the name of its parent, if there is one.
pub open spec fn parent_index(nodes: Seq<NodeView>, i: int) -> Option<int> {
    first_named(nodes, nodes.len() as int, nodes[i].parent)
}

/// Whether the node at `i` is no root and no node has the name of its parent.
pub open spec fn is_orphan(nodes: Seq<NodeView>, i: int) -> bool {
    !is_root(nodes, i) && parent_index(nodes, i) is None
}

/// The least index below `k` of an orphan, if there is one.
pub open spec fn first_orphan(nodes: Seq<NodeView>, k: int) -> Option<int>
    decreases k,
{
    if k <= 0 {
        None
    } else {
        match first_orphan(nodes, k - 1) {
            Some(i) => Some(i),
            None => if is_orphan(nodes, k - 1) {
                Some(k - 1)
            } else {
                None
            },
        }
    }
}

/// The edges of the tree over the first `k` nodes: for each node that is
/// no root, in order, the edge from its parent to it.
pub open spec fn tree_edges(nodes: Seq<NodeView>, k: int) -> Seq<(int, int)>
    decreases k,
{
    if k <= 0 {
        Seq::empty()
    } else if is_root(nodes, k - 1) {
        tree_edges(nodes, k - 1)
    } else {
        tree_edges(nodes, k - 1).push((parent_index(nodes, k - 1)->0, k - 1))
    }
}

/// Why a list of nodes is no tree.
pub enum GraphFailure {
    /// A node has the name of a node before it.
    DuplicateNode(Seq<char>),
    /// Two nodes are roots: the names of the first two.
    MultipleRoots(Seq<char>, Seq<char>),
    /// No node is a root.
    NoRootFound,
    /// No node has the name of this parent.
    MissingParent(Seq<char>),
}

/// What a tree holds: the edges and the index of the root.
pub struct TreeShape {
    pub edges: Seq<(int, int)>,
    pub root: int,
}

/// The tree over `nodes`, or the first reason why there is none: a
/// repeated name comes before the number of roots, and that before a
/// missing parent.
pub open spec fn tree_of(nodes: Seq<NodeView>) -> Result<TreeShape, GraphFailure> {
    let n = nodes.len() as int;
    if first_repeat(nodes, n) is Some {
        Err(GraphFailure::DuplicateNode(nodes[first_repeat(nodes, n)->0].name))
    } else if roots(nodes, n).len() >= 2 {
        Err(
            GraphFailure::MultipleRoots(
                nodes[roots(nodes, n)[0]].name,
                nodes[roots(nodes, n)[1]].name,
            ),
        )
    } else if roots(nodes, n).len() == 0 {
        Err(GraphFailure::NoRootFound)
    } else if first_orphan(nodes, n) is Some {
        Err(GraphFailure::MissingParent(nodes[first_orphan(nodes, n)->0].parent))
    } else {
        Ok(TreeShape { edges: tree_edges(nodes, n), root: roots(nodes, n)[0] })
    }
}

/// What holds of a tree: no two nodes have one name; the root is the one
/// node without a parent; every other node names a node as its parent;
/// and into every node but the root goes one edge, from its parent.
pub open spec fn is_tree(nodes: Seq<NodeView>, edges: Seq<(int, int)>, root: int) -> bool {
    &&& 0 <= root < nodes.len()
    &&& forall|i: int, j: int|
        0 <= i < j < nodes.len() ==> (#[trigger] nodes[i]).name != (#[trigger] nodes[j]).name
    &&& forall|i: int| 0 <= i < nodes.len() ==> (#[trigger] is_root(nodes, i) <==> i == root)
    &&& forall|i: int|
        0 <= i < nodes.len() && i != root ==> {
            &&& (#[trigger] parent_index(nodes, i)) is Some
            &&& 0 <= parent_index(nodes, i)->0 < nodes.len()
            &&& nodes[parent_index(nodes, i)->0].name == nodes[i].parent
        }
    &&& edges_in_bounds(edges, nodes.len() as int)
    &&& forall|i: int|
        0 <= i < nodes.len() ==> #[trigger] parents_of(edges, i) == if i == root {
            Seq::<int>::empty()
        } else {
            seq![parent_index(nodes, i)->0]
        }
}

/// An error when building the tree.
#[derive(Debug)]
pub enum GraphError {
    /// A node has the name of a node before it.
    DuplicateNode(String),
    /// Two nodes are roots: the names of the first two.
    MultipleRoots(String, String),
    /// No node is a root.
    NoRootFound,
    /// No node has the name of this parent.
    MissingParent(String),
}

impl View for GraphError {
    type V = GraphFailure;

    open spec fn view(&self) -> GraphFailure {
        match self {
            GraphError::DuplicateNode(name) => GraphFailure::DuplicateNode(name@),
            GraphError::MultipleRoots(first, second) => GraphFailure::MultipleRoots(
                first@,
                second@,
            ),
            GraphError::NoRootFound => GraphFailure::NoRootFound,
            GraphError::MissingParent(parent) => GraphFailure::MissingParent(parent@),
        }
    }
}

/// The text that reports a failure.
pub open spec fn graph_failure_message(f: GraphFailure) -> Seq<char> {
    match f {
        GraphFailure::DuplicateNode(name) => "attempted to insert node twice: "@ + name,
        GraphFailure::MultipleRoots(first, second) => "found multiple roots: "@ + first + " and "@
            + second,
        GraphFailure::NoRootFound => "unable to identify root!"@,
        GraphFailure::MissingParent(parent) => "specified parent node does not exist: "@ + parent,
    }
}

impl GraphError {
    /// The text that reports this error.
    pub fn to_string(&self) -> (s: String)
        ensures
            s@ == graph_failure_message(self@),
    {
        match self {
            GraphError::DuplicateNode(name) => {
                let mut s = String::from_str("attempted to insert node twice: ");
                s.append(name.as_str());
                s
            },
            GraphError::MultipleRoots(first, second) => {
                let mut s = String::from_str("found multiple roots: ");
                s.append(first.as_str());
                s.append(" and ");
                s.append(second.as_str());
                s
            },
            GraphError::NoRootFound => String::from_str("unable to identify root!"),
            GraphError::MissingParent(parent) => {
                let mut s = String::from_str("specified parent node does not exist: ");
                s.append(parent.as_str());
                s
            },
        }
    }
}

/// What `first_named` returns is the least index of a node of that name.
pub proof fn lemma_first_named(nodes: Seq<NodeView>, k: int, name: Seq<char>)
    requires
        k <= nodes.len(),
    ensures
        match first_named(nodes, k, name) {
            Some(i) => 0 <= i < k && nodes[i].name == name && forall|j: int|
                0 <= j < i ==> (#[trigger] nodes[j]).name != name,
            None => forall|j: int| 0 <= j < k ==> (#[trigger] nodes[j]).name != name,
        },
    decreases k,
{
    if k > 0 {
        lemma_first_named(nodes, k - 1, name);
    }
}

/// A node of that name that was found stays the first when more nodes are searched.
pub proof fn lemma_first_named_stable(nodes: Seq<NodeView>, k: int, m: int, name: Seq<char>)
    requires
        k <= m,
        first_named(nodes, k, name) is Some,
    ensures
        first_named(nodes, m, name) == first_named(nodes, k, name),
    decreases m - k,
{
    if k < m {
        lemma_first_named_stable(nodes, k, m - 1, name);
    }
}

/// A repeated name that was found stays the first when more nodes are searched.
pub proof fn lemma_first_repeat_stable(nodes: Seq<NodeView>, k: int, m: int)
    requires
        k <= m,
        first_repeat(nodes, k) is Some,
    ensures
        first_repeat(nodes, m) == first_repeat(nodes, k),
    decreases m - k,
{
    if k < m {
        lemma_first_repeat_stable(nodes, k, m - 1);
    }
}

/// An orphan that was found stays the first when more nodes are searched.
pub proof fn lemma_first_orphan_stable(nodes: Seq<NodeView>, k: int, m: int)
    requires
        k <= m,
        first_orphan(nodes, k) is Some,
    ensures
        first_orphan(nodes, m) == first_orphan(nodes, k),
    decreases m - k,
{
    if k < m {
        lemma_first_orphan_stable(nodes, k, m - 1);
    }
}

/// The roots among fewer nodes come first among the roots of more nodes.
pub proof fn lemma_roots_prefix(nodes: Seq<NodeView>, k: int, m: int)
    requires
        k <= m,
    ensures
        roots(nodes, k).len() <= roots(nodes, m).len(),
        forall|t: int| 0 <= t < roots(nodes, k).len() ==> roots(nodes, m)[t] == roots(nodes, k)[t],
    decreases m - k,
{
    if k < m {
        lemma_roots_prefix(nodes, k, m - 1);
    }
}

/// The least index below `upto` of a node named `name`, if there is one.
fn find_named(nodes: &Vec<Node>, upto: usize, name: &Name) -> (r: Option<usize>)
    requires
        upto <= nodes.len(),
    ensures
        match r {
            Some(i) => first_named(views(nodes@), upto as int, name@) == Some(i as int),
            None => first_named(views(nodes@), upto as int, name@) is None,
        },
{
    let mut k: usize = 0;
    while k < upto
        invariant
            k <= upto <= nodes.len(),
            first_named(views(nodes@), k as int, name@) is None,
        decreases upto - k,
    {
        if *nodes[k].name() == *name {
            proof {
                lemma_first_named_stable(views(nodes@), k + 1, upto as int, name@);
            }
            return Some(k);
        }
        k += 1;
    }
    None
}

/// `petgraph::graph::Graph::new`: a graph without nodes and edges.
#[verifier::external_body]
fn arena_new() -> (g: Arena)
    ensures
        graph_nodes(g) == Seq::<Node>::empty(),
        graph_edges(g) == Seq::<(int, int)>::empty(),
{
    petgraph::graph::Graph::new()
}

/// `Graph::node_count`: the number of nodes.
#[verifier::external_body]
fn arena_node_count(g: &Arena) -> (n: usize)
    ensures
        n == graph_nodes(*g).len(),
{
    g.node_count()
}

/// `Graph::edge_count`: the number of edges.
#[verifier::external_body]
fn arena_edge_count(g: &Arena) -> (n: usize)
    ensures
        n == graph_edges(*g).len(),
{
    g.edge_count()
}

/// `Graph::add_node`: the node is added behind the others and its index is
/// returned; the edges stay. It panics on a graph of `u32::MAX` nodes.
#[verifier::external_body]
fn arena_add_node(g: &mut Arena, node: Node) -> (index: usize)
    requires
        graph_nodes(*old(g)).len() < u32::MAX,
    ensures
        graph_nodes(*final(g)) == graph_nodes(*old(g)).push(node),
        graph_edges(*final(g)) == graph_edges(*old(g)),
        index == graph_nodes(*old(g)).len(),
{
    g.add_node(node).index()
}

/// `Graph::add_edge`: the edge is added behind the others; the nodes stay.
/// It panics where an end is no node, and on a graph of `u32::MAX` edges.
#[verifier::external_body]
fn arena_add_edge(g: &mut Arena, from: usize, to: usize)
    requires
        from < graph_nodes(*old(g)).len(),
        to < graph_nodes(*old(g)).len(),
        graph_nodes(*old(g)).len() <= u32::MAX,
        graph_edges(*old(g)).len() < u32::MAX,
    ensures
        graph_nodes(*final(g)) == graph_nodes(*old(g)),
        graph_edges(*final(g)) == graph_edges(*old(g)).push((from as int, to as int)),
{
    g.add_edge(petgraph::graph::NodeIndex::new(from), petgraph::graph::NodeIndex::new(to), ());
}

/// `Graph::node_weight`: the node at `index`, if there is one.
#[verifier::external_body]
fn arena_node_weight(g: &Arena, index: usize) -> (node: Option<&Node>)
    requires
        index <= u32::MAX,
    ensures
        node == if index < graph_nodes(*g).len() {
            Some(&graph_nodes(*g)[index as int])
        } else {
            None
        },
{
    g.node_weight(petgraph::graph::NodeIndex::new(index))
}

/// `Graph::neighbors_directed` with `Direction::Incoming`: the sources of
/// the edges that end in the node at `index`, the most recently added first.
#[verifier::external_body]
fn arena_incoming(g: &Arena, index: usize) -> (sources: Vec<usize>)
    requires
        index < graph_nodes(*g).len(),
        graph_nodes(*g).len() <= u32::MAX,
    ensures
        indices(sources@) == parents_of(graph_edges(*g), index as int),
{
    g.neighbors_directed(petgraph::graph::NodeIndex::new(index), petgraph::Direction::Incoming)
        .map(|n| n.index())
        .collect()
}

/// A breadth-first traversal in progress: a `petgraph::visit::Bfs` over an
/// arena, with the arena's own map of the nodes that were discovered. The
/// map is of a type that `petgraph` hands out under no name of its own, so
/// the traversal is kept whole; nothing inside it is seen, and what it holds
/// is said by `bfs_queue`, `bfs_discovered` and `bfs_capacity`.
#[verifier::external_body]
pub struct Traversal {
    bfs: petgraph::visit::Bfs<
        petgraph::graph::NodeIndex<u32>,
        <Arena as petgraph::visit::Visitable>::Map,
    >,
}

/// The nodes that the traversal has discovered and not yet returned, the
/// next to be returned first.
pub uninterp spec fn bfs_queue(t: Traversal) -> Seq<int>;

/// The nodes that the traversal has discovered.
pub uninterp spec fn bfs_discovered(t: Traversal) -> Set<int>;

/// The number of nodes that the traversal was made for.
pub uninterp spec fn bfs_capacity(t: Traversal) -> nat;

/// The nodes of `next` that are not in `discovered`, each once, in order.
pub open spec fn undiscovered(next: Seq<int>, discovered: Set<int>) -> Seq<int>
    decreases next.len(),
{
    if next.len() == 0 {
        Seq::empty()
    } else if discovered.contains(next[0]) {
        undiscovered(next.drop_first(), discovered)
    } else {
        seq![next[0]] + undiscovered(next.drop_first(), discovered.insert(next[0]))
    }
}

/// `Bfs::new`: a traversal that has discovered the start and nothing else.
/// It panics where the start is no node.
#[verifier::external_body]
fn bfs_new(g: &Arena, start: usize) -> (t: Traversal)
    requires
        start < graph_nodes(*g).len(),
        graph_nodes(*g).len() <= u32::MAX,
    ensures
        bfs_queue(t) == seq![start as int],
        bfs_discovered(t) == set![start as int],
        bfs_capacity(t) == graph_nodes(*g).len(),
{
    Traversal { bfs: petgraph::visit::Bfs::new(g, petgraph::graph::NodeIndex::new(start)) }
}

/// `Bfs::next`: the first node of the queue leaves it and is returned; its
/// children that were not discovered are discovered and join the queue at
/// the end, the child of the most recently added edge first. On an empty
/// queue nothing changes. It panics where a child is beyond the number of
/// nodes that the traversal was made for.
#[verifier::external_body]
fn bfs_next(t: &mut Traversal, g: &Arena) -> (next: Option<usize>)
    requires
        bfs_capacity(*old(t)) == graph_nodes(*g).len(),
        edges_in_bounds(graph_edges(*g), graph_nodes(*g).len() as int),
    ensures
        bfs_capacity(*final(t)) == bfs_capacity(*old(t)),
        match next {
            Some(node) => {
                &&& bfs_queue(*old(t)).len() > 0
                &&& node == bfs_queue(*old(t))[0]
                &&& bfs_queue(*final(t)) == bfs_queue(*old(t)).drop_first() + undiscovered(
                    children_of(graph_edges(*g), node as int),
                    bfs_discovered(*old(t)),
                )
                &&& bfs_discovered(*final(t)) == bfs_discovered(*old(t)).union(
                    children_of(graph_edges(*g), node as int).to_set(),
                )
            },
            None => {
                &&& bfs_queue(*old(t)).len() == 0
                &&& bfs_queue(*final(t)) == bfs_queue(*old(t))
                &&& bfs_discovered(*final(t)) == bfs_discovered(*old(t))
            },
        },
{
    t.bfs.next(g).map(|n| n.index())
}

/// The indices of `v` as integers.
pub open spec fn indices(v: Seq<usize>) -> Seq<int> {
    v.map_values(|i: usize| i as int)
}

/// The order in which a breadth-first traversal returns the nodes, from a
/// state in which `queue` waits and `discovered` was discovered, in at most
/// `steps` steps.
pub open spec fn bfs_order(
    edges: Seq<(int, int)>,
    queue: Seq<int>,
    discovered: Set<int>,
    steps: nat,
) -> Seq<int>
    decreases steps,
{
    if steps == 0 || queue.len() == 0 {
        Seq::empty()
    } else {
        seq![queue[0]] + bfs_order(
            edges,
            queue.drop_first() + undiscovered(children_of(edges, queue[0]), discovered),
            discovered.union(children_of(edges, queue[0]).to_set()),
            (steps - 1) as nat,
        )
    }
}

/// The order in which a breadth-first traversal from `root` returns the
/// nodes of a graph of `n` nodes.
pub open spec fn breadth_first_order(edges: Seq<(int, int)>, root: int, n: nat) -> Seq<int> {
    bfs_order(edges, seq![root], set![root], n)
}

/// Why the way from a node up to the root cannot be followed.
pub enum ResolveFailure {
    /// The node of this name has more than one parent.
    MultipleParents(Seq<char>),
    /// The node of this name has no parent and not the name of the root.
    DisconnectedRoot(Seq<char>),
    /// The way up is longer than the graph has nodes; it ends at the node of this name.
    CycleDetected(Seq<char>),
}

/// An error when following the way from a node up to the root.
#[derive(Debug)]
pub enum ResolveError {
    /// The node of this name has more than one parent.
    MultipleParents(String),
    /// The node of this name has no parent and not the name of the root.
    DisconnectedRoot(String),
    /// The way up is longer than the graph has nodes; it ends at the node of this name.
    CycleDetected(String),
}

impl View for ResolveError {
    type V = ResolveFailure;

    open spec fn view(&self) -> ResolveFailure {
        match self {
            ResolveError::MultipleParents(name) => ResolveFailure::MultipleParents(name@),
            ResolveError::DisconnectedRoot(name) => ResolveFailure::DisconnectedRoot(name@),
            ResolveError::CycleDetected(name) => ResolveFailure::CycleDetected(name@),
        }
    }
}

/// The text that reports a failure.
pub open spec fn resolve_failure_message(f: ResolveFailure) -> Seq<char> {
    match f {
        ResolveFailure::MultipleParents(name) => "found more than one parent of "@ + name,
        ResolveFailure::DisconnectedRoot(name) => "found a root node named "@ + name,
        ResolveFailure::CycleDetected(name) => "found a cycle above "@ + name,
    }
}

impl ResolveError {
    /// The text that reports this error.
    pub fn to_string(&self) -> (s: String)
        ensures
            s@ == resolve_failure_message(self@),
    {
        match self {
            ResolveError::MultipleParents(name) => {
                let mut s = String::from_str("found more than one parent of ");
                s.append(name.as_str());
                s
            },
            ResolveError::DisconnectedRoot(name) => {
                let mut s = String::from_str("found a root node named ");
                s.append(name.as_str());
                s
            },
            ResolveError::CycleDetected(name) => {
                let mut s = String::from_str("found a cycle above ");
                s.append(name.as_str());
                s
            },
        }
    }
}

/// `chain` with `tail` behind it, where there is a chain.
pub open spec fn followed_by(chain: Result<Seq<int>, ResolveFailure>, tail: Seq<int>) -> Result<
    Seq<int>,
    ResolveFailure,
> {
    match chain {
        Ok(chain) => Ok(chain + tail),
        Err(e) => Err(e),
    }
}

/// The ancestors of `node` from the root down to its parent, found by
/// going up at most `steps` times; or why the way up cannot be followed.
pub open spec fn ancestors(
    nodes: Seq<NodeView>,
    edges: Seq<(int, int)>,
    root: int,
    node: int,
    steps: nat,
) -> Result<Seq<int>, ResolveFailure>
    decreases steps,
{
    let parents = parents_of(edges, node);
    if parents.len() == 0 {
        if nodes[node].name == nodes[root].name {
            Ok(Seq::empty())
        } else {
            Err(ResolveFailure::DisconnectedRoot(nodes[node].name))
        }
    } else if parents.len() > 1 {
        Err(ResolveFailure::MultipleParents(nodes[node].name))
    } else if steps == 0 {
        Err(ResolveFailure::CycleDetected(nodes[node].name))
    } else {
        followed_by(ancestors(nodes, edges, root, parents[0], (steps - 1) as nat), seq![parents[0]])
    }
}

/// The parents of a node are among the nodes.
pub proof fn lemma_parents_in_bounds(edges: Seq<(int, int)>, n: int, node: int)
    requires
        edges_in_bounds(edges, n),
    ensures
        forall|k: int|
            0 <= k < parents_of(edges, node).len() ==> 0 <= #[trigger] parents_of(edges, node)[k]
                < n,
    decreases edges.len(),
{
    if edges.len() > 0 {
        assert(edges_in_bounds(edges.drop_last(), n)) by {
            assert forall|k: int| 0 <= k < edges.drop_last().len() implies 0 <= (
            #[trigger] edges.drop_last()[k]).0 < n && 0 <= edges.drop_last()[k].1 < n by {
                assert(edges.drop_last()[k] == edges[k]);
            }
        }
        lemma_parents_in_bounds(edges.drop_last(), n, node);
        let rest = parents_of(edges.drop_last(), node);
        assert forall|k: int| 0 <= k < parents_of(edges, node).len() implies 0 <= #[trigger] parents_of(
            edges,
            node,
        )[k] < n by {
            if edges.last().1 == node {
                assert(edges[edges.len() - 1] == edges.last());
                if k > 0 {
                    assert(parents_of(edges, node)[k] == rest[k - 1]);
                }
            }
        }
    }
}

/// The children of a node are among the nodes.
pub proof fn lemma_children_in_bounds(edges: Seq<(int, int)>, n: int, node: int)
    requires
        edges_in_bounds(edges, n),
    ensures
        forall|k: int|
            0 <= k < children_of(edges, node).len() ==> 0 <= #[trigger] children_of(edges, node)[k]
                < n,
    decreases edges.len(),
{
    if edges.len() > 0 {
        assert(edges_in_bounds(edges.drop_last(), n)) by {
            assert forall|k: int| 0 <= k < edges.drop_last().len() implies 0 <= (
            #[trigger] edges.drop_last()[k]).0 < n && 0 <= edges.drop_last()[k].1 < n by {
                assert(edges.drop_last()[k] == edges[k]);
            }
        }
        lemma_children_in_bounds(edges.drop_last(), n, node);
        let rest = children_of(edges.drop_last(), node);
        assert forall|k: int| 0 <= k < children_of(edges, node).len() implies 0
            <= #[trigger] children_of(edges, node)[k] < n by {
            if edges.last().0 == node {
                assert(edges[edges.len() - 1] == edges.last());
                if k > 0 {
                    assert(children_of(edges, node)[k] == rest[k - 1]);
                }
            }
        }
    }
}

/// The nodes that are newly discovered are among those that were offered.
pub proof fn lemma_undiscovered_within(next: Seq<int>, discovered: Set<int>)
    ensures
        forall|k: int|
            0 <= k < undiscovered(next, discovered).len() ==> next.contains(
                #[trigger] undiscovered(next, discovered)[k],
            ),
    decreases next.len(),
{
    if next.len() > 0 {
        let rest = next.drop_first();
        if discovered.contains(next[0]) {
            lemma_undiscovered_within(rest, discovered);
            assert forall|k: int| 0 <= k < undiscovered(next, discovered).len() implies next.contains(
                #[trigger] undiscovered(next, discovered)[k],
            ) by {
                let x = undiscovered(rest, discovered)[k];
                assert(rest.contains(x));
                let j = choose|j: int| 0 <= j < rest.len() && rest[j] == x;
                assert(next[j + 1] == x);
            }
        } else {
            lemma_undiscovered_within(rest, discovered.insert(next[0]));
            assert forall|k: int| 0 <= k < undiscovered(next, discovered).len() implies next.contains(
                #[trigger] undiscovered(next, discovered)[k],
            ) by {
                if k == 0 {
                    assert(next[0] == undiscovered(next, discovered)[0]);
                } else {
                    let x = undiscovered(rest, discovered.insert(next[0]))[k - 1];
                    assert(undiscovered(next, discovered)[k] == x);
                    assert(rest.contains(x));
                    let j = choose|j: int| 0 <= j < rest.len() && rest[j] == x;
                    assert(next[j + 1] == x);
                }
            }
        }
    }
}

/// The indices of `v` in reverse order.
fn reversed(v: &Vec<usize>) -> (r: Vec<usize>)
    ensures
        indices(r@) == indices(v@).reverse(),
{
    let mut r: Vec<usize> = Vec::new();
    let mut i: usize = v.len();
    while i > 0
        invariant
            i <= v.len(),
            r@.len() == v.len() - i,
            forall|k: int| 0 <= k < r@.len() ==> r@[k] == v@[v.len() - 1 - k],
        decreases i,
    {
        i -= 1;
        r.push(v[i]);
    }
    assert(indices(r@) =~= indices(v@).reverse());
    r
}

/// A directed graph of taxonomy nodes with one index marked as its root.
#[derive(Debug)]
pub struct Taxonomy {
    arena: Arena,
    root: usize,
}

impl Taxonomy {
    /// The nodes, in index order.
    pub closed spec fn nodes(&self) -> Seq<Node> {
        graph_nodes(self.arena)
    }

    /// The edges as pairs of parent and child, in the order in which they were added.
    pub closed spec fn edges(&self) -> Seq<(int, int)> {
        graph_edges(self.arena)
    }

    /// The index marked as the root.
    pub closed spec fn root_index(&self) -> int {
        self.root as int
    }

    /// What holds of every graph: the arena's limits are kept and every
    /// edge joins two nodes.
    pub open spec fn wf(&self) -> bool {
        &&& self.nodes().len() <= u32::MAX
        &&& self.edges().len() <= u32::MAX
        &&& edges_in_bounds(self.edges(), self.nodes().len() as int)
    }

    /// A graph without nodes and edges; the index 0 is marked as its root.
    pub fn new() -> (g: Self)
        ensures
            g.wf(),
            g.nodes() == Seq::<Node>::empty(),
            g.edges() == Seq::<(int, int)>::empty(),
            g.root_index() == 0,
    {
        Taxonomy { arena: arena_new(), root: 0 }
    }

    /// The number of nodes.
    pub fn node_count(&self) -> (n: usize)
        ensures
            n == self.nodes().len(),
    {
        arena_node_count(&self.arena)
    }

    /// The number of edges.
    pub fn edge_count(&self) -> (n: usize)
        ensures
            n == self.edges().len(),
    {
        arena_edge_count(&self.arena)
    }

    /// The index marked as the root.
    pub fn root(&self) -> (index: usize)
        ensures
            index == self.root_index(),
    {
        self.root
    }

    /// Marks `index` as the root.
    pub fn set_root(&mut self, index: usize)
        ensures
            final(self).root_index() == index,
            final(self).nodes() == old(self).nodes(),
            final(self).edges() == old(self).edges(),
    {
        self.root = index;
    }

    /// Adds a node behind the others and returns its index.
    pub fn add_node(&mut self, node: Node) -> (index: usize)
        requires
            old(self).wf(),
            old(self).nodes().len() < u32::MAX,
        ensures
            final(self).wf(),
            final(self).nodes() == old(self).nodes().push(node),
            final(self).edges() == old(self).edges(),
            final(self).root_index() == old(self).root_index(),
            index == old(self).nodes().len(),
    {
        arena_add_node(&mut self.arena, node)
    }

    /// Adds an edge from the node at `parent` to the node at `child`.
    pub fn add_edge(&mut self, parent: usize, child: usize)
        requires
            old(self).wf(),
            parent < old(self).nodes().len(),
            child < old(self).nodes().len(),
            old(self).edges().len() < u32::MAX,
        ensures
            final(self).wf(),
            final(self).nodes() == old(self).nodes(),
            final(self).edges() == old(self).edges().push((parent as int, child as int)),
            final(self).root_index() == old(self).root_index(),
    {
        arena_add_edge(&mut self.arena, parent, child);
    }

    /// The node at `index`, if there is one.
    pub fn node(&self, index: usize) -> (node: Option<&Node>)
        requires
            self.wf(),
        ensures
            node == if index < self.nodes().len() {
                Some(&self.nodes()[index as int])
            } else {
                None
            },
    {
        if index < arena_node_count(&self.arena) {
            arena_node_weight(&self.arena, index)
        } else {
            None
        }
    }

    /// The parents of the node at `index`: the sources of the edges that
    /// end in it, the most recently added first.
    pub fn parents(&self, index: usize) -> (sources: Vec<usize>)
        requires
            self.wf(),
            index < self.nodes().len(),
        ensures
            indices(sources@) == parents_of(self.edges(), index as int),
    {
        arena_incoming(&self.arena, index)
    }

    /// The node at `index`.
    fn node_at(&self, index: usize) -> (node: &Node)
        requires
            self.wf(),
            index < self.nodes().len(),
        ensures
            *node == self.nodes()[index as int],
    {
        arena_node_weight(&self.arena, index).unwrap()
    }

    /// The ancestors of the node at `node`, from the root down to its
    /// parent; or why the way up cannot be followed.
    pub fn ancestors(&self, node: usize) -> (r: Result<Vec<usize>, ResolveError>)
        requires
            self.wf(),
            self.root_index() < self.nodes().len(),
            node < self.nodes().len(),
        ensures
            r matches Ok(chain) ==> forall|k: int|
                0 <= k < chain.len() ==> chain@[k] < self.nodes().len(),
            match r {
                Ok(chain) => ancestors(
                    views(self.nodes()),
                    self.edges(),
                    self.root_index(),
                    node as int,
                    self.nodes().len(),
                ) == Ok::<Seq<int>, ResolveFailure>(indices(chain@)),
                Err(e) => ancestors(
                    views(self.nodes()),
                    self.edges(),
                    self.root_index(),
                    node as int,
                    self.nodes().len(),
                ) == Err::<Seq<int>, ResolveFailure>(e@),
            },
    {
        let n = arena_node_count(&self.arena);
        let root_name = self.node_at(self.root).name();
        assert(views(self.nodes())[self.root_index()] == self.nodes()[self.root_index()]@);
        let mut above: Vec<usize> = Vec::new();
        let mut current = node;
        let mut steps = n;
        let ghost nodes = views(self.nodes());
        let ghost goal = ancestors(nodes, self.edges(), self.root_index(), node as int, n as nat);
        assert(indices(above@).reverse() =~= Seq::<int>::empty());
        assert(goal == followed_by(goal, Seq::<int>::empty())) by {
            if goal is Ok {
                assert(goal->Ok_0 + Seq::<int>::empty() =~= goal->Ok_0);
            }
        }
        loop
            invariant
                self.wf(),
                n == self.nodes().len(),
                nodes == views(self.nodes()),
                self.root_index() < n,
                root_name@ == nodes[self.root_index()].name,
                current < n,
                steps <= n,
                forall|k: int| 0 <= k < above.len() ==> above@[k] < n,
                goal == ancestors(nodes, self.edges(), self.root_index(), node as int, n as nat),
                goal == followed_by(
                    ancestors(nodes, self.edges(), self.root_index(), current as int, steps as nat),
                    indices(above@).reverse(),
                ),
            decreases steps,
        {
            let parents = self.parents(current);
            let here = self.node_at(current).name();
            proof {
                lemma_parents_in_bounds(self.edges(), n as int, current as int);
                assert(indices(parents@).len() == parents@.len());
                assert(nodes[current as int] == self.nodes()[current as int]@);
            }
            if parents.len() == 0 {
                if !(*here == *root_name) {
                    return Err(ResolveError::DisconnectedRoot(here.to_string()));
                }
                let chain = reversed(&above);
                assert(Seq::<int>::empty() + indices(above@).reverse() =~= indices(chain@));
                assert forall|k: int| 0 <= k < chain.len() implies chain@[k] < n by {
                    assert(indices(chain@)[k] == indices(above@)[above.len() - 1 - k]);
                }
                return Ok(chain);
            }
            if parents.len() > 1 {
                return Err(ResolveError::MultipleParents(here.to_string()));
            }
            if steps == 0 {
                return Err(ResolveError::CycleDetected(here.to_string()));
            }
            let ghost tail = indices(above@).reverse();
            let ghost below = current as int;
            current = parents[0];
            above.push(current);
            steps -= 1;
            proof {
                assert(indices(parents@)[0] == current);
                assert(indices(above@).reverse() =~= seq![current as int] + tail);
                let up = ancestors(nodes, self.edges(), self.root_index(), current as int, steps as nat);
                assert(followed_by(followed_by(up, seq![current as int]), tail) == followed_by(
                    up,
                    seq![current as int] + tail,
                )) by {
                    if up is Ok {
                        assert((up->Ok_0 + seq![current as int]) + tail =~= up->Ok_0 + (
                        seq![current as int] + tail));
                    }
                }
            }
        }
    }

    /// The nodes in the order of a breadth-first traversal from the root.
    pub fn breadth_first(&self) -> (order: Vec<usize>)
        requires
            self.wf(),
            self.root_index() < self.nodes().len(),
        ensures
            indices(order@) == breadth_first_order(
                self.edges(),
                self.root_index(),
                self.nodes().len(),
            ),
            forall|k: int| 0 <= k < order.len() ==> order@[k] < self.nodes().len(),
    {
        let n = arena_node_count(&self.arena);
        let mut traversal = bfs_new(&self.arena, self.root);
        let mut order: Vec<usize> = Vec::new();
        let mut steps: usize = 0;
        let mut done = false;
        let ghost total = breadth_first_order(self.edges(), self.root_index(), n as nat);
        assert(indices(order@) + total =~= total);
        while steps < n && !done
            invariant
                steps <= n,
                n == self.nodes().len(),
                self.wf(),
                bfs_capacity(traversal) == n,
                done ==> bfs_queue(traversal).len() == 0,
                forall|k: int| 0 <= k < order.len() ==> order@[k] < n,
                forall|k: int|
                    0 <= k < bfs_queue(traversal).len() ==> 0 <= #[trigger] bfs_queue(traversal)[k]
                        < n,
                indices(order@) + bfs_order(
                    self.edges(),
                    bfs_queue(traversal),
                    bfs_discovered(traversal),
                    (n - steps) as nat,
                ) == total,
            decreases n - steps + if done { 0int } else { 1int },
        {
            let ghost before = indices(order@);
            let ghost waiting = bfs_queue(traversal);
            let ghost seen = bfs_discovered(traversal);
            match bfs_next(&mut traversal, &self.arena) {
                Some(node) => {
                    proof {
                        lemma_children_in_bounds(self.edges(), n as int, node as int);
                        lemma_undiscovered_within(children_of(self.edges(), node as int), seen);
                    }
                    order.push(node);
                    steps += 1;
                    assert(indices(order@) =~= before + seq![node as int]);
                    assert(indices(order@) + bfs_order(
                        self.edges(),
                        bfs_queue(traversal),
                        bfs_discovered(traversal),
                        (n - steps) as nat,
                    ) =~= total);
                },
                None => {
                    done = true;
                },
            }
        }
        assert(indices(order@) + Seq::<int>::empty() =~= indices(order@));
        order
    }
}

/// The graph that holds a copy of each node of `nodes`, in order, and no
/// edge, or the name of the first node that has the name of a node before it.
fn insert_nodes(nodes: &Vec<Node>) -> (r: Result<Taxonomy, String>)
    requires
        nodes@.len() < u32::MAX,
    ensures
        match r {
            Ok(g) => {
                &&& g.wf()
                &&& views(g.nodes()) == views(nodes@)
                &&& g.edges() == Seq::<(int, int)>::empty()
                &&& first_repeat(views(nodes@), nodes@.len() as int) is None
            },
            Err(name) => {
                &&& first_repeat(views(nodes@), nodes@.len() as int) is Some
                &&& name@ == views(nodes@)[first_repeat(views(nodes@), nodes@.len() as int)->0].name
            },
        },
{
    let mut graph = Taxonomy::new();
    let mut j: usize = 0;
    assert(views(graph.nodes()) =~= views(nodes@).take(0));
    while j < nodes.len()
        invariant
            j <= nodes.len(),
            nodes@.len() < u32::MAX,
            graph.wf(),
            graph.nodes().len() == j,
            views(graph.nodes()) == views(nodes@).take(j as int),
            graph.edges() == Seq::<(int, int)>::empty(),
            first_repeat(views(nodes@), j as int) is None,
        decreases nodes.len() - j,
    {
        match find_named(nodes, j, nodes[j].name()) {
            Some(_) => {
                proof {
                    lemma_first_repeat_stable(views(nodes@), j + 1, nodes@.len() as int);
                }
                return Err(nodes[j].name().to_string());
            },
            None => {},
        }
        let ghost before = views(graph.nodes());
        let node = nodes[j].clone();
        graph.add_node(node);
        j += 1;
        assert(views(graph.nodes()) =~= before.push(node@));
        assert(views(graph.nodes()) =~= views(nodes@).take(j as int));
    }
    assert(views(nodes@).take(j as int) =~= views(nodes@));
    Ok(graph)
}

/// The index of the only root of `nodes`, or why there is not exactly one.
fn find_root(nodes: &Vec<Node>) -> (r: Result<usize, GraphError>)
    ensures
        match r {
            Ok(root) => roots(views(nodes@), nodes@.len() as int) == seq![root as int],
            Err(GraphError::MultipleRoots(first, second)) => {
                &&& roots(views(nodes@), nodes@.len() as int).len() >= 2
                &&& first@ == views(nodes@)[roots(views(nodes@), nodes@.len() as int)[0]].name
                &&& second@ == views(nodes@)[roots(views(nodes@), nodes@.len() as int)[1]].name
            },
            Err(GraphError::NoRootFound) => roots(views(nodes@), nodes@.len() as int).len() == 0,
            Err(_) => false,
        },
{
    let mut root: Option<usize> = None;
    let mut i: usize = 0;
    while i < nodes.len()
        invariant
            i <= nodes.len(),
            match root {
                Some(first) => first < i && roots(views(nodes@), i as int) == seq![first as int],
                None => roots(views(nodes@), i as int).len() == 0,
            },
        decreases nodes.len() - i,
    {
        if nodes[i].is_root() {
            match root {
                Some(first) => {
                    proof {
                        lemma_roots_prefix(views(nodes@), i + 1, nodes@.len() as int);
                        assert(roots(views(nodes@), i + 1) == seq![first as int].push(i as int));
                        assert(roots(views(nodes@), i + 1)[0] == first);
                        assert(roots(views(nodes@), i + 1)[1] == i);
                    }
                    return Err(
                        GraphError::MultipleRoots(
                            nodes[first].name().to_string(),
                            nodes[i].name().to_string(),
                        ),
                    );
                },
                None => {
                    root = Some(i);
                    assert(roots(views(nodes@), i + 1) =~= seq![i as int]);
                },
            }
        }
        i += 1;
    }
    match root {
        Some(root) => Ok(root),
        None => Err(GraphError::NoRootFound),
    }
}

/// Adds to `graph`, for each node of `nodes` that is no root, in order, the
/// edge from its parent to it; or returns the parent of the first orphan.
fn link_parents(graph: &mut Taxonomy, nodes: &Vec<Node>) -> (r: Result<(), String>)
    requires
        old(graph).wf(),
        nodes@.len() < u32::MAX,
        views(old(graph).nodes()) == views(nodes@),
        old(graph).edges() == Seq::<(int, int)>::empty(),
    ensures
        final(graph).root_index() == old(graph).root_index(),
        match r {
            Ok(_) => {
                &&& final(graph).wf()
                &&& final(graph).nodes() == old(graph).nodes()
                &&& final(graph).edges() == tree_edges(views(nodes@), nodes@.len() as int)
                &&& first_orphan(views(nodes@), nodes@.len() as int) is None
            },
            Err(parent) => {
                &&& first_orphan(views(nodes@), nodes@.len() as int) is Some
                &&& parent@ == views(nodes@)[first_orphan(
                    views(nodes@),
                    nodes@.len() as int,
                )->0].parent
            },
        },
{
    let mut i: usize = 0;
    while i < nodes.len()
        invariant
            i <= nodes.len(),
            nodes@.len() < u32::MAX,
            graph.wf(),
            graph.nodes() == old(graph).nodes(),
            graph.root_index() == old(graph).root_index(),
            views(graph.nodes()) == views(nodes@),
            graph.edges() == tree_edges(views(nodes@), i as int),
            graph.edges().len() <= i,
            first_orphan(views(nodes@), i as int) is None,
        decreases nodes.len() - i,
    {
        if !nodes[i].is_root() {
            match find_named(nodes, nodes.len(), nodes[i].parent()) {
                Some(parent) => {
                    proof {
                        lemma_first_named(
                            views(nodes@),
                            nodes@.len() as int,
                            views(nodes@)[i as int].parent,
                        );
                        assert(views(graph.nodes()).len() == graph.nodes().len());
                    }
                    graph.add_edge(parent, i);
                },
                None => {
                    proof {
                        lemma_first_orphan_stable(views(nodes@), i + 1, nodes@.len() as int);
                    }
                    return Err(nodes[i].parent().to_string());
                },
            }
        }
        i += 1;
    }
    Ok(())
}

impl Taxonomy {
    /// Builds the tree over `nodes`: each node under the node that has the
    /// name of its parent, and the only node without a parent as the root.
    pub fn build(nodes: Vec<Node>) -> (r: Result<Taxonomy, GraphError>)
        requires
            nodes@.len() < u32::MAX,
        ensures
            match r {
                Ok(g) => {
                    &&& g.wf()
                    &&& views(g.nodes()) == views(nodes@)
                    &&& tree_of(views(nodes@)) == Ok::<TreeShape, GraphFailure>(
                        TreeShape { edges: g.edges(), root: g.root_index() },
                    )
                    &&& is_tree(views(g.nodes()), g.edges(), g.root_index())
                },
                Err(e) => tree_of(views(nodes@)) == Err::<TreeShape, GraphFailure>(e@),
            },
    {
        let mut graph = match insert_nodes(&nodes) {
            Ok(graph) => graph,
            Err(name) => {
                return Err(GraphError::DuplicateNode(name));
            },
        };
        let root = match find_root(&nodes) {
            Ok(root) => root,
            Err(error) => {
                return Err(error);
            },
        };
        match link_parents(&mut graph, &nodes) {
            Ok(_) => {},
            Err(parent) => {
                return Err(GraphError::MissingParent(parent));
            },
        }
        graph.set_root(root);
        proof {
            law_built_tree_is_tree(views(nodes@));
        }
        Ok(graph)
    }
}

} // verus!
