//! The layout of a taxonomy on disk: for every node the path of its file,
//! made of one segment for each ancestor and one for the node itself.

use crate::graph::{
    ancestors, breadth_first_order, indices, tree_of, views, GraphError, GraphFailure,
    ResolveError, ResolveFailure, Taxonomy, TreeShape,
};
use crate::laws::law_tree_resolves;
use crate::node::Node;
use crate::node::name::strip;
use crate::node::NodeView;
use crate::text::strings;
use convert_case::Casing;
use vstd::prelude::*;

verus! {

/// What `convert_case` makes of `s` read as title case and written as
/// kebab case, with no boundary between a digit and a letter.
pub uninterp spec fn kebab_case(s: Seq<char>) -> Seq<char>;

/// `Casing::from_case`, `StateConverter::without_boundaries` and
/// `StateConverter::to_case`: the conversion of `s` from title case to
/// kebab case that sets no boundary between a digit and a letter.
#[verifier::external_body]
fn to_kebab(s: &str) -> (r: String)
    ensures
        r@ == kebab_case(s@),
{
    s.from_case(convert_case::Case::Title).without_boundaries(
        &[convert_case::Boundary::DigitUpper, convert_case::Boundary::DigitLower],
    ).to_case(convert_case::Case::Kebab)
}

/// Cleans a file name of unwanted characters.
pub fn clean_path_name(name: String) -> (cleaned: String)
    ensures
        cleaned@ == strip(name@),
{
    let mut cleaned = String::new();
    proof {
        reveal(Seq::filter);
    }
    for c in it: name.as_str().chars()
        invariant
            it.seq() == name@,
            cleaned@ == strip(name@.take(it.index() as int)),
    {
        proof {
            let before = name@.take(it.index() as int);
            assert(name@.take(it.index() + 1) =~= before.push(c));
            crate::node::name::lemma_strip_push(before, c);
        }
        if c != ',' && c != ';' {
            cleaned.push(c);
        }
    }
    assert(name@.take(name@.len() as int) =~= name@);
    cleaned
}

/// The path segment of a directory named after `name`.
pub open spec fn segment(name: Seq<char>) -> Seq<char> {
    kebab_case(strip(name))
}

/// The path segment of the file of the node named `name`.
pub open spec fn leaf(name: Seq<char>) -> Seq<char> {
    kebab_case(strip(name + ".yml"@))
}

/// The segments of the directories named after the nodes of `chain`.
pub open spec fn segments(nodes: Seq<NodeView>, chain: Seq<int>) -> Seq<Seq<char>> {
    chain.map_values(|i: int| segment(nodes[i].name))
}

/// The path of the file of `node`: the segments of its ancestors from the
/// root down, then its own; or why the way up to the root cannot be followed.
pub open spec fn path_of(nodes: Seq<NodeView>, edges: Seq<(int, int)>, root: int, node: int) -> Result<
    Seq<Seq<char>>,
    ResolveFailure,
> {
    match ancestors(nodes, edges, root, node, nodes.len()) {
        Ok(chain) => Ok(segments(nodes, chain).push(leaf(nodes[node].name))),
        Err(e) => Err(e),
    }
}

/// The paths of the nodes of `order`, each with its node, in order; or
/// the failure of the first node whose path cannot be found.
pub open spec fn paths_of(
    nodes: Seq<NodeView>,
    edges: Seq<(int, int)>,
    root: int,
    order: Seq<int>,
) -> Result<Seq<(int, Seq<Seq<char>>)>, ResolveFailure>
    decreases order.len(),
{
    if order.len() == 0 {
        Ok(Seq::empty())
    } else {
        match paths_of(nodes, edges, root, order.drop_last()) {
            Err(e) => Err(e),
            Ok(paths) => match path_of(nodes, edges, root, order.last()) {
                Err(e) => Err(e),
                Ok(path) => Ok(paths.push((order.last(), path))),
            },
        }
    }
}

/// The path of every node that a breadth-first traversal from the root
/// reaches, in the order of the traversal.
pub open spec fn resolution(nodes: Seq<NodeView>, edges: Seq<(int, int)>, root: int) -> Result<
    Seq<(int, Seq<Seq<char>>)>,
    ResolveFailure,
> {
    paths_of(nodes, edges, root, breadth_first_order(edges, root, nodes.len()))
}

/// What the resolved paths of `paths` hold, in order.
pub open spec fn path_views(paths: Seq<(usize, Vec<String>)>) -> Seq<(int, Seq<Seq<char>>)> {
    paths.map_values(|p: (usize, Vec<String>)| (p.0 as int, strings(p.1@)))
}

/// A failure among the first nodes of an order is the failure of the order.
pub proof fn lemma_paths_of_failure(
    nodes: Seq<NodeView>,
    edges: Seq<(int, int)>,
    root: int,
    order: Seq<int>,
    k: int,
)
    requires
        0 <= k <= order.len(),
        paths_of(nodes, edges, root, order.take(k)) is Err,
    ensures
        paths_of(nodes, edges, root, order) == paths_of(nodes, edges, root, order.take(k)),
    decreases order.len() - k,
{
    if k < order.len() {
        assert(order.take(k + 1).drop_last() =~= order.take(k));
        lemma_paths_of_failure(nodes, edges, root, order, k + 1);
    } else {
        assert(order.take(k) =~= order);
    }
}

/// Operations on the directory structure of a taxonomy.
pub struct Directory;

impl Directory {
    /// The path of the file of the node at `node`.
    pub fn path(graph: &Taxonomy, node: usize) -> (r: Result<Vec<String>, ResolveError>)
        requires
            graph.wf(),
            graph.root_index() < graph.nodes().len(),
            node < graph.nodes().len(),
        ensures
            match r {
                Ok(path) => path_of(
                    views(graph.nodes()),
                    graph.edges(),
                    graph.root_index(),
                    node as int,
                ) == Ok::<Seq<Seq<char>>, ResolveFailure>(strings(path@)),
                Err(e) => path_of(
                    views(graph.nodes()),
                    graph.edges(),
                    graph.root_index(),
                    node as int,
                ) == Err::<Seq<Seq<char>>, ResolveFailure>(e@),
            },
    {
        let chain = match graph.ancestors(node) {
            Ok(chain) => chain,
            Err(e) => {
                return Err(e);
            },
        };
        let ghost nodes = views(graph.nodes());
        let mut path: Vec<String> = Vec::new();
        let mut i: usize = 0;
        assert(strings(path@) =~= segments(nodes, indices(chain@)).take(0));
        while i < chain.len()
            invariant
                i <= chain.len(),
                graph.wf(),
                nodes == views(graph.nodes()),
                forall|k: int| 0 <= k < chain.len() ==> chain@[k] < graph.nodes().len(),
                strings(path@) == segments(nodes, indices(chain@)).take(i as int),
            decreases chain.len() - i,
        {
            let ghost before = strings(path@);
            let name = graph.node(chain[i]).unwrap().name().to_string();
            let part = to_kebab(clean_path_name(name).as_str());
            path.push(part);
            i += 1;
            proof {
                assert(nodes[chain@[i - 1] as int] == graph.nodes()[chain@[i - 1] as int]@);
                assert(strings(path@) =~= before.push(part@));
                assert(strings(path@) =~= segments(nodes, indices(chain@)).take(i as int));
            }
        }
        assert(segments(nodes, indices(chain@)).take(i as int) =~= segments(
            nodes,
            indices(chain@),
        ));
        let ghost before = strings(path@);
        let mut file = graph.node(node).unwrap().name().to_string();
        file.append(".yml");
        let part = to_kebab(clean_path_name(file).as_str());
        path.push(part);
        proof {
            assert(nodes[node as int] == graph.nodes()[node as int]@);
            assert(strings(path@) =~= before.push(part@));
        }
        Ok(path)
    }

    /// The path of the file of every node that a breadth-first traversal
    /// from the root reaches, each with the index of its node, in the order
    /// of the traversal; or the failure of the first node whose path
    /// cannot be found.
    pub fn resolve_paths(graph: &Taxonomy) -> (r: Result<Vec<(usize, Vec<String>)>, ResolveError>)
        requires
            graph.wf(),
            graph.root_index() < graph.nodes().len(),
        ensures
            match r {
                Ok(paths) => resolution(
                    views(graph.nodes()),
                    graph.edges(),
                    graph.root_index(),
                ) == Ok::<Seq<(int, Seq<Seq<char>>)>, ResolveFailure>(path_views(paths@)),
                Err(e) => resolution(views(graph.nodes()), graph.edges(), graph.root_index())
                    == Err::<Seq<(int, Seq<Seq<char>>)>, ResolveFailure>(e@),
            },
    {
        let order = graph.breadth_first();
        let ghost nodes = views(graph.nodes());
        let mut paths: Vec<(usize, Vec<String>)> = Vec::new();
        let mut i: usize = 0;
        assert(indices(order@).take(0) =~= Seq::<int>::empty());
        assert(path_views(paths@) =~= Seq::<(int, Seq<Seq<char>>)>::empty());
        while i < order.len()
            invariant
                i <= order.len(),
                graph.wf(),
                graph.root_index() < graph.nodes().len(),
                nodes == views(graph.nodes()),
                nodes.len() == graph.nodes().len(),
                indices(order@) == breadth_first_order(
                    graph.edges(),
                    graph.root_index(),
                    nodes.len(),
                ),
                forall|k: int| 0 <= k < order.len() ==> order@[k] < graph.nodes().len(),
                paths_of(nodes, graph.edges(), graph.root_index(), indices(order@).take(i as int))
                    == Ok::<Seq<(int, Seq<Seq<char>>)>, ResolveFailure>(path_views(paths@)),
            decreases order.len() - i,
        {
            let ghost before = path_views(paths@);
            proof {
                assert(indices(order@).take(i + 1).drop_last() =~= indices(order@).take(i as int));
            }
            match Directory::path(graph, order[i]) {
                Ok(path) => {
                    paths.push((order[i], path));
                    assert(path_views(paths@) =~= before.push((order@[i as int] as int, strings(path@))));
                },
                Err(e) => {
                    proof {
                        let seen = indices(order@).take(i + 1);
                        assert(seen.last() == order@[i as int] as int);
                        assert(paths_of(nodes, graph.edges(), graph.root_index(), seen) == Err::<
                            Seq<(int, Seq<Seq<char>>)>,
                            ResolveFailure,
                        >(e@));
                        lemma_paths_of_failure(
                            nodes,
                            graph.edges(),
                            graph.root_index(),
                            indices(order@),
                            i + 1,
                        );
                    }
                    return Err(e);
                },
            }
            i += 1;
        }
        assert(indices(order@).take(i as int) =~= indices(order@));
        Ok(paths)
    }

    /// The layout of the tree over `nodes`: the tree, and the path of the
    /// file of every node that a breadth-first traversal from the root
    /// reaches, in the order of the traversal; or why `nodes` are no tree.
    /// The paths of a tree are always found.
    pub fn layout(nodes: Vec<Node>) -> (r: Result<
        (Taxonomy, Vec<(usize, Vec<String>)>),
        GraphError,
    >)
        requires
            nodes@.len() < u32::MAX,
        ensures
            match r {
                Ok((graph, paths)) => {
                    &&& graph.wf()
                    &&& views(graph.nodes()) == views(nodes@)
                    &&& tree_of(views(nodes@)) == Ok::<TreeShape, GraphFailure>(
                        TreeShape { edges: graph.edges(), root: graph.root_index() },
                    )
                    &&& resolution(views(nodes@), graph.edges(), graph.root_index()) == Ok::<
                        Seq<(int, Seq<Seq<char>>)>,
                        ResolveFailure,
                    >(path_views(paths@))
                },
                Err(e) => tree_of(views(nodes@)) == Err::<TreeShape, GraphFailure>(e@),
            },
    {
        let graph = match Taxonomy::build(nodes) {
            Ok(graph) => graph,
            Err(e) => {
                return Err(e);
            },
        };
        proof {
            law_tree_resolves(views(graph.nodes()), graph.edges(), graph.root_index());
        }
        match Directory::resolve_paths(&graph) {
            Ok(paths) => Ok((graph, paths)),
            Err(_) => vstd::pervasive::unreached(),
        }
    }
}

} // verus!
