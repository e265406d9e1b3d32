use convert_case::Boundary;
use convert_case::Case;
use convert_case::Casing;
use ontology::directory::clean_path_name;
use ontology::graph::GraphError;
use ontology::graph::ResolveError;
use ontology::node::Builder;
use ontology::node::Name;
use ontology::Directory;
use ontology::Node;
use ontology::Taxonomy;

fn node(name: &str, parent: &str) -> Node {
    Node::new(Name::parse(name).unwrap(), Name::parse(parent).unwrap())
}

fn paths(graph: &Taxonomy) -> Vec<(usize, Vec<String>)> {
    Directory::resolve_paths(graph).unwrap()
}

fn path(parts: &[&str]) -> Vec<String> {
    parts.iter().map(|part| String::from(*part)).collect()
}

#[test]
fn chain_of_three_nodes_resolves() {
    let graph = Taxonomy::build(vec![node("A", ""), node("B", "A"), node("C", "B")]).unwrap();
    assert_eq!(graph.root(), 0);
    assert_eq!(graph.node_count(), 3);
    assert_eq!(graph.edge_count(), 2);
    assert_eq!(graph.node(graph.root()).unwrap().name().inner(), "A");
    assert_eq!(
        paths(&graph),
        vec![
            (0, path(&["a.yml"])),
            (1, path(&["a", "b.yml"])),
            (2, path(&["a", "b", "c.yml"])),
        ]
    );
}

#[test]
fn root_need_not_come_first() {
    let graph = Taxonomy::build(vec![
        node("Acute Leukemia", "Leukemia"),
        node("Leukemia", ""),
        node("B-cell Acute Leukemia, PAX5 P80R", "Acute Leukemia"),
    ])
    .unwrap();
    assert_eq!(graph.root(), 1);
    assert_eq!(graph.parents(0), vec![1]);
    assert_eq!(graph.parents(1), Vec::<usize>::new());
    assert_eq!(graph.parents(2), vec![0]);
    assert_eq!(
        paths(&graph),
        vec![
            (1, path(&["leukemia.yml"])),
            (0, path(&["leukemia", "acute-leukemia.yml"])),
            (
                2,
                path(&[
                    "leukemia",
                    "acute-leukemia",
                    "b-cell-acute-leukemia-pax5-p80r.yml"
                ])
            ),
        ]
    );
}

#[test]
fn siblings_come_in_breadth_first_order() {
    let graph = Taxonomy::build(vec![
        node("A", ""),
        node("B", "A"),
        node("C", "A"),
        node("D", "B"),
        node("E", "C"),
    ])
    .unwrap();
    // The child of the most recently added edge comes first.
    assert_eq!(graph.breadth_first(), vec![0, 2, 1, 4, 3]);
    assert_eq!(graph.ancestors(3).unwrap(), vec![0, 1]);
    assert_eq!(graph.ancestors(0).unwrap(), Vec::<usize>::new());
    assert_eq!(
        Directory::path(&graph, 4).unwrap(),
        path(&["a", "c", "e.yml"])
    );
}

#[test]
fn duplicate_names_are_rejected() {
    let err = Taxonomy::build(vec![node("A", ""), node("B", "A"), node("B", "A")]).unwrap_err();
    assert!(matches!(&err, GraphError::DuplicateNode(name) if name == "B"));
    assert_eq!(err.to_string(), "attempted to insert node twice: B");
}

#[test]
fn duplicate_names_come_before_other_failures() {
    let err =
        Taxonomy::build(vec![node("A", ""), node("C", ""), node("A", "X")]).unwrap_err();
    assert!(matches!(&err, GraphError::DuplicateNode(name) if name == "A"));
}

#[test]
fn missing_parent_is_rejected() {
    let err = Taxonomy::build(vec![node("A", ""), node("B", "X"), node("C", "Y")]).unwrap_err();
    assert!(matches!(&err, GraphError::MissingParent(name) if name == "X"));
    assert_eq!(err.to_string(), "specified parent node does not exist: X");
}

#[test]
fn missing_root_is_rejected() {
    let err = Taxonomy::build(vec![node("A", "B"), node("B", "A")]).unwrap_err();
    assert!(matches!(err, GraphError::NoRootFound));
    assert_eq!(err.to_string(), "unable to identify root!");
    let err = Taxonomy::build(Vec::new()).unwrap_err();
    assert!(matches!(err, GraphError::NoRootFound));
}

#[test]
fn the_number_of_roots_comes_before_a_missing_parent() {
    let err = Taxonomy::build(vec![node("B", "X")]).unwrap_err();
    assert!(matches!(err, GraphError::NoRootFound));
    let err = Taxonomy::build(vec![node("B", "X"), node("A", ""), node("C", "")]).unwrap_err();
    assert!(matches!(err, GraphError::MultipleRoots(_, _)));
}

#[test]
fn multiple_roots_are_rejected() {
    let err = Taxonomy::build(vec![node("A", ""), node("B", "A"), node("C", ""), node("D", "")])
        .unwrap_err();
    assert!(
        matches!(&err, GraphError::MultipleRoots(first, second) if first == "A" && second == "C")
    );
    assert_eq!(err.to_string(), "found multiple roots: A and C");
}

#[test]
fn gene_names_stay_in_one_piece() {
    let graph = Taxonomy::build(vec![node("KMT2A", ""), node("Foo, KMT2A Bar", "KMT2A")]).unwrap();
    assert_eq!(
        paths(&graph),
        vec![
            (0, path(&["kmt2a.yml"])),
            (1, path(&["kmt2a", "foo-kmt2a-bar.yml"])),
        ]
    );
}

#[test]
fn segments_hold_no_stripped_punctuation() {
    let graph = Taxonomy::build(vec![node("Foo; Bar, BAZ", "")]).unwrap();
    for (_, segments) in paths(&graph) {
        for segment in segments {
            assert!(!segment.contains(',') && !segment.contains(';'));
        }
    }
    assert_eq!(clean_path_name(String::from("Foo; Bar, BAZ.yml")), "Foo Bar BAZ.yml");
}

#[test]
fn a_node_with_two_parents_is_reported() {
    let mut graph = Taxonomy::new();
    let a = graph.add_node(node("A", ""));
    let b = graph.add_node(node("B", "A"));
    let c = graph.add_node(node("C", "A"));
    graph.add_edge(a, b);
    graph.add_edge(a, c);
    graph.add_edge(b, c);
    graph.set_root(a);
    assert_eq!(graph.parents(c), vec![b, a]);
    let err = Directory::resolve_paths(&graph).unwrap_err();
    assert!(matches!(&err, ResolveError::MultipleParents(name) if name == "C"));
    assert_eq!(err.to_string(), "found more than one parent of C");
}

#[test]
fn a_root_that_is_not_the_marked_root_is_reported() {
    let mut graph = Taxonomy::new();
    let a = graph.add_node(node("A", ""));
    let b = graph.add_node(node("B", "A"));
    graph.add_edge(a, b);
    graph.set_root(b);
    let err = Directory::path(&graph, b).unwrap_err();
    assert!(matches!(&err, ResolveError::DisconnectedRoot(name) if name == "A"));
    assert_eq!(err.to_string(), "found a root node named A");
}

#[test]
fn a_cycle_is_reported() {
    let mut graph = Taxonomy::new();
    let a = graph.add_node(node("A", ""));
    let b = graph.add_node(node("B", "C"));
    let c = graph.add_node(node("C", "B"));
    graph.add_edge(b, c);
    graph.add_edge(c, b);
    graph.set_root(a);
    let err = graph.ancestors(b).unwrap_err();
    assert!(matches!(err, ResolveError::CycleDetected(_)));
    assert!(err.to_string().starts_with("found a cycle above "));
    // The traversal from the root does not reach the cycle.
    assert_eq!(paths(&graph), vec![(0, path(&["a.yml"]))]);
}

#[test]
fn a_cycle_beside_the_tree_is_not_resolved() {
    let graph = Taxonomy::build(vec![node("A", ""), node("B", "C"), node("C", "B")]).unwrap();
    assert_eq!(paths(&graph), vec![(0, path(&["a.yml"]))]);
}

#[test]
fn graph_can_be_inspected() {
    let graph = Taxonomy::new();
    assert_eq!(graph.node_count(), 0);
    assert_eq!(graph.edge_count(), 0);
    assert_eq!(graph.root(), 0);
    assert!(graph.node(0).is_none());
}

#[test]
fn builder_needs_name_and_parent() {
    let err = Builder::default().try_build().unwrap_err();
    assert_eq!(err.to_string(), "missing required field: name");
    let err = Builder::default()
        .name(Name::parse("Foo").unwrap())
        .try_build()
        .unwrap_err();
    assert_eq!(err.to_string(), "missing required field: parent");
    let built = Builder::default()
        .name(Name::parse("Foo").unwrap())
        .parent(Name::parse("").unwrap())
        .try_build()
        .unwrap();
    assert_eq!(built, node("Foo", ""));
    assert!(built.is_root());
    assert_eq!(built.code(), None);
}

#[test]
fn builder_keeps_the_code() {
    let built = Builder::default()
        .code(String::from("8000/3"))
        .parent(Name::parse("Bar").unwrap())
        .name(Name::parse("Foo").unwrap())
        .try_build()
        .unwrap();
    assert_eq!(built.name().inner(), "Foo");
    assert_eq!(built.parent().inner(), "Bar");
    assert_eq!(built.code(), Some("8000/3"));
    assert!(!built.is_root());
    assert_ne!(built, node("Foo", "Bar"));
    assert_eq!(built.clone(), built);
    assert_eq!(built.clone().into_name().into_inner(), "Foo");
    assert_eq!(built.clone().into_parent().into_inner(), "Bar");
    assert_eq!(built.into_code(), Some(String::from("8000/3")));
}

#[test]
fn layout_builds_and_resolves() {
    let (graph, found) = Directory::layout(vec![
        node("Leukemia", ""),
        node("Acute Leukemia", "Leukemia"),
        node("Chronic Leukemia", "Leukemia"),
    ])
    .unwrap();
    assert_eq!(graph.root(), 0);
    assert_eq!(found, paths(&graph));
    assert_eq!(
        found,
        vec![
            (0, path(&["leukemia.yml"])),
            (2, path(&["leukemia", "chronic-leukemia.yml"])),
            (1, path(&["leukemia", "acute-leukemia.yml"])),
        ]
    );
    let err = Directory::layout(vec![node("A", ""), node("A", "")]).unwrap_err();
    assert!(matches!(err, GraphError::DuplicateNode(_)));
}

#[test]
fn segments_are_what_the_case_conversion_gives() {
    for name in ["KMT2A", "B-cell Acute Lymphoblastic Leukemia, PAX5 P80R", "Foo  Bar"] {
        let graph = Taxonomy::build(vec![node(name, "")]).unwrap();
        let expected = clean_path_name(format!("{}.yml", name))
            .from_case(Case::Title)
            .without_boundaries(&[Boundary::DigitUpper, Boundary::DigitLower])
            .to_case(Case::Kebab);
        assert_eq!(paths(&graph), vec![(0, vec![expected])]);
    }
}
