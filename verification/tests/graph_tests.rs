use bingraph::graph::BinGraph;
use bingraph::node::{BinNode, NodeType};

fn node(name: &str, deps: &[&str]) -> BinNode {
    BinNode::new(
        name.to_string(),
        format!("/bin/{}", name),
        NodeType::ELFBinary,
        deps.iter().map(|d| d.to_string()).collect(),
    )
}

#[test]
fn scenario_two_binaries_one_dependency() {
    let g = BinGraph::new(vec![node("A", &["B"]), node("B", &[])]);
    assert_eq!(g.num_nodes(), 2);
    assert_eq!(g.num_edges(), 1);
    assert_eq!(g.edges(), &vec![("A".to_string(), "B".to_string())]);
    assert_eq!(g.edge_endpoints(), &vec![(0u32, 1u32)]);
    let a = &g.nodes()[0];
    let b = &g.nodes()[1];
    assert_eq!(a.name(), "A");
    assert_eq!(a.get_out_degree(), 1);
    assert_eq!(a.get_in_degree(), 0);
    assert_eq!(b.name(), "B");
    assert_eq!(b.get_out_degree(), 0);
    assert_eq!(b.get_in_degree(), 1);
}

#[test]
fn scenario_unresolved_dependency_is_dropped() {
    let g = BinGraph::new(vec![node("A", &["libc.so.6"])]);
    assert_eq!(g.num_nodes(), 1);
    assert_eq!(g.num_edges(), 0);
    assert!(g.edges().is_empty());
    assert_eq!(g.nodes()[0].get_out_degree(), 1);
    assert_eq!(g.nodes()[0].get_in_degree(), 0);
}

#[test]
fn empty_graph() {
    let g = BinGraph::new(vec![]);
    assert_eq!(g.num_nodes(), 0);
    assert_eq!(g.num_edges(), 0);
    assert!(g.nodes().is_empty());
    assert!(g.edges().is_empty());
    assert!(g.degree_distribution().is_empty());
}

#[test]
fn dependency_resolution_is_exact_match() {
    // Case differences and version suffixes do not resolve.
    let g = BinGraph::new(vec![
        node("A", &["b", "B.1", "B "]),
        node("B", &[]),
    ]);
    assert_eq!(g.num_edges(), 0);
    assert_eq!(g.nodes()[0].get_out_degree(), 3);
}

#[test]
fn name_collision_last_write_wins() {
    // Two nodes share the name X; a dependency on X resolves to the later
    // one, and both stay in the node list.
    let g = BinGraph::new(vec![node("X", &[]), node("X", &[]), node("A", &["X"])]);
    assert_eq!(g.num_nodes(), 3);
    assert_eq!(g.num_edges(), 1);
    assert_eq!(g.edge_endpoints(), &vec![(2u32, 1u32)]);
    assert_eq!(g.nodes()[0].get_in_degree(), 0);
    assert_eq!(g.nodes()[1].get_in_degree(), 1);
}

#[test]
fn self_dependency_resolves_to_itself() {
    let g = BinGraph::new(vec![node("A", &["A"])]);
    assert_eq!(g.num_edges(), 1);
    assert_eq!(g.edge_endpoints(), &vec![(0u32, 0u32)]);
    assert_eq!(g.nodes()[0].get_in_degree(), 1);
}

#[test]
fn in_degrees_sum_to_edge_count() {
    let g = BinGraph::new(vec![
        node("A", &["B", "C", "ghost"]),
        node("B", &["C"]),
        node("C", &[]),
    ]);
    assert_eq!(g.num_edges(), 3);
    let total: u32 = g.nodes().iter().map(|n| n.get_in_degree()).sum();
    assert_eq!(total, g.num_edges());
}

#[test]
fn degree_distribution_counts_nodes_per_in_degree() {
    let g = BinGraph::new(vec![
        node("A", &["C"]),
        node("B", &["C"]),
        node("C", &[]),
    ]);
    // In-degrees are [0, 0, 2]: two nodes of degree 0, one of degree 2.
    assert_eq!(g.degree_distribution(), &vec![(0u32, 2u32), (2u32, 1u32)]);
    let total: u32 = g.degree_distribution().iter().map(|e| e.1).sum();
    assert_eq!(total, g.num_nodes());
}

#[test]
fn duplicate_dependency_yields_two_edges() {
    let g = BinGraph::new(vec![node("A", &["B", "B"]), node("B", &[])]);
    assert_eq!(g.num_edges(), 2);
    assert_eq!(g.nodes()[1].get_in_degree(), 2);
    assert_eq!(g.degree_distribution(), &vec![(0u32, 1u32), (2u32, 1u32)]);
}

#[test]
fn rebuild_from_equal_input_is_identical() {
    let make = || {
        vec![
            node("A", &["B", "missing"]),
            node("B", &["A"]),
            node("C", &[]),
        ]
    };
    let g1 = BinGraph::new(make());
    let g2 = BinGraph::new(make());
    assert_eq!(g1.num_nodes(), g2.num_nodes());
    assert_eq!(g1.num_edges(), g2.num_edges());
    assert_eq!(g1.edges(), g2.edges());
    assert_eq!(g1.edge_endpoints(), g2.edge_endpoints());
    assert_eq!(g1.degree_distribution(), g2.degree_distribution());
    for (n1, n2) in g1.nodes().iter().zip(g2.nodes().iter()) {
        assert_eq!(n1.name(), n2.name());
        assert_eq!(n1.get_in_degree(), n2.get_in_degree());
        assert_eq!(n1.get_out_degree(), n2.get_out_degree());
    }
    assert_eq!(g1.serialize_graphviz(), g2.serialize_graphviz());
}

#[test]
fn apply_centralities_sets_present_scores_only() {
    let mut g = BinGraph::new(vec![node("A", &["B"]), node("B", &[])]);
    let betweenness = vec![Some("0.5".to_string()), None];
    let katz = None;
    let eigen = Some(vec!["0.7".to_string(), "0.9".to_string()]);
    let closeness = vec![None, Some("1".to_string())];
    g.apply_centralities(&betweenness, &katz, &eigen, &closeness);
    let a = &g.nodes()[0];
    let b = &g.nodes()[1];
    assert_eq!(a.get_betweenness_centrality(), &Some("0.5".to_string()));
    assert_eq!(b.get_betweenness_centrality(), &None);
    assert_eq!(a.get_katz_centrality(), &None);
    assert_eq!(b.get_katz_centrality(), &None);
    assert_eq!(a.get_eigen_centrality(), &Some("0.7".to_string()));
    assert_eq!(b.get_eigen_centrality(), &Some("0.9".to_string()));
    assert_eq!(a.get_closeness_centrality(), &None);
    assert_eq!(b.get_closeness_centrality(), &Some("1".to_string()));
    // The rest of the graph is untouched.
    assert_eq!(g.num_nodes(), 2);
    assert_eq!(g.num_edges(), 1);
    assert_eq!(g.nodes()[1].get_in_degree(), 1);
}
