use bingraph::graph::BinGraph;
use bingraph::node::{BinNode, NodeType};

#[test]
fn node_statement_renders_all_fields() {
    let n = BinNode::new(
        "A".to_string(),
        "/bin/A".to_string(),
        NodeType::ELFBinary,
        vec!["B".to_string()],
    );
    let expected = "  \"A\" [style=filled, color=\"blue\", tooltip=\"Absolute Path: /bin/A\\nOutdegree: 1\\nIndegree: 0\\nBetweeness: 0\\nKatz: 0\\nEigen: 0\\nCloseness: 0\"];\n";
    assert_eq!(n.format_graphviz(), expected);
}

#[test]
fn node_statement_colors_follow_node_type() {
    for (t, color) in [
        (NodeType::ELFBinary, "blue"),
        (NodeType::ELFLibrary, "green"),
        (NodeType::PortableExecutable, "pink"),
        (NodeType::InterpretedExecutable, "red"),
    ] {
        let n = BinNode::new("x".to_string(), "/x".to_string(), t, vec![]);
        assert!(n.format_graphviz().contains(&format!("color=\"{}\"", color)));
    }
}

#[test]
fn node_statement_shows_set_scores() {
    let mut n = BinNode::new("A".to_string(), "/bin/A".to_string(), NodeType::ELFLibrary, vec![]);
    n.set_betweeness_centrality(format!("{}", 0.25f64));
    n.set_katz_centrality("0.5".to_string());
    n.set_in_degree(3);
    let s = n.format_graphviz();
    assert!(s.contains("\\nBetweeness: 0.25\\n"));
    assert!(s.contains("\\nKatz: 0.5\\n"));
    assert!(s.contains("\\nIndegree: 3\\n"));
    // Unset scores render as the numeric zero default, not as null.
    assert!(s.contains("\\nEigen: 0\\n"));
    assert!(s.contains("\\nCloseness: 0\""));
}

#[test]
fn document_holds_each_node_and_edge_exactly_once() {
    let g = BinGraph::new(vec![
        BinNode::new(
            "A".to_string(),
            "/bin/A".to_string(),
            NodeType::ELFBinary,
            vec!["B".to_string()],
        ),
        BinNode::new("B".to_string(), "/lib/B".to_string(), NodeType::ELFLibrary, vec![]),
    ]);
    let doc = g.serialize_graphviz();
    let stmt_a = g.nodes()[0].format_graphviz();
    let stmt_b = g.nodes()[1].format_graphviz();
    let edge = "  \"A\" -> \"B\"\n";
    assert_eq!(doc.matches(stmt_a.as_str()).count(), 1);
    assert_eq!(doc.matches(stmt_b.as_str()).count(), 1);
    assert_eq!(doc.matches(edge).count(), 1);
    assert!(doc.starts_with("digraph bingraph {\n\n"));
    assert!(doc.ends_with("\n}"));
}

#[test]
fn document_exact_form() {
    let g = BinGraph::new(vec![BinNode::new(
        "solo".to_string(),
        "/bin/solo".to_string(),
        NodeType::PortableExecutable,
        vec![],
    )]);
    let expected = "digraph bingraph {\n\n  \"solo\" [style=filled, color=\"pink\", tooltip=\"Absolute Path: /bin/solo\\nOutdegree: 0\\nIndegree: 0\\nBetweeness: 0\\nKatz: 0\\nEigen: 0\\nCloseness: 0\"];\n\n\n\n}";
    assert_eq!(g.serialize_graphviz(), expected);
}
