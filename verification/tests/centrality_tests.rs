use bingraph::graph::BinGraph;
use bingraph::node::{BinNode, NodeType};
use rustworkx_core::centrality::{
    betweenness_centrality, closeness_centrality, eigenvector_centrality, katz_centrality,
};
use rustworkx_core::petgraph::graph::DiGraph;

fn node(name: &str, deps: &[&str]) -> BinNode {
    BinNode::new(
        name.to_string(),
        format!("/bin/{}", name),
        NodeType::ELFBinary,
        deps.iter().map(|d| d.to_string()).collect(),
    )
}

/// Rebuilds the directed graph the way the scanner pipeline does and runs
/// the four measures over it, with the two iterative ones capped at 100
/// iterations.
fn measure(
    g: &BinGraph,
) -> (Vec<Option<f64>>, Option<Vec<f64>>, Option<Vec<f64>>, Vec<Option<f64>>) {
    let mut pg: DiGraph<(), u32> = DiGraph::new();
    for _ in 0..g.num_nodes() {
        pg.add_node(());
    }
    for (s, d) in g.edge_endpoints() {
        pg.add_edge((*s).into(), (*d).into(), 0);
    }
    let bet = betweenness_centrality(&pg, true, true, 200);
    let katz = katz_centrality(&pg, |_| Ok::<f64, ()>(1.), None, None, None, Some(100), None)
        .unwrap_or(None);
    let eigen = eigenvector_centrality(&pg, |_| Ok::<f64, ()>(1.), Some(100), None)
        .unwrap_or(None);
    let clo = closeness_centrality(&pg, true, 200);
    (bet, katz, eigen, clo)
}

#[test]
fn disconnected_node_still_gets_betweenness_and_closeness() {
    // A -> B plus a node with no edges at all.
    let g = BinGraph::new(vec![node("A", &["B"]), node("B", &[]), node("loner", &[])]);
    let (bet, _katz, _eigen, clo) = measure(&g);
    assert_eq!(bet.len(), 3);
    assert!(bet[2].is_some());
    assert_eq!(clo.len(), 3);
    assert!(clo[2].is_some());
}

#[test]
fn measured_scores_render_onto_the_nodes() {
    let g0 = BinGraph::new(vec![node("A", &["B"]), node("B", &[]), node("loner", &[])]);
    let (bet, katz, eigen, clo) = measure(&g0);
    let bet_s: Vec<Option<String>> =
        bet.iter().map(|v| v.map(|x| format!("{}", x))).collect();
    let katz_s: Option<Vec<String>> =
        katz.as_ref().map(|v| v.iter().map(|x| format!("{}", x)).collect());
    let eigen_s: Option<Vec<String>> =
        eigen.as_ref().map(|v| v.iter().map(|x| format!("{}", x)).collect());
    let clo_s: Vec<Option<String>> =
        clo.iter().map(|v| v.map(|x| format!("{}", x))).collect();
    let mut g = g0;
    g.apply_centralities(&bet_s, &katz_s, &eigen_s, &clo_s);
    // Betweenness and closeness always resolved, so every node shows them.
    for n in g.nodes() {
        assert!(n.get_betweenness_centrality().is_some());
        assert!(n.get_closeness_centrality().is_some());
    }
    // A measure that did not converge leaves every score unset.
    if katz_s.is_none() {
        for n in g.nodes() {
            assert!(n.get_katz_centrality().is_none());
        }
    }
    // The rendering carries the scores into the GraphViz tooltip.
    let doc = g.serialize_graphviz();
    let a_bet = bet_s[0].clone().unwrap();
    assert!(doc.contains(&format!("\\nBetweeness: {}\\n", a_bet)));
}

#[test]
fn two_measurement_runs_agree() {
    let g = BinGraph::new(vec![
        node("A", &["B", "C"]),
        node("B", &["C"]),
        node("C", &[]),
    ]);
    let (bet1, katz1, eigen1, clo1) = measure(&g);
    let (bet2, katz2, eigen2, clo2) = measure(&g);
    let close = |a: f64, b: f64| (a - b).abs() < 1e-9;
    for (x, y) in bet1.iter().zip(bet2.iter()) {
        match (x, y) {
            (Some(a), Some(b)) => assert!(close(*a, *b)),
            (None, None) => {}
            _ => panic!("betweenness runs disagree"),
        }
    }
    for (x, y) in clo1.iter().zip(clo2.iter()) {
        match (x, y) {
            (Some(a), Some(b)) => assert!(close(*a, *b)),
            (None, None) => {}
            _ => panic!("closeness runs disagree"),
        }
    }
    assert_eq!(katz1.is_some(), katz2.is_some());
    assert_eq!(eigen1.is_some(), eigen2.is_some());
    if let (Some(k1), Some(k2)) = (katz1, katz2) {
        for (a, b) in k1.iter().zip(k2.iter()) {
            assert!(close(*a, *b));
        }
    }
    if let (Some(e1), Some(e2)) = (eigen1, eigen2) {
        for (a, b) in e1.iter().zip(e2.iter()) {
            assert!(close(*a, *b));
        }
    }
}
