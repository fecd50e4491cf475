//! The graph's global invariants, stated and proved as standalone laws.

use vstd::prelude::*;

use crate::graph::{
    built_from, count_dst, dist_total, graph_edges, in_degs, lemma_dist_total_of,
    lemma_edges_upto_valid, lemma_sum_count_dst_total, lemma_sum_in_degrees_eq, skeleton,
    sum_in_degrees, BinGraph, GraphV,
};
use crate::node::NodeV;

verus! {

/// Every constructed graph holds exactly one node per descriptor it was
/// built from: nothing is dropped and nothing is merged, even when two
/// descriptors share a name.
pub proof fn lemma_node_count(g: BinGraph, s: Seq<NodeV>)
    requires
        built_from(g@, s),
    ensures
        g@.num_nodes == s.len(),
        g@.nodes.len() == s.len(),
{
}

/// Every edge of a constructed graph joins two nodes of the graph, its
/// name pair is the names of those two nodes, and the destination's name
/// stands verbatim in the source's declared dependency list.
pub proof fn lemma_edges_resolved(g: BinGraph)
    requires
        g.inv(),
    ensures
        forall|k: int|
            0 <= k < g@.edges.len() ==> {
                let a = (#[trigger] g@.edge_endpoints[k]).0;
                let b = g@.edge_endpoints[k].1;
                &&& 0 <= a < g@.nodes.len()
                &&& 0 <= b < g@.nodes.len()
                &&& g@.edges[k] == (g@.nodes[a].name, g@.nodes[b].name)
                &&& g@.nodes[a].dependencies.contains(g@.nodes[b].name)
            },
{
    let sk = skeleton(g@.nodes);
    lemma_edges_upto_valid(sk, sk.len() as int);
    assert forall|k: int| 0 <= k < g@.edges.len() implies {
        let a = (#[trigger] g@.edge_endpoints[k]).0;
        let b = g@.edge_endpoints[k].1;
        &&& 0 <= a < g@.nodes.len()
        &&& 0 <= b < g@.nodes.len()
        &&& g@.edges[k] == (g@.nodes[a].name, g@.nodes[b].name)
        &&& g@.nodes[a].dependencies.contains(g@.nodes[b].name)
    } by {
        let e = graph_edges(sk)[k];
        assert(g@.edge_endpoints[k] == e);
        assert(sk[e.0].1 == g@.nodes[e.0].dependencies);
        assert(sk[e.1].0 == g@.nodes[e.1].name);
    }
}

/// A name carried by no node of the graph is never the destination of an
/// edge: an unresolved dependency contributes nothing.
pub proof fn lemma_unresolved_never_edge(g: BinGraph, d: Seq<char>)
    requires
        g.inv(),
        forall|i: int| 0 <= i < g@.nodes.len() ==> (#[trigger] g@.nodes[i]).name != d,
    ensures
        forall|k: int| 0 <= k < g@.edges.len() ==> (#[trigger] g@.edges[k]).1 != d,
{
    assert forall|k: int| 0 <= k < g@.edges.len() implies (#[trigger] g@.edges[k]).1 != d by {
        let b = g@.edge_endpoints[k].1;
        assert(g@.edges[k].1 == g@.nodes[b].name);
        assert(g@.nodes[b].name != d);
    }
}

/// The stored in-degrees of a constructed graph add up to its edge count.
pub proof fn lemma_in_degree_sum(g: BinGraph)
    requires
        g.inv(),
    ensures
        sum_in_degrees(g@.nodes) == g@.num_edges,
{
    let es = g@.edge_endpoints;
    let n = g@.nodes.len() as int;
    lemma_sum_count_dst_total(es, n);
    lemma_sum_in_degrees_eq(g@.nodes, es);
}

/// The multiplicities of the degree-distribution histogram add up to the
/// node count.
pub proof fn lemma_degree_distribution_total(g: BinGraph)
    requires
        g.inv(),
    ensures
        dist_total(g@.degree_distribution) == g@.num_nodes,
{
    lemma_dist_total_of(in_degs(g@.nodes));
    assert(in_degs(g@.nodes).len() == g@.nodes.len());
}

/// Graph construction is a function of the descriptor sequence alone: two
/// graphs built from the same node sequence are equal in every part, node
/// list, both edge lists, histogram and counts alike.
pub proof fn lemma_build_deterministic(a: GraphV, b: GraphV, s: Seq<NodeV>)
    requires
        built_from(a, s),
        built_from(b, s),
    ensures
        a == b,
{
    let es = graph_edges(skeleton(s));
    assert forall|i: int| 0 <= i < s.len() implies a.nodes[i] == b.nodes[i] by {
        assert(a.nodes[i] == (NodeV {
            in_degree: count_dst(es, i),
            out_degree: s[i].dependencies.len(),
            ..s[i]
        }));
    }
    assert(a.nodes =~= b.nodes);
    assert(a.edge_endpoints =~= b.edge_endpoints);
    assert forall|k: int| 0 <= k < es.len() implies a.edges[k] == b.edges[k] by {
        assert(a.edges[k] == (s[es[k].0].name, s[es[k].1].name));
    }
    assert(a.edges =~= b.edges);
    assert(a.degree_distribution =~= b.degree_distribution);
    assert(a =~= b);
}

} // verus!
