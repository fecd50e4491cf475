//! The dependency graph: node set, resolved edges, degree statistics.
//!
//! Dependency resolution works over the *names* of the scanned artifacts:
//! a declared dependency becomes an edge exactly when its name matches the
//! name of a scanned node. When two nodes share a name, the later one wins
//! the lookup (documented last-write-wins); both stay in the node list.

use vstd::prelude::*;
use vstd::pervasive::VecAdditionalExecFns;
use vstd::seq_lib::*;

use vstd::string::StringExecFns;

use crate::node::{gv_node_stmt, BinNode, NodeV};

verus! {

// ---------------------------------------------------------------------------
// Specification: name resolution and the edge relation
// ---------------------------------------------------------------------------
/// The part of each node that dependency resolution reads: its name and its
/// declared dependency names.
pub open spec fn skeleton(s: Seq<NodeV>) -> Seq<(Seq<char>, Seq<Seq<char>>)> {
    Seq::new(s.len(), |i: int| (s[i].name, s[i].dependencies))
}

/// The index of the last node whose name is `d`, if any: the node a
/// dependency on `d` resolves to.
pub open spec fn last_match(sk: Seq<(Seq<char>, Seq<Seq<char>>)>, d: Seq<char>) -> Option<int>
    decreases sk.len(),
{
    if sk.len() == 0 {
        None
    } else if sk.last().0 == d {
        Some(sk.len() - 1)
    } else {
        last_match(sk.drop_last(), d)
    }
}

/// The edges contributed by the first `k` declared dependencies of node `i`,
/// as (source index, destination index) pairs in declaration order.
/// A dependency that resolves to no node contributes nothing.
pub open spec fn node_edges_upto(
    sk: Seq<(Seq<char>, Seq<Seq<char>>)>,
    i: int,
    k: int,
) -> Seq<(int, int)>
    decreases k,
{
    if k <= 0 {
        Seq::empty()
    } else {
        let rest = node_edges_upto(sk, i, k - 1);
        match last_match(sk, sk[i].1[k - 1]) {
            Some(j) => rest.push((i, j)),
            None => rest,
        }
    }
}

/// All edges contributed by node `i`.
pub open spec fn node_edges(sk: Seq<(Seq<char>, Seq<Seq<char>>)>, i: int) -> Seq<(int, int)> {
    node_edges_upto(sk, i, sk[i].1.len() as int)
}

/// All edges contributed by the first `n` nodes, in traversal order.
pub open spec fn edges_upto(sk: Seq<(Seq<char>, Seq<Seq<char>>)>, n: int) -> Seq<(int, int)>
    decreases n,
{
    if n <= 0 {
        Seq::empty()
    } else {
        edges_upto(sk, n - 1) + node_edges(sk, n - 1)
    }
}

/// The complete edge relation of the graph over the scanned nodes.
pub open spec fn graph_edges(sk: Seq<(Seq<char>, Seq<Seq<char>>)>) -> Seq<(int, int)> {
    edges_upto(sk, sk.len() as int)
}

/// How many edges of `es` end at node index `j`: the in-degree of `j`.
pub open spec fn count_dst(es: Seq<(int, int)>, j: int) -> nat
    decreases es.len(),
{
    if es.len() == 0 {
        0
    } else {
        count_dst(es.drop_last(), j) + (if es.last().1 == j {
            1nat
        } else {
            0nat
        })
    }
}

/// The total number of dependency names declared by the first `n` nodes.
pub open spec fn total_deps_upto(sk: Seq<(Seq<char>, Seq<Seq<char>>)>, n: int) -> nat
    decreases n,
{
    if n <= 0 {
        0
    } else {
        total_deps_upto(sk, n - 1) + sk[n - 1].1.len()
    }
}

/// The total number of dependency names declared by all nodes.
pub open spec fn total_deps(sk: Seq<(Seq<char>, Seq<Seq<char>>)>) -> nat {
    total_deps_upto(sk, sk.len() as int)
}

// ---------------------------------------------------------------------------
// Specification: degree distribution
// ---------------------------------------------------------------------------
/// The in-degree of every node, in node order.
pub open spec fn in_degs(s: Seq<NodeV>) -> Seq<nat> {
    Seq::new(s.len(), |i: int| s[i].in_degree)
}

/// How many entries of `degs` equal `d`.
pub open spec fn count_eq(degs: Seq<nat>, d: nat) -> nat
    decreases degs.len(),
{
    if degs.len() == 0 {
        0
    } else {
        count_eq(degs.drop_last(), d) + (if degs.last() == d {
            1nat
        } else {
            0nat
        })
    }
}

/// The distinct values of `degs`, in order of first occurrence.
pub open spec fn distinct_in_order(degs: Seq<nat>) -> Seq<nat>
    decreases degs.len(),
{
    if degs.len() == 0 {
        Seq::empty()
    } else {
        let rest = distinct_in_order(degs.drop_last());
        if degs.drop_last().contains(degs.last()) {
            rest
        } else {
            rest.push(degs.last())
        }
    }
}

/// The degree-distribution histogram of `degs`: one `(value, multiplicity)`
/// entry per distinct value, in order of first occurrence.
pub open spec fn dist_of(degs: Seq<nat>) -> Seq<(nat, nat)> {
    Seq::new(distinct_in_order(degs).len(), |t: int| (
        distinct_in_order(degs)[t],
        count_eq(degs, distinct_in_order(degs)[t]),
    ))
}

/// The sum of the multiplicities of a histogram.
pub open spec fn dist_total(dist: Seq<(nat, nat)>) -> nat
    decreases dist.len(),
{
    if dist.len() == 0 {
        0
    } else {
        dist_total(dist.drop_last()) + dist.last().1
    }
}

/// The sum of the stored in-degrees of a node sequence.
pub open spec fn sum_in_degrees(s: Seq<NodeV>) -> nat
    decreases s.len(),
{
    if s.len() == 0 {
        0
    } else {
        sum_in_degrees(s.drop_last()) + s.last().in_degree
    }
}

/// The sum of the in-degrees of the first `n` node indices under the edge
/// relation `es`.
pub open spec fn sum_count_dst(es: Seq<(int, int)>, n: int) -> nat
    decreases n,
{
    if n <= 0 {
        0
    } else {
        sum_count_dst(es, n - 1) + count_dst(es, n - 1)
    }
}

// ---------------------------------------------------------------------------
// Helper lemmas about the specification
// ---------------------------------------------------------------------------
/// What a `last_match` result means: a hit names the last node with that
/// name, a miss means no node has it.
pub proof fn lemma_last_match_props(sk: Seq<(Seq<char>, Seq<Seq<char>>)>, d: Seq<char>)
    ensures
        match last_match(sk, d) {
            Some(j) => 0 <= j < sk.len() && sk[j].0 == d && (forall|m: int|
                j < m < sk.len() ==> #[trigger] sk[m].0 != d),
            None => forall|m: int| 0 <= m < sk.len() ==> #[trigger] sk[m].0 != d,
        },
    decreases sk.len(),
{
    if sk.len() == 0 {
    } else if sk.last().0 == d {
    } else {
        let sub = sk.drop_last();
        lemma_last_match_props(sub, d);
        match last_match(sub, d) {
            Some(j) => {
                assert forall|m: int| j < m < sk.len() implies #[trigger] sk[m].0 != d by {
                    if m < sk.len() - 1 {
                        assert(sub[m].0 != d);
                    }
                }
            },
            None => {
                assert forall|m: int| 0 <= m < sk.len() implies #[trigger] sk[m].0 != d by {
                    if m < sk.len() - 1 {
                        assert(sub[m].0 != d);
                    }
                }
            },
        }
    }
}

/// If no node at index `m` or later has name `d`, the lookup over the whole
/// sequence equals the lookup over the first `m` nodes.
pub proof fn lemma_last_match_take(sk: Seq<(Seq<char>, Seq<Seq<char>>)>, d: Seq<char>, m: int)
    requires
        0 <= m <= sk.len(),
        forall|idx: int| m <= idx < sk.len() ==> #[trigger] sk[idx].0 != d,
    ensures
        last_match(sk, d) == last_match(sk.take(m), d),
    decreases sk.len(),
{
    if m == sk.len() {
        assert(sk.take(m) =~= sk);
    } else {
        assert(sk.last().0 != d);
        lemma_last_match_take(sk.drop_last(), d, m);
        assert(sk.drop_last().take(m) =~= sk.take(m));
    }
}

/// Appending one edge bumps the in-degree count of its destination alone.
pub proof fn lemma_count_dst_push(es: Seq<(int, int)>, e: (int, int), j: int)
    ensures
        count_dst(es.push(e), j) == count_dst(es, j) + (if e.1 == j {
            1nat
        } else {
            0nat
        }),
{
    assert(es.push(e).drop_last() =~= es);
    assert(es.push(e).last() == e);
}

/// An in-degree count never exceeds the number of edges.
pub proof fn lemma_count_dst_le(es: Seq<(int, int)>, j: int)
    ensures
        count_dst(es, j) <= es.len(),
    decreases es.len(),
{
    if es.len() > 0 {
        lemma_count_dst_le(es.drop_last(), j);
    }
}

/// Node `i` contributes at most one edge per declared dependency.
pub proof fn lemma_node_edges_upto_len(sk: Seq<(Seq<char>, Seq<Seq<char>>)>, i: int, k: int)
    requires
        k >= 0,
    ensures
        node_edges_upto(sk, i, k).len() <= k,
    decreases k,
{
    if k > 0 {
        lemma_node_edges_upto_len(sk, i, k - 1);
    }
}

/// The first `n` nodes contribute at most one edge per declared dependency.
pub proof fn lemma_edges_upto_len(sk: Seq<(Seq<char>, Seq<Seq<char>>)>, n: int)
    requires
        n >= 0,
    ensures
        edges_upto(sk, n).len() <= total_deps_upto(sk, n),
    decreases n,
{
    if n > 0 {
        lemma_edges_upto_len(sk, n - 1);
        lemma_node_edges_upto_len(sk, n - 1, sk[n - 1].1.len() as int);
    }
}

/// Dependency totals grow with the number of nodes counted.
pub proof fn lemma_total_deps_upto_mono(sk: Seq<(Seq<char>, Seq<Seq<char>>)>, n: int, m: int)
    requires
        0 <= n <= m,
    ensures
        total_deps_upto(sk, n) <= total_deps_upto(sk, m),
    decreases m,
{
    if n < m {
        lemma_total_deps_upto_mono(sk, n, m - 1);
    }
}

/// Appending one entry bumps the multiplicity of its value alone.
pub proof fn lemma_count_eq_push(degs: Seq<nat>, d: nat, x: nat)
    ensures
        count_eq(degs.push(d), x) == count_eq(degs, x) + (if d == x {
            1nat
        } else {
            0nat
        }),
{
    assert(degs.push(d).drop_last() =~= degs);
    assert(degs.push(d).last() == d);
}

/// A multiplicity never exceeds the number of entries.
pub proof fn lemma_count_eq_le(degs: Seq<nat>, d: nat)
    ensures
        count_eq(degs, d) <= degs.len(),
    decreases degs.len(),
{
    if degs.len() > 0 {
        lemma_count_eq_le(degs.drop_last(), d);
    }
}

/// A value occurs in a sequence exactly when its multiplicity is positive.
pub proof fn lemma_count_eq_pos(degs: Seq<nat>, d: nat)
    ensures
        degs.contains(d) <==> count_eq(degs, d) > 0,
    decreases degs.len(),
{
    if degs.len() > 0 {
        let q = degs.drop_last();
        lemma_count_eq_pos(q, d);
        if degs.last() == d {
            assert(degs[degs.len() - 1] == d);
        } else {
            if degs.contains(d) {
                let i = choose|i: int| 0 <= i < degs.len() && degs[i] == d;
                assert(q[i] == d);
            }
            if q.contains(d) {
                let i = choose|i: int| 0 <= i < q.len() && q[i] == d;
                assert(degs[i] == d);
            }
        }
    }
}

/// The distinct-value list holds exactly the values of the sequence.
pub proof fn lemma_distinct_contains(degs: Seq<nat>, x: nat)
    ensures
        distinct_in_order(degs).contains(x) <==> degs.contains(x),
    decreases degs.len(),
{
    if degs.len() > 0 {
        let q = degs.drop_last();
        let l = degs.last();
        lemma_distinct_contains(q, x);
        if degs.contains(x) {
            let i = choose|i: int| 0 <= i < degs.len() && degs[i] == x;
            if i < degs.len() - 1 {
                assert(q[i] == x);
            } else {
                assert(x == l);
            }
        }
        if q.contains(x) {
            let i = choose|i: int| 0 <= i < q.len() && q[i] == x;
            assert(degs[i] == x);
        }
        if x == l {
            assert(degs[degs.len() - 1] == x);
        }
        if q.contains(l) {
            // distinct_in_order(degs) == distinct_in_order(q)
        } else {
            let dq = distinct_in_order(q);
            if dq.push(l).contains(x) {
                let i = choose|i: int| 0 <= i < dq.push(l).len() && dq.push(l)[i] == x;
                if i < dq.len() {
                    assert(dq[i] == x);
                }
            }
            if dq.contains(x) {
                let i = choose|i: int| 0 <= i < dq.len() && dq[i] == x;
                assert(dq.push(l)[i] == x);
            }
            assert(dq.push(l)[dq.len() as int] == l);
        }
    }
}

/// The distinct-value list has no repeated values.
pub proof fn lemma_distinct_nodup(degs: Seq<nat>)
    ensures
        forall|i: int, j: int|
            0 <= i < j < distinct_in_order(degs).len() ==> distinct_in_order(degs)[i]
                != distinct_in_order(degs)[j],
    decreases degs.len(),
{
    if degs.len() > 0 {
        let q = degs.drop_last();
        let l = degs.last();
        lemma_distinct_nodup(q);
        if q.contains(l) {
            assert(distinct_in_order(degs) == distinct_in_order(q));
            assert forall|i: int, j: int|
                0 <= i < j < distinct_in_order(degs).len() implies distinct_in_order(degs)[i]
                != distinct_in_order(degs)[j] by {
                assert(distinct_in_order(q)[i] != distinct_in_order(q)[j]);
            }
        } else {
            let dq = distinct_in_order(q);
            lemma_distinct_contains(q, l);
            assert(distinct_in_order(degs) == dq.push(l));
            assert forall|i: int, j: int|
                0 <= i < j < distinct_in_order(degs).len() implies distinct_in_order(degs)[i]
                != distinct_in_order(degs)[j] by {
                if j < dq.len() {
                    assert(dq[i] != dq[j]);
                } else {
                    assert(dq.push(l)[i] == dq[i]);
                    assert(dq.push(l)[j] == l);
                    if dq[i] == l {
                        assert(dq.contains(l));
                    }
                }
            }
        }
    }
}

/// Appending an already-seen value updates its histogram entry in place.
pub proof fn lemma_dist_of_push_existing(degs: Seq<nat>, d: nat, u: int)
    requires
        degs.contains(d),
        0 <= u < distinct_in_order(degs).len(),
        distinct_in_order(degs)[u] == d,
    ensures
        dist_of(degs.push(d)) == dist_of(degs).update(u, (d, count_eq(degs, d) + 1)),
{
    assert(degs.push(d).drop_last() =~= degs);
    let dq = distinct_in_order(degs);
    assert(distinct_in_order(degs.push(d)) == dq);
    lemma_distinct_nodup(degs);
    assert forall|t: int| 0 <= t < dq.len() implies #[trigger] dist_of(degs.push(d))[t]
        == dist_of(degs).update(u, (d, count_eq(degs, d) + 1))[t] by {
        lemma_count_eq_push(degs, d, dq[t]);
        if t != u {
            assert(dq[t] != d);
        }
    }
    assert(dist_of(degs.push(d)) =~= dist_of(degs).update(u, (d, count_eq(degs, d) + 1)));
}

/// Appending a new value appends a fresh histogram entry of multiplicity one.
pub proof fn lemma_dist_of_push_new(degs: Seq<nat>, d: nat)
    requires
        !degs.contains(d),
    ensures
        dist_of(degs.push(d)) == dist_of(degs).push((d, 1nat)),
{
    assert(degs.push(d).drop_last() =~= degs);
    let dq = distinct_in_order(degs);
    assert(distinct_in_order(degs.push(d)) == dq.push(d));
    lemma_count_eq_pos(degs, d);
    assert forall|t: int| 0 <= t < dq.push(d).len() implies #[trigger] dist_of(degs.push(d))[t]
        == dist_of(degs).push((d, 1nat))[t] by {
        lemma_count_eq_push(degs, d, dq.push(d)[t]);
        if t < dq.len() {
            lemma_distinct_contains(degs, dq[t]);
            assert(dq.contains(dq[t]));
            assert(dq[t] != d);
        } else {
            assert(dq.push(d)[t] == d);
        }
    }
    assert(dist_of(degs.push(d)) =~= dist_of(degs).push((d, 1nat)));
}

/// Replacing one histogram entry shifts the total by the multiplicity delta.
pub proof fn lemma_dist_total_update(dist: Seq<(nat, nat)>, i: int, v: (nat, nat))
    requires
        0 <= i < dist.len(),
    ensures
        dist_total(dist.update(i, v)) + dist[i].1 == dist_total(dist) + v.1,
    decreases dist.len(),
{
    if i == dist.len() - 1 {
        assert(dist.update(i, v).drop_last() =~= dist.drop_last());
        assert(dist.update(i, v).last() == v);
    } else {
        assert(dist.update(i, v).drop_last() =~= dist.drop_last().update(i, v));
        assert(dist.update(i, v).last() == dist.last());
        lemma_dist_total_update(dist.drop_last(), i, v);
    }
}

/// The multiplicities of a histogram add up to the number of entries
/// tabulated.
pub proof fn lemma_dist_total_of(degs: Seq<nat>)
    ensures
        dist_total(dist_of(degs)) == degs.len(),
    decreases degs.len(),
{
    if degs.len() == 0 {
        assert(dist_of(degs) =~= Seq::<(nat, nat)>::empty());
    } else {
        let q = degs.drop_last();
        let l = degs.last();
        lemma_dist_total_of(q);
        assert(q.push(l) =~= degs);
        if q.contains(l) {
            lemma_distinct_contains(q, l);
            let dq = distinct_in_order(q);
            let u = choose|u: int| 0 <= u < dq.len() && dq[u] == l;
            lemma_dist_of_push_existing(q, l, u);
            assert(dist_of(degs) == dist_of(q).update(u, (l, count_eq(q, l) + 1)));
            assert(dist_of(q)[u] == (dq[u], count_eq(q, dq[u])));
            lemma_dist_total_update(dist_of(q), u, (l, count_eq(q, l) + 1));
        } else {
            lemma_dist_of_push_new(q, l);
            assert(dist_of(degs) == dist_of(q).push((l, 1nat)));
            assert(dist_of(q).push((l, 1nat)).drop_last() =~= dist_of(q));
        }
    }
}

/// Appending an edge raises exactly one per-index in-degree sum term.
pub proof fn lemma_sum_count_dst_push(es: Seq<(int, int)>, e: (int, int), m: int)
    requires
        m >= 0,
    ensures
        sum_count_dst(es.push(e), m) == sum_count_dst(es, m) + (if 0 <= e.1 < m {
            1nat
        } else {
            0nat
        }),
    decreases m,
{
    if m > 0 {
        lemma_sum_count_dst_push(es, e, m - 1);
        lemma_count_dst_push(es, e, m - 1);
    }
}

/// When every edge ends below `n`, the per-index in-degree sums add up to
/// the number of edges.
pub proof fn lemma_sum_count_dst_total(es: Seq<(int, int)>, n: int)
    requires
        n >= 0,
        forall|k: int| 0 <= k < es.len() ==> 0 <= #[trigger] es[k].1 < n,
    ensures
        sum_count_dst(es, n) == es.len(),
    decreases es.len(),
{
    if es.len() == 0 {
        assert(es =~= Seq::<(int, int)>::empty());
        lemma_sum_count_dst_empty(n);
    } else {
        let q = es.drop_last();
        assert(forall|k: int| 0 <= k < q.len() ==> 0 <= #[trigger] q[k].1 < n) by {
            assert(forall|k: int| 0 <= k < q.len() ==> q[k] == es[k]);
        }
        lemma_sum_count_dst_total(q, n);
        assert(q.push(es.last()) =~= es);
        assert(0 <= es[es.len() - 1].1 < n);
        lemma_sum_count_dst_push(q, es.last(), n);
    }
}

/// Without edges every in-degree sum is zero.
pub proof fn lemma_sum_count_dst_empty(n: int)
    ensures
        sum_count_dst(Seq::<(int, int)>::empty(), n) == 0,
    decreases n,
{
    if n > 0 {
        lemma_sum_count_dst_empty(n - 1);
    }
}

/// Stored in-degrees that agree with the edge relation add up to the same
/// total as the per-index in-degree sums.
pub proof fn lemma_sum_in_degrees_eq(s: Seq<NodeV>, es: Seq<(int, int)>)
    requires
        forall|i: int| 0 <= i < s.len() ==> #[trigger] s[i].in_degree == count_dst(es, i),
    ensures
        sum_in_degrees(s) == sum_count_dst(es, s.len() as int),
    decreases s.len(),
{
    if s.len() > 0 {
        let q = s.drop_last();
        assert(forall|i: int| 0 <= i < q.len() ==> #[trigger] q[i].in_degree == count_dst(es, i))
            by {
            assert(forall|i: int| 0 <= i < q.len() ==> q[i] == s[i]);
        }
        lemma_sum_in_degrees_eq(q, es);
        assert(s.last().in_degree == count_dst(es, s.len() - 1));
    }
}

/// Every edge runs from the node that declared the dependency to a node
/// whose name is that dependency.
pub proof fn lemma_node_edges_upto_valid(sk: Seq<(Seq<char>, Seq<Seq<char>>)>, i: int, k: int)
    requires
        0 <= i < sk.len(),
        0 <= k <= sk[i].1.len(),
    ensures
        forall|t: int| 0 <= t < node_edges_upto(sk, i, k).len() ==> {
            let e = #[trigger] node_edges_upto(sk, i, k)[t];
            e.0 == i && 0 <= e.1 < sk.len() && sk[i].1.contains(sk[e.1].0)
        },
    decreases k,
{
    if k > 0 {
        lemma_node_edges_upto_valid(sk, i, k - 1);
        let d = sk[i].1[k - 1];
        lemma_last_match_props(sk, d);
        match last_match(sk, d) {
            Some(j) => {
                let prev = node_edges_upto(sk, i, k - 1);
                assert(node_edges_upto(sk, i, k) == prev.push((i, j)));
                assert(sk[i].1.contains(sk[j].0)) by {
                    assert(sk[i].1[k - 1] == sk[j].0);
                }
                assert forall|t: int| 0 <= t < node_edges_upto(sk, i, k).len() implies {
                    let e = #[trigger] node_edges_upto(sk, i, k)[t];
                    e.0 == i && 0 <= e.1 < sk.len() && sk[i].1.contains(sk[e.1].0)
                } by {
                    if t < prev.len() {
                        assert(node_edges_upto(sk, i, k)[t] == prev[t]);
                    } else {
                        assert(node_edges_upto(sk, i, k)[t] == (i, j));
                    }
                }
            },
            None => {
                let prev = node_edges_upto(sk, i, k - 1);
                assert(node_edges_upto(sk, i, k) == prev);
                assert forall|t: int| 0 <= t < node_edges_upto(sk, i, k).len() implies {
                    let e = #[trigger] node_edges_upto(sk, i, k)[t];
                    e.0 == i && 0 <= e.1 < sk.len() && sk[i].1.contains(sk[e.1].0)
                } by {
                    assert(node_edges_upto(sk, i, k)[t] == prev[t]);
                }
            },
        }
    }
}

// ---------------------------------------------------------------------------
// The graph type
// ---------------------------------------------------------------------------
/// The (source index, destination index) pairs a vector of edge endpoints
/// stands for.
pub open spec fn endpoints_view(v: Seq<(u32, u32)>) -> Seq<(int, int)> {
    Seq::new(v.len(), |k: int| (v[k].0 as int, v[k].1 as int))
}

/// The histogram a vector of `(degree, count)` entries stands for.
pub open spec fn dist_view(v: Seq<(u32, u32)>) -> Seq<(nat, nat)> {
    Seq::new(v.len(), |k: int| (v[k].0 as nat, v[k].1 as nat))
}

/// The degree sequence a vector of counters stands for.
pub open spec fn degs_view(v: Seq<u32>) -> Seq<nat> {
    Seq::new(v.len(), |k: int| v[k] as nat)
}

/// Mathematical value of a [`BinGraph`].
#[verifier::ext_equal]
pub struct GraphV {
    pub nodes: Seq<NodeV>,
    pub edges: Seq<(Seq<char>, Seq<char>)>,
    pub edge_endpoints: Seq<(int, int)>,
    pub degree_distribution: Seq<(nat, nat)>,
    pub num_nodes: nat,
    pub num_edges: nat,
}

/// The dependency graph over a set of scanned artifacts: the node list in
/// scan order, the resolved edges both as name pairs and as index pairs,
/// the in-degree histogram, and the node and edge counts.
///
/// The report's `average_degree` is the ratio of the two counts (node
/// count over edge count); being a floating-point value it is computed
/// where the report is serialized.
pub struct BinGraph {
    nodes: Vec<BinNode>,
    edges: Vec<(String, String)>,
    edge_endpoints: Vec<(u32, u32)>,
    degree_distribution: Vec<(u32, u32)>,
    num_nodes: u32,
    num_edges: u32,
}

impl View for BinGraph {
    type V = GraphV;

    closed spec fn view(&self) -> GraphV {
        GraphV {
            nodes: self.nodes.deep_view(),
            edges: Seq::new(self.edges@.len(), |k: int| (self.edges@[k].0@, self.edges@[k].1@)),
            edge_endpoints: endpoints_view(self.edge_endpoints@),
            degree_distribution: dist_view(self.degree_distribution@),
            num_nodes: self.num_nodes as nat,
            num_edges: self.num_edges as nat,
        }
    }
}

impl BinGraph {
    /// The structural invariant every constructed graph satisfies: the edge
    /// relation is exactly the resolution of the declared dependencies over
    /// the node names, every stored in-degree counts the edges ending at
    /// that node, every stored out-degree counts that node's declared
    /// dependencies, the histogram tabulates the stored in-degrees, and the
    /// two counts match the two lists.
    pub open spec fn inv(self) -> bool {
        let g = self.view();
        &&& g.num_nodes == g.nodes.len()
        &&& g.edge_endpoints == graph_edges(skeleton(g.nodes))
        &&& g.num_edges == g.edge_endpoints.len()
        &&& g.edges.len() == g.edge_endpoints.len()
        &&& (forall|k: int|
            0 <= k < g.edge_endpoints.len() ==> 0 <= (#[trigger] g.edge_endpoints[k]).0
                < g.nodes.len() && 0 <= g.edge_endpoints[k].1 < g.nodes.len())
        &&& (forall|k: int|
            0 <= k < g.edges.len() ==> #[trigger] g.edges[k] == (
                g.nodes[g.edge_endpoints[k].0].name,
                g.nodes[g.edge_endpoints[k].1].name,
            ))
        &&& (forall|i: int|
            0 <= i < g.nodes.len() ==> (#[trigger] g.nodes[i]).in_degree == count_dst(
                g.edge_endpoints,
                i,
            ))
        &&& (forall|i: int|
            0 <= i < g.nodes.len() ==> (#[trigger] g.nodes[i]).out_degree
                == g.nodes[i].dependencies.len())
        &&& g.degree_distribution == dist_of(in_degs(g.nodes))
    }
}

/// What [`BinGraph::new`] builds from the node sequence `s`: every field of
/// the result is a function of `s` alone, so two builds over equal inputs
/// yield equal graphs.
pub open spec fn built_from(g: GraphV, s: Seq<NodeV>) -> bool {
    let es = graph_edges(skeleton(s));
    &&& g.nodes.len() == s.len()
    &&& (forall|i: int|
        0 <= i < s.len() ==> #[trigger] g.nodes[i] == (NodeV {
            in_degree: count_dst(es, i),
            out_degree: s[i].dependencies.len(),
            ..s[i]
        }))
    &&& g.edge_endpoints == es
    &&& g.num_nodes == s.len()
    &&& g.num_edges == es.len()
    &&& g.edges.len() == es.len()
    &&& (forall|k: int|
        0 <= k < es.len() ==> #[trigger] g.edges[k] == (
            s[es[k].0].name,
            s[es[k].1].name,
        ))
    &&& g.degree_distribution == dist_of(Seq::new(s.len(), |i: int| count_dst(es, i)))
}

/// Every edge of the graph joins valid node indices, and its destination's
/// name stands verbatim in its source's declared dependency list.
pub proof fn lemma_edges_upto_valid(sk: Seq<(Seq<char>, Seq<Seq<char>>)>, n: int)
    requires
        0 <= n <= sk.len(),
    ensures
        forall|t: int| 0 <= t < edges_upto(sk, n).len() ==> {
            let e = #[trigger] edges_upto(sk, n)[t];
            0 <= e.0 < n && 0 <= e.1 < sk.len() && sk[e.0].1.contains(sk[e.1].0)
        },
    decreases n,
{
    if n > 0 {
        lemma_edges_upto_valid(sk, n - 1);
        lemma_node_edges_upto_valid(sk, n - 1, sk[n - 1].1.len() as int);
        let prev = edges_upto(sk, n - 1);
        let own = node_edges(sk, n - 1);
        assert forall|t: int| 0 <= t < edges_upto(sk, n).len() implies {
            let e = #[trigger] edges_upto(sk, n)[t];
            0 <= e.0 < n && 0 <= e.1 < sk.len() && sk[e.0].1.contains(sk[e.1].0)
        } by {
            if t < prev.len() {
                assert(edges_upto(sk, n)[t] == prev[t]);
            } else {
                assert(edges_upto(sk, n)[t] == own[t - prev.len()]);
            }
        }
    }
}

// ---------------------------------------------------------------------------
// Construction
// ---------------------------------------------------------------------------
/// The index of the last node named `d`, scanning from the back.
fn find_last(nodes: &Vec<BinNode>, d: &String) -> (r: Option<usize>)
    ensures
        match r {
            Some(j) => j < nodes@.len() && last_match(skeleton(nodes.deep_view()), d@) == Some(
                j as int,
            ),
            None => last_match(skeleton(nodes.deep_view()), d@) is None,
        },
{
    let ghost sk = skeleton(nodes.deep_view());
    let mut j: usize = nodes.len();
    while j > 0
        invariant
            j <= nodes@.len(),
            sk == skeleton(nodes.deep_view()),
            sk.len() == nodes@.len(),
            forall|m: int| j <= m < sk.len() ==> (#[trigger] sk[m]).0 != d@,
        decreases j,
    {
        j = j - 1;
        if nodes[j].name_matches(d) {
            proof {
                assert(sk[j as int].0 == d@);
                lemma_last_match_take(sk, d@, j + 1);
                assert(sk.take(j + 1).last() == sk[j as int]);
                assert(last_match(sk.take(j + 1), d@) == Some(j as int));
            }
            return Some(j);
        }
        proof {
            assert(sk[j as int].0 != d@);
        }
    }
    proof {
        lemma_last_match_take(sk, d@, 0);
        assert(sk.take(0) =~= Seq::<(Seq<char>, Seq<Seq<char>>)>::empty());
    }
    None
}

/// The index of the histogram entry for degree `d`, if one exists.
fn find_dist_key(dist: &Vec<(u32, u32)>, d: u32) -> (r: Option<usize>)
    ensures
        match r {
            Some(p) => p < dist@.len() && dist@[p as int].0 == d,
            None => forall|m: int| 0 <= m < dist@.len() ==> (#[trigger] dist@[m]).0 != d,
        },
{
    let mut p: usize = 0;
    while p < dist.len()
        invariant
            p <= dist@.len(),
            forall|m: int| 0 <= m < p ==> (#[trigger] dist@[m]).0 != d,
        decreases dist@.len() - p,
    {
        if dist[p].0 == d {
            return Some(p);
        }
        p = p + 1;
    }
    None
}

impl BinGraph {
    /// Builds the dependency graph over the scanned nodes.
    ///
    /// Every node of the input becomes a node of the graph, in scan order.
    /// For every node and every name in its declared dependency list, in
    /// order, the name is resolved against the node names (exact match,
    /// last-write-wins on collisions): a hit adds one edge and raises the
    /// destination's in-degree, a miss adds nothing and raises no error.
    /// Out-degrees count declared dependencies whether or not they
    /// resolved. The two size bounds keep every stored count inside `u32`.
    pub fn new(nodes: Vec<BinNode>) -> (r: BinGraph)
        requires
            nodes.deep_view().len() <= u32::MAX,
            total_deps(skeleton(nodes.deep_view())) <= u32::MAX,
        ensures
            r.inv(),
            built_from(r@, nodes.deep_view()),
    {
        let ghost s = nodes.deep_view();
        let ghost sk = skeleton(s);
        let n = nodes.len();
        proof {
            assert(s.len() == n);
            assert(sk.len() == n);
        }
        // In-degree accumulator, one counter per node, initially zero.
        let mut in_deg: Vec<u32> = Vec::new();
        let mut t: usize = 0;
        while t < n
            invariant
                t <= n,
                in_deg@.len() == t,
                forall|m: int| 0 <= m < t ==> in_deg@[m] == 0u32,
            decreases n - t,
        {
            in_deg.push(0);
            t = t + 1;
        }
        // Resolve every declared dependency of every node, in order.
        let mut edge_idx: Vec<(u32, u32)> = Vec::new();
        let mut edge_names: Vec<(String, String)> = Vec::new();
        let mut i: usize = 0;
        proof {
            assert forall|m: int| 0 <= m < n implies in_deg@[m] as nat == count_dst(
                endpoints_view(edge_idx@),
                m,
            ) by {
                assert(endpoints_view(edge_idx@) =~= Seq::<(int, int)>::empty());
            }
        }
        while i < n
            invariant
                s == nodes.deep_view(),
                sk == skeleton(s),
                n == nodes@.len(),
                s.len() == n,
                sk.len() == n,
                n <= u32::MAX,
                total_deps(sk) <= u32::MAX,
                i <= n,
                endpoints_view(edge_idx@) == edges_upto(sk, i as int),
                edge_names@.len() == edge_idx@.len(),
                forall|k: int|
                    0 <= k < edge_idx@.len() ==> (#[trigger] edge_idx@[k]).0 < n
                        && edge_idx@[k].1 < n,
                forall|k: int|
                    0 <= k < edge_names@.len() ==> (#[trigger] edge_names@[k]).0@ == s[edge_idx@[k].0
                        as int].name && edge_names@[k].1@ == s[edge_idx@[k].1 as int].name,
                in_deg@.len() == n,
                forall|m: int|
                    0 <= m < n ==> (#[trigger] in_deg@[m]) as nat == count_dst(
                        endpoints_view(edge_idx@),
                        m,
                    ),
                edge_idx@.len() <= total_deps_upto(sk, i as int),
            decreases n - i,
        {
            let deps = nodes[i].get_dependencies();
            let m = deps.len();
            proof {
                assert(deps.deep_view() == s[i as int].dependencies);
                assert(m == sk[i as int].1.len());
            }
            let mut k: usize = 0;
            proof {
                assert(node_edges_upto(sk, i as int, 0) =~= Seq::<(int, int)>::empty());
                assert(endpoints_view(edge_idx@) =~= edges_upto(sk, i as int) + node_edges_upto(
                    sk,
                    i as int,
                    0,
                ));
            }
            while k < m
                invariant
                    s == nodes.deep_view(),
                    sk == skeleton(s),
                    n == nodes@.len(),
                    s.len() == n,
                    sk.len() == n,
                    n <= u32::MAX,
                    total_deps(sk) <= u32::MAX,
                    i < n,
                    k <= m,
                    deps.deep_view() == s[i as int].dependencies,
                    m == sk[i as int].1.len(),
                    endpoints_view(edge_idx@) == edges_upto(sk, i as int) + node_edges_upto(
                        sk,
                        i as int,
                        k as int,
                    ),
                    edge_names@.len() == edge_idx@.len(),
                    forall|q: int|
                        0 <= q < edge_idx@.len() ==> (#[trigger] edge_idx@[q]).0 < n
                            && edge_idx@[q].1 < n,
                    forall|q: int|
                        0 <= q < edge_names@.len() ==> (#[trigger] edge_names@[q]).0@ == s[edge_idx@[
                            q
                        ].0 as int].name && edge_names@[q].1@ == s[edge_idx@[q].1 as int].name,
                    in_deg@.len() == n,
                    forall|q: int|
                        0 <= q < n ==> (#[trigger] in_deg@[q]) as nat == count_dst(
                            endpoints_view(edge_idx@),
                            q,
                        ),
                    edge_idx@.len() <= total_deps_upto(sk, i as int) + k,
                decreases m - k,
            {
                let d: &String = &deps[k];
                proof {
                    assert(d@ == sk[i as int].1[k as int]);
                    lemma_total_deps_upto_mono(sk, i as int + 1, n as int);
                }
                let ghost old_es = endpoints_view(edge_idx@);
                match find_last(&nodes, d) {
                    Some(j) => {
                        proof {
                            assert(last_match(sk, sk[i as int].1[k as int]) == Some(j as int));
                            assert(node_edges_upto(sk, i as int, k + 1) == node_edges_upto(
                                sk,
                                i as int,
                                k as int,
                            ).push((i as int, j as int)));
                        }
                        edge_idx.push((i as u32, j as u32));
                        edge_names.push((nodes[i].name(), nodes[j].name()));
                        proof {
                            assert(endpoints_view(edge_idx@) =~= old_es.push(
                                (i as int, j as int),
                            ));
                        }
                        let c = in_deg[j];
                        proof {
                            lemma_count_dst_le(old_es, j as int);
                        }
                        in_deg.set(j, c + 1);
                        proof {
                            assert forall|q: int| 0 <= q < n implies (#[trigger] in_deg@[q]) as nat
                                == count_dst(endpoints_view(edge_idx@), q) by {
                                lemma_count_dst_push(old_es, (i as int, j as int), q);
                            }
                        }
                    },
                    None => {
                        proof {
                            assert(last_match(sk, sk[i as int].1[k as int]) is None);
                            assert(node_edges_upto(sk, i as int, k + 1) == node_edges_upto(
                                sk,
                                i as int,
                                k as int,
                            ));
                        }
                    },
                }
                k = k + 1;
            }
            proof {
                assert(node_edges_upto(sk, i as int, m as int) == node_edges(sk, i as int));
                assert(edges_upto(sk, i as int + 1) == edges_upto(sk, i as int) + node_edges(
                    sk,
                    i as int,
                ));
            }
            i = i + 1;
        }
        let ghost es = endpoints_view(edge_idx@);
        proof {
            assert(es == edges_upto(sk, n as int));
            assert(es == graph_edges(sk));
            lemma_edges_upto_len(sk, n as int);
        }
        let num_edges_u = edge_idx.len();
        // Annotate every node with its in- and out-degree.
        let mut out_nodes: Vec<BinNode> = Vec::new();
        let mut i2: usize = 0;
        while i2 < n
            invariant
                s == nodes.deep_view(),
                sk == skeleton(s),
                n == nodes@.len(),
                s.len() == n,
                sk.len() == n,
                total_deps(sk) <= u32::MAX,
                i2 <= n,
                in_deg@.len() == n,
                forall|m: int|
                    0 <= m < n ==> (#[trigger] in_deg@[m]) as nat == count_dst(es, m),
                out_nodes.deep_view().len() == i2,
                forall|m: int|
                    0 <= m < i2 ==> #[trigger] out_nodes.deep_view()[m] == (NodeV {
                        in_degree: in_deg@[m] as nat,
                        out_degree: s[m].dependencies.len(),
                        ..s[m]
                    }),
            decreases n - i2,
        {
            let od_usize = nodes[i2].get_dependencies().len();
            proof {
                assert(od_usize == sk[i2 as int].1.len());
                lemma_total_deps_upto_mono(sk, i2 as int + 1, n as int);
                assert(sk[i2 as int].1.len() <= total_deps_upto(sk, i2 as int + 1));
            }
            let od = od_usize as u32;
            let mut nn = nodes[i2].clone();
            proof {
                assert(nn@ == s[i2 as int]);
            }
            nn.set_in_degree(in_deg[i2]);
            nn.set_out_degree(od);
            proof {
                assert(nn@ == (NodeV {
                    in_degree: in_deg@[i2 as int] as nat,
                    out_degree: s[i2 as int].dependencies.len(),
                    ..s[i2 as int]
                }));
            }
            let ghost old_dv = out_nodes.deep_view();
            out_nodes.push(nn);
            proof {
                assert(out_nodes.deep_view() =~= old_dv.push(nn@));
            }
            i2 = i2 + 1;
        }
        // Tabulate the in-degree histogram.
        let mut dist: Vec<(u32, u32)> = Vec::new();
        let ghost degs = degs_view(in_deg@);
        let mut i3: usize = 0;
        proof {
            assert(degs.take(0) =~= Seq::<nat>::empty());
            assert(dist_of(degs.take(0)) =~= Seq::<(nat, nat)>::empty());
            assert(dist_view(dist@) =~= Seq::<(nat, nat)>::empty());
        }
        while i3 < n
            invariant
                n <= u32::MAX,
                in_deg@.len() == n,
                degs == degs_view(in_deg@),
                degs.len() == n,
                i3 <= n,
                dist_view(dist@) == dist_of(degs.take(i3 as int)),
            decreases n - i3,
        {
            let d = in_deg[i3];
            let ghost prefix = degs.take(i3 as int);
            let ghost dn = d as nat;
            proof {
                assert(degs.take(i3 as int + 1) =~= prefix.push(dn));
                lemma_distinct_nodup(prefix);
            }
            match find_dist_key(&dist, d) {
                Some(p) => {
                    proof {
                        assert(dist_of(prefix).len() == distinct_in_order(prefix).len());
                        assert(dist_of(prefix)[p as int] == (
                            distinct_in_order(prefix)[p as int],
                            count_eq(prefix, distinct_in_order(prefix)[p as int]),
                        ));
                        assert(dist_view(dist@)[p as int] == (dist@[p as int].0 as nat, dist@[p
                            as int].1 as nat));
                        assert(dist_view(dist@)[p as int] == dist_of(prefix)[p as int]);
                        assert(distinct_in_order(prefix)[p as int] == dn);
                        assert(distinct_in_order(prefix).contains(dn));
                        lemma_distinct_contains(prefix, dn);
                        lemma_dist_of_push_existing(prefix, dn, p as int);
                        lemma_count_eq_le(prefix, dn);
                    }
                    let c = dist[p].1;
                    dist.set(p, (d, c + 1));
                    proof {
                        assert(dist_view(dist@) =~= dist_of(prefix).update(
                            p as int,
                            (dn, count_eq(prefix, dn) + 1),
                        ));
                    }
                },
                None => {
                    proof {
                        let dq2 = distinct_in_order(prefix);
                        assert(dist_of(prefix).len() == dq2.len());
                        assert(dist@.len() == dq2.len());
                        assert forall|x: nat| dq2.contains(x) implies x != dn by {
                            let q = choose|q: int| 0 <= q < dq2.len() && dq2[q] == x;
                            assert(dist_of(prefix)[q] == (dq2[q], count_eq(prefix, dq2[q])));
                            assert(dist_view(dist@)[q] == (dist@[q].0 as nat, dist@[q].1 as nat));
                            assert(dist@[q].0 as nat == x);
                            assert(dist@[q].0 != d);
                        }
                        if prefix.contains(dn) {
                            lemma_distinct_contains(prefix, dn);
                        }
                        lemma_dist_of_push_new(prefix, dn);
                    }
                    dist.push((d, 1));
                    proof {
                        assert(dist_view(dist@) =~= dist_of(prefix).push((dn, 1nat)));
                    }
                },
            }
            i3 = i3 + 1;
        }
        proof {
            assert(degs.take(n as int) =~= degs);
        }
        // Assemble the graph.
        let g = BinGraph {
            nodes: out_nodes,
            edges: edge_names,
            edge_endpoints: edge_idx,
            degree_distribution: dist,
            num_nodes: n as u32,
            num_edges: num_edges_u as u32,
        };
        proof {
            let gv = g@;
            assert(skeleton(gv.nodes) =~= sk);
            assert(in_degs(gv.nodes) =~= degs);
            assert(in_degs(gv.nodes) =~= Seq::new(s.len(), |q: int| count_dst(es, q)));
            assert(built_from(gv, s));
            assert(g.inv());
        }
        g
    }

    /// The nodes of the graph, in scan order.
    pub fn nodes(&self) -> (r: &Vec<BinNode>)
        ensures
            r.deep_view() == self@.nodes,
    {
        &self.nodes
    }

    /// The resolved edges as (source name, destination name) pairs.
    pub fn edges(&self) -> (r: &Vec<(String, String)>)
        ensures
            r@.len() == self@.edges.len(),
            forall|k: int|
                0 <= k < r@.len() ==> ((#[trigger] r@[k]).0@, r@[k].1@) == self@.edges[k],
    {
        &self.edges
    }

    /// The resolved edges as (source index, destination index) pairs into
    /// the node list.
    pub fn edge_endpoints(&self) -> (r: &Vec<(u32, u32)>)
        ensures
            endpoints_view(r@) == self@.edge_endpoints,
    {
        &self.edge_endpoints
    }

    /// The in-degree histogram: `(degree, node count)` entries, in order of
    /// first occurrence over the node list.
    pub fn degree_distribution(&self) -> (r: &Vec<(u32, u32)>)
        ensures
            dist_view(r@) == self@.degree_distribution,
    {
        &self.degree_distribution
    }

    pub fn num_nodes(&self) -> (r: u32)
        ensures
            r as nat == self@.num_nodes,
    {
        self.num_nodes
    }

    pub fn num_edges(&self) -> (r: u32)
        ensures
            r as nat == self@.num_edges,
    {
        self.num_edges
    }
}

// ---------------------------------------------------------------------------
// Centrality annotation
// ---------------------------------------------------------------------------
/// The node `n` after the per-measure score lists have been consulted for
/// node index `i`: a list that covers `i` with a present entry sets the
/// score, anything else leaves the old score in place.
pub open spec fn with_scores(
    n: NodeV,
    b: Seq<Option<Seq<char>>>,
    k: Option<Seq<Seq<char>>>,
    e: Option<Seq<Seq<char>>>,
    c: Seq<Option<Seq<char>>>,
    i: int,
) -> NodeV {
    NodeV {
        betweenness_centrality: if 0 <= i < b.len() && b[i] is Some {
            b[i]
        } else {
            n.betweenness_centrality
        },
        katz_centrality: match k {
            Some(v) => if 0 <= i < v.len() {
                Some(v[i])
            } else {
                n.katz_centrality
            },
            None => n.katz_centrality,
        },
        eigen_centrality: match e {
            Some(v) => if 0 <= i < v.len() {
                Some(v[i])
            } else {
                n.eigen_centrality
            },
            None => n.eigen_centrality,
        },
        closeness_centrality: if 0 <= i < c.len() && c[i] is Some {
            c[i]
        } else {
            n.closeness_centrality
        },
        ..n
    }
}

impl BinGraph {
    /// Merges the rendered centrality scores onto the nodes.
    ///
    /// Betweenness and closeness hand one optional score per node; Katz and
    /// eigenvector hand either a full score list or, when the measure did
    /// not converge, nothing, in which case every node keeps its old (unset)
    /// score. Nothing else of the graph changes.
    pub fn apply_centralities(
        &mut self,
        betweenness: &Vec<Option<String>>,
        katz: &Option<Vec<String>>,
        eigen: &Option<Vec<String>>,
        closeness: &Vec<Option<String>>,
    )
        ensures
            final(self)@.nodes.len() == old(self)@.nodes.len(),
            forall|i: int|
                0 <= i < old(self)@.nodes.len() ==> #[trigger] final(self)@.nodes[i] == with_scores(
                    old(self)@.nodes[i],
                    betweenness.deep_view(),
                    katz.deep_view(),
                    eigen.deep_view(),
                    closeness.deep_view(),
                    i,
                ),
            final(self)@.edges == old(self)@.edges,
            final(self)@.edge_endpoints == old(self)@.edge_endpoints,
            final(self)@.degree_distribution == old(self)@.degree_distribution,
            final(self)@.num_nodes == old(self)@.num_nodes,
            final(self)@.num_edges == old(self)@.num_edges,
            old(self).inv() ==> final(self).inv(),
    {
        let ghost old_g = self@;
        let n = self.nodes.len();
        let mut new_nodes: Vec<BinNode> = Vec::new();
        let mut i: usize = 0;
        while i < n
            invariant
                n == self.nodes@.len(),
                self == old(self),
                i <= n,
                new_nodes.deep_view().len() == i,
                forall|m: int|
                    0 <= m < i ==> #[trigger] new_nodes.deep_view()[m] == with_scores(
                        old(self)@.nodes[m],
                        betweenness.deep_view(),
                        katz.deep_view(),
                        eigen.deep_view(),
                        closeness.deep_view(),
                        m,
                    ),
            decreases n - i,
        {
            let mut nn = self.nodes[i].clone();
            proof {
                assert(nn@ == old(self)@.nodes[i as int]);
            }
            if i < betweenness.len() {
                if let Some(v) = &betweenness[i] {
                    nn.set_betweeness_centrality(v.clone());
                }
            }
            match katz {
                Some(vec) => {
                    if i < vec.len() {
                        nn.set_katz_centrality(vec[i].clone());
                    }
                },
                None => {},
            }
            match eigen {
                Some(vec) => {
                    if i < vec.len() {
                        nn.set_eigen_centrality(vec[i].clone());
                    }
                },
                None => {},
            }
            if i < closeness.len() {
                if let Some(v) = &closeness[i] {
                    nn.set_closeness_centrality(v.clone());
                }
            }
            proof {
                assert(nn@ == with_scores(
                    old(self)@.nodes[i as int],
                    betweenness.deep_view(),
                    katz.deep_view(),
                    eigen.deep_view(),
                    closeness.deep_view(),
                    i as int,
                ));
            }
            let ghost old_dv = new_nodes.deep_view();
            new_nodes.push(nn);
            proof {
                assert(new_nodes.deep_view() =~= old_dv.push(nn@));
            }
            i = i + 1;
        }
        self.nodes = new_nodes;
        proof {
            assert(final(self)@.edges =~= old_g.edges);
            assert(final(self)@.edge_endpoints =~= old_g.edge_endpoints);
            assert(final(self)@.degree_distribution =~= old_g.degree_distribution);
            if old(self).inv() {
                assert(skeleton(final(self)@.nodes) =~= skeleton(old_g.nodes));
                assert(in_degs(final(self)@.nodes) =~= in_degs(old_g.nodes));
                assert(final(self).inv());
            }
        }
    }
}

// ---------------------------------------------------------------------------
// GraphViz rendering
// ---------------------------------------------------------------------------
/// The one GraphViz edge statement a resolved edge renders to.
pub open spec fn gv_edge_stmt(e: (Seq<char>, Seq<char>)) -> Seq<char> {
    "  \""@ + e.0 + "\" -> \""@ + e.1 + "\"\n"@
}

/// The node statements of all nodes, in node order.
pub open spec fn gv_node_stmts(nodes: Seq<NodeV>) -> Seq<char>
    decreases nodes.len(),
{
    if nodes.len() == 0 {
        Seq::empty()
    } else {
        gv_node_stmts(nodes.drop_last()) + gv_node_stmt(nodes.last())
    }
}

/// The edge statements of all edges, in edge order.
pub open spec fn gv_edge_stmts(es: Seq<(Seq<char>, Seq<char>)>) -> Seq<char>
    decreases es.len(),
{
    if es.len() == 0 {
        Seq::empty()
    } else {
        gv_edge_stmts(es.drop_last()) + gv_edge_stmt(es.last())
    }
}

/// The complete GraphViz document of a graph: a `digraph` block holding
/// exactly one node statement per node, then exactly one edge statement per
/// resolved edge.
pub open spec fn gv_string(g: GraphV) -> Seq<char> {
    "digraph bingraph {\n\n"@ + gv_node_stmts(g.nodes) + "\n\n"@ + gv_edge_stmts(g.edges)
        + "\n}"@
}

/// One GraphViz edge statement.
fn format_edge(src: &String, dst: &String) -> (r: String)
    ensures
        r@ == gv_edge_stmt((src@, dst@)),
{
    let mut r = String::from_str("  \"");
    r.append(src.as_str());
    r.append("\" -> \"");
    r.append(dst.as_str());
    r.append("\"\n");
    proof {
        assert(r@ =~= gv_edge_stmt((src@, dst@)));
    }
    r
}

impl BinGraph {
    /// Renders the graph as a GraphViz `digraph` document.
    pub fn serialize_graphviz(&self) -> (r: String)
        ensures
            r@ == gv_string(self@),
    {
        let mut g = String::from_str("digraph bingraph {\n\n");
        let n = self.nodes.len();
        let mut i: usize = 0;
        proof {
            assert(self@.nodes.take(0) =~= Seq::<NodeV>::empty());
            assert(g@ =~= "digraph bingraph {\n\n"@ + gv_node_stmts(self@.nodes.take(0)));
        }
        while i < n
            invariant
                n == self.nodes@.len(),
                self@.nodes.len() == n,
                i <= n,
                g@ == "digraph bingraph {\n\n"@ + gv_node_stmts(self@.nodes.take(i as int)),
            decreases n - i,
        {
            let stmt = self.nodes[i].format_graphviz();
            proof {
                assert(self.nodes[i as int]@ == self@.nodes[i as int]);
            }
            g.append(stmt.as_str());
            proof {
                let tt = self@.nodes.take(i as int + 1);
                assert(tt.drop_last() =~= self@.nodes.take(i as int));
                assert(tt.last() == self@.nodes[i as int]);
                assert(gv_node_stmts(tt) == gv_node_stmts(self@.nodes.take(i as int))
                    + gv_node_stmt(self@.nodes[i as int]));
                assert(g@ =~= "digraph bingraph {\n\n"@ + gv_node_stmts(tt));
            }
            i = i + 1;
        }
        proof {
            assert(self@.nodes.take(n as int) =~= self@.nodes);
        }
        g.append("\n\n");
        let ghost mid = "digraph bingraph {\n\n"@ + gv_node_stmts(self@.nodes) + "\n\n"@;
        proof {
            assert(g@ =~= mid);
        }
        let ne = self.edges.len();
        let mut k: usize = 0;
        proof {
            assert(self@.edges.take(0) =~= Seq::<(Seq<char>, Seq<char>)>::empty());
            assert(g@ =~= mid + gv_edge_stmts(self@.edges.take(0)));
        }
        while k < ne
            invariant
                ne == self.edges@.len(),
                self@.edges.len() == ne,
                mid == "digraph bingraph {\n\n"@ + gv_node_stmts(self@.nodes) + "\n\n"@,
                k <= ne,
                g@ == mid + gv_edge_stmts(self@.edges.take(k as int)),
            decreases ne - k,
        {
            let stmt = format_edge(&self.edges[k].0, &self.edges[k].1);
            proof {
                assert((self.edges@[k as int].0@, self.edges@[k as int].1@) == self@.edges[k
                    as int]);
            }
            g.append(stmt.as_str());
            proof {
                let tt = self@.edges.take(k as int + 1);
                assert(tt.drop_last() =~= self@.edges.take(k as int));
                assert(tt.last() == self@.edges[k as int]);
                assert(gv_edge_stmts(tt) == gv_edge_stmts(self@.edges.take(k as int))
                    + gv_edge_stmt(self@.edges[k as int]));
                assert(g@ =~= mid + gv_edge_stmts(tt));
            }
            k = k + 1;
        }
        proof {
            assert(self@.edges.take(ne as int) =~= self@.edges);
        }
        g.append("\n}");
        proof {
            assert(g@ =~= gv_string(self@));
        }
        g
    }
}

} // verus!
