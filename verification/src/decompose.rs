//! The path decomposition engine: depth-first greedy path peeling.
//!
//! Given a per-edge flow assignment, the engine repeatedly walks from the
//! source along edges with positive remaining flow until it reaches the
//! sink, emits the walked path with the bottleneck amount, and subtracts
//! that amount from every edge of the path.  Out-edges of a vertex are tried
//! in the graph's fixed adjacency order, and all of them are exhausted
//! before the engine backtracks past the vertex, so every unit of flow
//! reachable from a prefix is drained before the prefix is abandoned.
//!
//! The engine maintains, and Verus proves, that the remaining (residual)
//! flow on each edge always equals the original assignment minus the flow
//! already claimed by emitted paths.  A final runtime check that every
//! residual is zero then makes the decomposition exact: the emitted paths
//! reconstruct the assignment edge by edge.
//!
//! If the assignment carries flow around a cycle, no source-to-sink peeling
//! can drain it; the engine detects this (a prefix longer than the vertex
//! count) and reports `DecompositionInconsistency` instead of looping.

use vstd::prelude::*;
use crate::model::{
    count_uses, flow_through, lemma_count_uses_push, lemma_flow_through_push, path_wf, PathModel,
};
use crate::solution::{labels_ok, names_view, views, McmfError, Path};

verus! {

/// View of an edge list as (tail, head) pairs of vertex ids.
pub open spec fn edge_pairs(edges: Seq<(usize, usize)>) -> Seq<(nat, nat)> {
    edges.map_values(|p: (usize, usize)| (p.0 as nat, p.1 as nat))
}

/// Every edge endpoint is a vertex id below `n`.
pub open spec fn graph_wf(edges: Seq<(usize, usize)>, n: nat) -> bool {
    forall|e: int|
        0 <= e < edges.len() ==> (#[trigger] edges[e]).0 < n && edges[e].1 < n
}

/// The adjacency table is sound: every entry listed under vertex `v` is a
/// valid edge index whose tail is `v`.
pub open spec fn adj_sound(adj: Seq<Vec<usize>>, edges: Seq<(usize, usize)>) -> bool {
    forall|v: int, k: int|
        0 <= v < adj.len() && 0 <= k < adj[v]@.len() ==> {
            &&& (#[trigger] adj[v]@[k]) < edges.len()
            &&& edges[adj[v]@[k] as int].0 as int == v
        }
}

/// Edge index `e` appears in the row of its tail vertex.
pub open spec fn adj_lists_edge(adj: Seq<Vec<usize>>, edges: Seq<(usize, usize)>, e: int) -> bool {
    exists|k: int|
        0 <= k < adj[edges[e].0 as int]@.len() && (#[trigger] adj[edges[e].0 as int]@[k]) as int
            == e
}

/// The adjacency table is complete: every edge index appears under its
/// tail's row.
pub open spec fn adj_complete(adj: Seq<Vec<usize>>, edges: Seq<(usize, usize)>) -> bool {
    forall|e: int| 0 <= e < edges.len() ==> #[trigger] adj_lists_edge(adj, edges, e)
}

/// Every row lists its edge indices in strictly increasing order, so no
/// index appears twice.
pub open spec fn adj_ordered(adj: Seq<Vec<usize>>) -> bool {
    forall|v: int, k1: int, k2: int|
        0 <= v < adj.len() && 0 <= k1 < k2 < adj[v]@.len() ==> (#[trigger] adj[v]@[k1])
            < (#[trigger] adj[v]@[k2])
}

/// Row growth preserves a listed edge: if `e` is listed under its tail in
/// `pre` and `post` keeps that row's entries at the same positions, `e` is
/// listed in `post` too.
pub proof fn lemma_lists_edge_grow(
    pre: Seq<Vec<usize>>,
    post: Seq<Vec<usize>>,
    edges: Seq<(usize, usize)>,
    e: int,
)
    requires
        0 <= e < edges.len(),
        adj_lists_edge(pre, edges, e),
        pre[edges[e].0 as int]@.len() <= post[edges[e].0 as int]@.len(),
        forall|k: int|
            0 <= k < pre[edges[e].0 as int]@.len() ==> #[trigger] post[edges[e].0 as int]@[k]
                == pre[edges[e].0 as int]@[k],
    ensures
        adj_lists_edge(post, edges, e),
{
    let k0 = choose|k: int|
        0 <= k < pre[edges[e].0 as int]@.len() && (#[trigger] pre[edges[e].0 as int]@[k]) as int
            == e;
    assert(post[edges[e].0 as int]@[k0] as int == e);
}

/// The residual table accounts exactly for the flow not yet claimed by the
/// emitted paths.
pub open spec fn residual_ok(residual: Seq<i64>, flows0: Seq<int>, paths: Seq<PathModel>) -> bool {
    &&& residual.len() == flows0.len()
    &&& forall|e: int|
        0 <= e < residual.len() ==> (#[trigger] residual[e]) as int == flows0[e] - flow_through(
            paths,
            e as nat,
        )
}

/// The walked prefix is a path in the graph: one more vertex than edges,
/// all vertices in range, each edge joining its adjacent vertices.
pub open spec fn prefix_wf(
    pn: Seq<usize>,
    pe: Seq<usize>,
    edges: Seq<(usize, usize)>,
    n: nat,
) -> bool {
    &&& pn.len() == pe.len() + 1
    &&& forall|i: int| 0 <= i < pn.len() ==> (#[trigger] pn[i]) < n
    &&& forall|i: int|
        0 <= i < pe.len() ==> {
            &&& (#[trigger] pe[i]) < edges.len()
            &&& edges[pe[i] as int].0 == pn[i]
            &&& edges[pe[i] as int].1 == pn[i + 1]
        }
}

/// All paths are well-formed source-to-sink paths with labels matching the
/// arena.
pub open spec fn paths_ok(
    paths: Seq<Path>,
    edges: Seq<(usize, usize)>,
    src: nat,
    snk: nat,
    names: Seq<Seq<char>>,
) -> bool {
    forall|i: int|
        0 <= i < paths.len() ==> {
            &&& path_wf((#[trigger] paths[i])@, edge_pairs(edges), src, snk)
            &&& labels_ok(paths[i], names)
        }
}

/// Copy a vector of indices.
fn copy_ids(src: &Vec<usize>) -> (r: Vec<usize>)
    ensures
        r@ == src@,
{
    let mut out: Vec<usize> = Vec::new();
    let mut i: usize = 0;
    while i < src.len()
        invariant
            i <= src.len(),
            out@ == src@.take(i as int),
        decreases src.len() - i,
    {
        out.push(src[i]);
        proof {
            assert(out@ =~= src@.take(i + 1));
        }
        i = i + 1;
    }
    proof {
        assert(src@.take(src@.len() as int) =~= src@);
    }
    out
}

/// Look up the labels of the visited vertices, in order.
fn label_walk(names: &Vec<String>, ids: &Vec<usize>) -> (r: Vec<String>)
    requires
        forall|i: int| 0 <= i < ids@.len() ==> (#[trigger] ids@[i]) < names@.len(),
    ensures
        r@.len() == ids@.len(),
        forall|i: int|
            0 <= i < ids@.len() ==> (#[trigger] r@[i])@ == names_view(names@)[ids@[i] as int],
{
    let mut out: Vec<String> = Vec::new();
    let mut i: usize = 0;
    while i < ids.len()
        invariant
            i <= ids.len(),
            out@.len() == i,
            forall|j: int| 0 <= j < ids@.len() ==> (#[trigger] ids@[j]) < names@.len(),
            forall|j: int|
                0 <= j < i ==> (#[trigger] out@[j])@ == names_view(names@)[ids@[j] as int],
        decreases ids.len() - i,
    {
        out.push(names[ids[i]].clone());
        i = i + 1;
    }
    out
}

/// One level of the depth-first peeling: explore the out-edges of the last
/// prefix vertex in adjacency order, emitting a path whenever the sink is
/// reached with positive bottleneck, and recursing otherwise.  The prefix
/// is restored on every exit; the residual accounting `residual_ok` is
/// preserved whenever the level returns successfully.
#[verifier::loop_isolation(false)]
fn fill_paths(
    edges: &Vec<(usize, usize)>,
    adj: &Vec<Vec<usize>>,
    names: &Vec<String>,
    snk: usize,
    bound: i64,
    depth: usize,
    prefix_nodes: &mut Vec<usize>,
    prefix_edges: &mut Vec<usize>,
    residual: &mut Vec<i64>,
    paths: &mut Vec<Path>,
    Ghost(flows0): Ghost<Seq<int>>,
) -> (r: Result<(), McmfError>)
    requires
        graph_wf(edges@, adj@.len() as nat),
        adj_sound(adj@, edges@),
        names@.len() == adj@.len(),
        (snk as nat) < adj@.len() as nat,
        bound >= 1,
        flows0.len() == edges@.len(),
        residual_ok(old(residual)@, flows0, views(old(paths)@)),
        prefix_wf(old(prefix_nodes)@, old(prefix_edges)@, edges@, adj@.len() as nat),
        paths_ok(
            old(paths)@,
            edges@,
            old(prefix_nodes)@[0] as nat,
            snk as nat,
            names_view(names@),
        ),
    ensures
        final(prefix_nodes)@ == old(prefix_nodes)@,
        final(prefix_edges)@ == old(prefix_edges)@,
        final(paths)@.len() >= old(paths)@.len(),
        forall|i: int| 0 <= i < old(paths)@.len() ==> final(paths)@[i] == old(paths)@[i],
        paths_ok(
            final(paths)@,
            edges@,
            old(prefix_nodes)@[0] as nat,
            snk as nat,
            names_view(names@),
        ),
        r is Ok ==> residual_ok(final(residual)@, flows0, views(final(paths)@)),
        final(residual)@.len() == edges@.len(),
        (forall|e: int| 0 <= e < old(residual)@.len() ==> #[trigger] old(residual)@[e] <= 0i64)
            ==> (r is Ok && final(paths)@ == old(paths)@ && final(residual)@ == old(residual)@),
    decreases depth,
{
    let ghost pn0 = prefix_nodes@;
    let ghost pe0 = prefix_edges@;
    let u = prefix_nodes[prefix_nodes.len() - 1];
    let mut k: usize = 0;
    while k < adj[u].len()
        invariant
            k <= adj@[u as int]@.len(),
            prefix_nodes@ == pn0,
            prefix_edges@ == pe0,
            residual@.len() == edges@.len(),
            residual_ok(residual@, flows0, views(paths@)),
            paths@.len() >= old(paths)@.len(),
            forall|i: int| 0 <= i < old(paths)@.len() ==> paths@[i] == old(paths)@[i],
            paths_ok(paths@, edges@, pn0[0] as nat, snk as nat, names_view(names@)),
            (forall|e: int|
                0 <= e < old(residual)@.len() ==> #[trigger] old(residual)@[e] <= 0i64) ==> (
            paths@ == old(paths)@ && residual@ == old(residual)@),
        decreases adj@[u as int]@.len() - k,
    {
        let e = adj[u][k];
        if residual[e] > 0 {
            let f = if residual[e] < bound {
                residual[e]
            } else {
                bound
            };
            let v = edges[e].1;
            prefix_nodes.push(v);
            prefix_edges.push(e);
            proof {
                assert(prefix_wf(prefix_nodes@, prefix_edges@, edges@, adj@.len() as nat));
            }
            if v == snk {
                let path_labels = label_walk(names, prefix_nodes);
                let nid = copy_ids(prefix_nodes);
                let eid = copy_ids(prefix_edges);
                let p = Path { flow: f, nodes: path_labels, node_ids: nid, edge_ids: eid };
                let ghost pre_views = views(paths@);
                let ghost pm = p@;
                proof {
                    assert(path_wf(pm, edge_pairs(edges@), pn0[0] as nat, snk as nat));
                    assert(labels_ok(p, names_view(names@)));
                }
                paths.push(p);
                proof {
                    assert(views(paths@) =~= pre_views.push(pm));
                    assert forall|ee: nat| ee < edges@.len() implies flow_through(
                        views(paths@),
                        ee,
                    ) == flow_through(pre_views, ee) + pm.flow * count_uses(pm.eids, ee) by {
                        lemma_flow_through_push(pre_views, pm, ee);
                    }
                }
                let ghost peids = pm.eids;
                let mut j: usize = 0;
                while j < prefix_edges.len()
                    invariant
                        j <= prefix_edges@.len(),
                        prefix_edges@.len() == prefix_nodes@.len() - 1,
                        prefix_nodes@ == pn0.push(v),
                        prefix_edges@ == pe0.push(e),
                        peids == prefix_edges@.map_values(|x: usize| x as nat),
                        residual@.len() == edges@.len(),
                        forall|ee: int|
                            0 <= ee < residual@.len() ==> (#[trigger] residual@[ee]) as int
                                == flows0[ee] - flow_through(pre_views, ee as nat) - f
                                * count_uses(peids.take(j as int), ee as nat),
                    decreases prefix_edges@.len() - j,
                {
                    let ee = prefix_edges[j];
                    let cur = residual[ee];
                    if cur < i64::MIN + f {
                        // Unreachable for conservative assignments; reported
                        // rather than wrapped.
                        prefix_edges.pop();
                        prefix_nodes.pop();
                        return Err(McmfError::DecompositionInconsistency);
                    }
                    residual[ee] = cur - f;
                    proof {
                        assert(peids.take(j + 1) =~= peids.take(j as int).push(peids[j as int]));
                        assert forall|e2: int|
                            0 <= e2 < residual@.len() implies (#[trigger] residual@[e2]) as int
                            == flows0[e2] - flow_through(pre_views, e2 as nat) - f * count_uses(
                            peids.take(j + 1),
                            e2 as nat,
                        ) by {
                            lemma_count_uses_push(
                                peids.take(j as int),
                                peids[j as int],
                                e2 as nat,
                            );
                            let c = count_uses(peids.take(j as int), e2 as nat);
                            if e2 == ee as int {
                                assert(count_uses(peids.take(j + 1), e2 as nat) == c + 1);
                                assert(f * (c + 1) == f * c + f) by (nonlinear_arith);
                            } else {
                                assert(count_uses(peids.take(j + 1), e2 as nat) == c);
                            }
                        }
                    }
                    j = j + 1;
                }
                proof {
                    assert(peids.take(peids.len() as int) =~= peids);
                    assert(residual_ok(residual@, flows0, views(paths@)));
                }
            } else {
                if depth == 0 {
                    // A prefix longer than the vertex count revisits a
                    // vertex: the assignment carries a flow cycle.
                    prefix_edges.pop();
                    prefix_nodes.pop();
                    return Err(McmfError::DecompositionInconsistency);
                }
                let rec = fill_paths(
                    edges,
                    adj,
                    names,
                    snk,
                    f,
                    depth - 1,
                    prefix_nodes,
                    prefix_edges,
                    residual,
                    paths,
                    Ghost(flows0),
                );
                if rec.is_err() {
                    prefix_edges.pop();
                    prefix_nodes.pop();
                    return rec;
                }
            }
            prefix_edges.pop();
            prefix_nodes.pop();
            proof {
                assert(prefix_nodes@ =~= pn0);
                assert(prefix_edges@ =~= pe0);
            }
        }
        k = k + 1;
    }
    Ok(())
}

/// Decompose a flow assignment into source-to-sink paths.
///
/// On success the returned paths are well-formed `src`-to-`snk` paths whose
/// flow amounts reconstruct the assignment exactly on every edge.  If some
/// flow cannot be drained by source-to-sink peeling (a flow-carrying cycle)
/// or the assignment is not conservative, the decomposition reports
/// `DecompositionInconsistency` instead of returning a partial result.
#[verifier::loop_isolation(false)]
pub fn reconstruct_paths(
    edges: &Vec<(usize, usize)>,
    adj: &Vec<Vec<usize>>,
    names: &Vec<String>,
    src: usize,
    snk: usize,
    flows: &Vec<i64>,
) -> (r: Result<Vec<Path>, McmfError>)
    requires
        graph_wf(edges@, adj@.len() as nat),
        adj_sound(adj@, edges@),
        adj_complete(adj@, edges@),
        adj_ordered(adj@),
        names@.len() == adj@.len(),
        (src as nat) < adj@.len() as nat,
        (snk as nat) < adj@.len() as nat,
        flows@.len() == edges@.len(),
    ensures
        r is Err ==> r == Err::<Vec<Path>, McmfError>(McmfError::DecompositionInconsistency),
        (forall|e: int| 0 <= e < flows@.len() ==> #[trigger] flows@[e] == 0i64) ==> (r is Ok
            && r.unwrap()@.len() == 0),
        r is Ok ==> {
            &&& paths_ok(r.unwrap()@, edges@, src as nat, snk as nat, names_view(names@))
            &&& forall|e: int|
                0 <= e < edges@.len() ==> flow_through(views(r.unwrap()@), e as nat) == flows@[e]
        },
{
    let mut residual = copy_flows(flows);
    let mut prefix_nodes: Vec<usize> = Vec::new();
    prefix_nodes.push(src);
    let mut prefix_edges: Vec<usize> = Vec::new();
    let mut paths: Vec<Path> = Vec::new();
    let ghost flows0 = flows@.map_values(|x: i64| x as int);
    proof {
        assert(views(paths@) =~= Seq::<PathModel>::empty());
        assert(residual_ok(residual@, flows0, views(paths@)));
    }
    let depth = adj.len();
    proof {
        assert(prefix_nodes@[0] == src);
    }
    let outcome = fill_paths(
        edges,
        adj,
        names,
        snk,
        i64::MAX,
        depth,
        &mut prefix_nodes,
        &mut prefix_edges,
        &mut residual,
        &mut paths,
        Ghost(flows0),
    );
    if outcome.is_err() {
        return Err(McmfError::DecompositionInconsistency);
    }
    let mut e: usize = 0;
    while e < residual.len()
        invariant
            e <= residual@.len(),
            forall|i: int| 0 <= i < e ==> residual@[i] == 0i64,
        decreases residual.len() - e,
    {
        if residual[e] != 0 {
            return Err(McmfError::DecompositionInconsistency);
        }
        e = e + 1;
    }
    proof {
        assert forall|i: int|
            0 <= i < edges@.len() implies flow_through(views(paths@), i as nat) == flows@[i] by {
            assert(residual@[i] == 0i64);
            assert(residual@[i] as int == flows0[i] - flow_through(views(paths@), i as nat));
            assert(flows0[i] == flows@[i] as int);
        }
    }
    Ok(paths)
}

/// Copy the flow assignment into the private residual table.
fn copy_flows(src: &Vec<i64>) -> (r: Vec<i64>)
    ensures
        r@ == src@,
{
    let mut out: Vec<i64> = Vec::new();
    let mut i: usize = 0;
    while i < src.len()
        invariant
            i <= src.len(),
            out@ == src@.take(i as int),
        decreases src.len() - i,
    {
        out.push(src[i]);
        proof {
            assert(out@ =~= src@.take(i + 1));
        }
        i = i + 1;
    }
    proof {
        assert(src@.take(src@.len() as int) =~= src@);
    }
    out
}

} // verus!
