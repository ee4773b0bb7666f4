//! Mathematical model of flow assignments and path decompositions.
//!
//! A graph is a sequence of directed edges, each a `(tail, head)` pair of
//! vertex ids; parallel edges are distinct by position.  A flow assignment is
//! a sequence of integers, one per edge.  A decomposed path records the
//! vertex sequence it visits, the edge indices joining them, and one flow
//! amount for the whole path.

use vstd::prelude::*;

verus! {

/// Spec-level image of one decomposed path: the visited vertex ids, the edge
/// indices joining consecutive vertices, and the path's flow amount.
pub struct PathModel {
    pub flow: int,
    pub nodes: Seq<nat>,
    pub eids: Seq<nat>,
}

/// Number of times edge index `e` occurs in `eids`.
pub open spec fn count_uses(eids: Seq<nat>, e: nat) -> int
    decreases eids.len(),
{
    if eids.len() == 0 {
        0
    } else {
        count_uses(eids.drop_last(), e) + if eids.last() == e { 1int } else { 0int }
    }
}

/// Total flow the paths push through edge index `e`: each path contributes
/// its flow amount once per traversal of the edge.
pub open spec fn flow_through(paths: Seq<PathModel>, e: nat) -> int
    decreases paths.len(),
{
    if paths.len() == 0 {
        0
    } else {
        flow_through(paths.drop_last(), e) + paths.last().flow * count_uses(paths.last().eids, e)
    }
}

/// Sum of the paths' flow amounts.
pub open spec fn sum_flows(paths: Seq<PathModel>) -> int
    decreases paths.len(),
{
    if paths.len() == 0 {
        0
    } else {
        sum_flows(paths.drop_last()) + paths.last().flow
    }
}

/// A well-formed source-to-sink path: it starts at `src`, ends at `snk`,
/// every step uses an edge of the graph joining the adjacent vertices, and
/// its flow amount is positive.
pub open spec fn path_wf(p: PathModel, edges: Seq<(nat, nat)>, src: nat, snk: nat) -> bool {
    &&& p.nodes.len() == p.eids.len() + 1
    &&& p.nodes[0] == src
    &&& p.nodes.last() == snk
    &&& p.flow > 0
    &&& forall|i: int|
        0 <= i < p.eids.len() ==> {
            &&& p.eids[i] < edges.len()
            &&& edges[p.eids[i] as int].0 == p.nodes[i]
            &&& edges[p.eids[i] as int].1 == p.nodes[i + 1]
        }
}

/// Flow leaving vertex `v` over the first `m` edges.
pub open spec fn out_flow_upto(edges: Seq<(nat, nat)>, flows: Seq<int>, v: nat, m: int) -> int
    decreases m,
{
    if m <= 0 {
        0
    } else {
        out_flow_upto(edges, flows, v, m - 1) + if edges[m - 1].0 == v {
            flows[m - 1]
        } else {
            0int
        }
    }
}

/// Flow entering vertex `v` over the first `m` edges.
pub open spec fn in_flow_upto(edges: Seq<(nat, nat)>, flows: Seq<int>, v: nat, m: int) -> int
    decreases m,
{
    if m <= 0 {
        0
    } else {
        in_flow_upto(edges, flows, v, m - 1) + if edges[m - 1].1 == v {
            flows[m - 1]
        } else {
            0int
        }
    }
}

/// Net outflow of vertex `v`: flow leaving minus flow entering.
pub open spec fn net_flow(edges: Seq<(nat, nat)>, flows: Seq<int>, v: nat) -> int {
    out_flow_upto(edges, flows, v, edges.len() as int) - in_flow_upto(
        edges,
        flows,
        v,
        edges.len() as int,
    )
}

/// Total cost of a flow assignment over the first `m` edges: the sum of
/// flow times cost per edge.
pub open spec fn cost_of(flows: Seq<int>, costs: Seq<int>, m: int) -> int
    decreases m,
{
    if m <= 0 {
        0
    } else {
        cost_of(flows, costs, m - 1) + flows[m - 1] * costs[m - 1]
    }
}

/// The per-edge flows are within bounds: as many entries as edges, each
/// between zero and its capacity.
pub open spec fn flow_bounded(flows: Seq<int>, caps: Seq<int>) -> bool {
    &&& flows.len() == caps.len()
    &&& forall|i: int| 0 <= i < flows.len() ==> 0 <= #[trigger] flows[i] <= caps[i]
}

/// Flow conservation: every vertex other than `src` and `snk` is balanced,
/// `src` emits `value` net units and `snk` absorbs them.
pub open spec fn conserves(
    edges: Seq<(nat, nat)>,
    flows: Seq<int>,
    src: nat,
    snk: nat,
    value: int,
) -> bool {
    &&& forall|v: nat| v != src && v != snk ==> net_flow(edges, flows, v) == 0
    &&& net_flow(edges, flows, src) == value
    &&& net_flow(edges, flows, snk) == -value
}

/// Some in-bounds assignment conserves exactly `value` units from `src`
/// to `snk`: the value is attained.
pub open spec fn attains_value(
    edges: Seq<(nat, nat)>,
    caps: Seq<int>,
    src: nat,
    snk: nat,
    value: int,
) -> bool {
    exists|f: Seq<int>| #[trigger] flow_bounded(f, caps) && conserves(edges, f, src, snk, value)
}

/// No in-bounds conservative assignment moves more than `value` units from
/// `src` to `snk`: the value is maximal.
pub open spec fn value_maximal(
    edges: Seq<(nat, nat)>,
    caps: Seq<int>,
    src: nat,
    snk: nat,
    value: int,
) -> bool {
    forall|f: Seq<int>, v: int|
        flow_bounded(f, caps) && #[trigger] conserves(edges, f, src, snk, v) ==> v <= value
}

/// `flows` costs no more than any in-bounds assignment conserving `value`
/// units from `src` to `snk`: the assignment is cost-optimal for its value.
pub open spec fn cost_minimal(
    flows: Seq<int>,
    edges: Seq<(nat, nat)>,
    caps: Seq<int>,
    costs: Seq<int>,
    src: nat,
    snk: nat,
    value: int,
) -> bool {
    forall|other: Seq<int>|
        flow_bounded(other, caps) && #[trigger] conserves(edges, other, src, snk, value)
            ==> cost_of(flows, costs, edges.len() as int) <= cost_of(
            other,
            costs,
            edges.len() as int,
        )
}

/// Number of traversals, over the first `m` edges whose tail is `v`, that
/// `eids` makes: the out-edge uses of `v` charged to these edge indices.
pub open spec fn uses_out_upto(eids: Seq<nat>, edges: Seq<(nat, nat)>, v: nat, m: int) -> int
    decreases m,
{
    if m <= 0 {
        0
    } else {
        uses_out_upto(eids, edges, v, m - 1) + if edges[m - 1].0 == v {
            count_uses(eids, (m - 1) as nat)
        } else {
            0int
        }
    }
}

/// As `uses_out_upto`, for edges whose head is `v`.
pub open spec fn uses_in_upto(eids: Seq<nat>, edges: Seq<(nat, nat)>, v: nat, m: int) -> int
    decreases m,
{
    if m <= 0 {
        0
    } else {
        uses_in_upto(eids, edges, v, m - 1) + if edges[m - 1].1 == v {
            count_uses(eids, (m - 1) as nat)
        } else {
            0int
        }
    }
}

/// Number of indices `i < k` with `nodes[i] == v`.
pub open spec fn node_hits(nodes: Seq<nat>, v: nat, k: int) -> int
    decreases k,
{
    if k <= 0 {
        0
    } else {
        node_hits(nodes, v, k - 1) + if nodes[k - 1] == v {
            1int
        } else {
            0int
        }
    }
}

/// Number of indices `i < k` with `nodes[i + 1] == v`.
pub open spec fn node_hits_next(nodes: Seq<nat>, v: nat, k: int) -> int
    decreases k,
{
    if k <= 0 {
        0
    } else {
        node_hits_next(nodes, v, k - 1) + if nodes[k] == v {
            1int
        } else {
            0int
        }
    }
}

pub proof fn lemma_count_uses_push(eids: Seq<nat>, j: nat, e: nat)
    ensures
        count_uses(eids.push(j), e) == count_uses(eids, e) + if j == e {
            1int
        } else {
            0int
        },
{
    assert(eids.push(j).drop_last() =~= eids);
}

proof fn lemma_uses_out_push(eids: Seq<nat>, j: nat, edges: Seq<(nat, nat)>, v: nat, m: int)
    ensures
        uses_out_upto(eids.push(j), edges, v, m) == uses_out_upto(eids, edges, v, m) + if j < m
            && edges[j as int].0 == v {
            1int
        } else {
            0int
        },
    decreases m,
{
    if m > 0 {
        lemma_uses_out_push(eids, j, edges, v, m - 1);
        lemma_count_uses_push(eids, j, (m - 1) as nat);
    }
}

proof fn lemma_uses_in_push(eids: Seq<nat>, j: nat, edges: Seq<(nat, nat)>, v: nat, m: int)
    ensures
        uses_in_upto(eids.push(j), edges, v, m) == uses_in_upto(eids, edges, v, m) + if j < m
            && edges[j as int].1 == v {
            1int
        } else {
            0int
        },
    decreases m,
{
    if m > 0 {
        lemma_uses_in_push(eids, j, edges, v, m - 1);
        lemma_count_uses_push(eids, j, (m - 1) as nat);
    }
}

proof fn lemma_uses_out_empty(edges: Seq<(nat, nat)>, v: nat, m: int)
    ensures
        uses_out_upto(Seq::<nat>::empty(), edges, v, m) == 0,
        uses_in_upto(Seq::<nat>::empty(), edges, v, m) == 0,
    decreases m,
{
    if m > 0 {
        lemma_uses_out_empty(edges, v, m - 1);
    }
}

/// For a well-formed path, the out-edge uses of `v` counted over all edge
/// indices equal the number of path positions standing at `v` with an edge
/// still ahead; likewise for in-edge uses with positions entered at `v`.
proof fn lemma_path_uses_are_node_hits(
    p: PathModel,
    edges: Seq<(nat, nat)>,
    src: nat,
    snk: nat,
    v: nat,
    k: int,
)
    requires
        path_wf(p, edges, src, snk),
        0 <= k <= p.eids.len(),
    ensures
        uses_out_upto(p.eids.take(k), edges, v, edges.len() as int) == node_hits(p.nodes, v, k),
        uses_in_upto(p.eids.take(k), edges, v, edges.len() as int) == node_hits_next(
            p.nodes,
            v,
            k,
        ),
    decreases k,
{
    if k == 0 {
        assert(p.eids.take(0) =~= Seq::<nat>::empty());
        lemma_uses_out_empty(edges, v, edges.len() as int);
    } else {
        lemma_path_uses_are_node_hits(p, edges, src, snk, v, k - 1);
        assert(p.eids.take(k) =~= p.eids.take(k - 1).push(p.eids[k - 1]));
        lemma_uses_out_push(p.eids.take(k - 1), p.eids[k - 1], edges, v, edges.len() as int);
        lemma_uses_in_push(p.eids.take(k - 1), p.eids[k - 1], edges, v, edges.len() as int);
    }
}

/// Along a walk, standing-at-`v` counts and entered-at-`v` counts telescope:
/// their difference only sees the walk's first and last vertex.
proof fn lemma_hits_telescope(nodes: Seq<nat>, v: nat, k: int)
    requires
        0 <= k < nodes.len(),
    ensures
        node_hits(nodes, v, k) - node_hits_next(nodes, v, k) == (if nodes[0] == v {
            1int
        } else {
            0int
        }) - (if nodes[k] == v {
            1int
        } else {
            0int
        }),
    decreases k,
{
    if k > 0 {
        lemma_hits_telescope(nodes, v, k - 1);
    }
}

/// A well-formed path from `src` to a different `snk` uses out-edges of
/// `src` exactly once more than in-edges of `src`.
proof fn lemma_path_net_uses_at_src(p: PathModel, edges: Seq<(nat, nat)>, src: nat, snk: nat)
    requires
        path_wf(p, edges, src, snk),
        src != snk,
    ensures
        uses_out_upto(p.eids, edges, src, edges.len() as int) - uses_in_upto(
            p.eids,
            edges,
            src,
            edges.len() as int,
        ) == 1,
{
    let k = p.eids.len() as int;
    lemma_path_uses_are_node_hits(p, edges, src, snk, src, k);
    assert(p.eids.take(k) =~= p.eids);
    lemma_hits_telescope(p.nodes, src, k);
}

/// Flow through edge `e` after appending one path.
pub proof fn lemma_flow_through_push(paths: Seq<PathModel>, p: PathModel, e: nat)
    ensures
        flow_through(paths.push(p), e) == flow_through(paths, e) + p.flow * count_uses(p.eids, e),
{
    assert(paths.push(p).drop_last() =~= paths);
}

/// Sum of the first `m` per-edge `flow_through` terms at tails (heads) `v`,
/// after appending one path.
proof fn lemma_through_sums_push(
    paths: Seq<PathModel>,
    p: PathModel,
    edges: Seq<(nat, nat)>,
    v: nat,
    m: int,
)
    ensures
        out_through_upto(paths.push(p), edges, v, m) == out_through_upto(paths, edges, v, m)
            + p.flow * uses_out_upto(p.eids, edges, v, m),
        in_through_upto(paths.push(p), edges, v, m) == in_through_upto(paths, edges, v, m)
            + p.flow * uses_in_upto(p.eids, edges, v, m),
    decreases m,
{
    if m > 0 {
        lemma_through_sums_push(paths, p, edges, v, m - 1);
        lemma_flow_through_push(paths, p, (m - 1) as nat);
        assert(p.flow * (uses_out_upto(p.eids, edges, v, m - 1) + count_uses(
            p.eids,
            (m - 1) as nat,
        )) == p.flow * uses_out_upto(p.eids, edges, v, m - 1) + p.flow * count_uses(
            p.eids,
            (m - 1) as nat,
        )) by (nonlinear_arith);
        assert(p.flow * (uses_in_upto(p.eids, edges, v, m - 1) + count_uses(
            p.eids,
            (m - 1) as nat,
        )) == p.flow * uses_in_upto(p.eids, edges, v, m - 1) + p.flow * count_uses(
            p.eids,
            (m - 1) as nat,
        )) by (nonlinear_arith);
    }
}

/// Net flow the paths put through the first `m` edges at vertex `v`, written
/// over the per-edge `flow_through` sums.
pub open spec fn out_through_upto(
    paths: Seq<PathModel>,
    edges: Seq<(nat, nat)>,
    v: nat,
    m: int,
) -> int
    decreases m,
{
    if m <= 0 {
        0
    } else {
        out_through_upto(paths, edges, v, m - 1) + if edges[m - 1].0 == v {
            flow_through(paths, (m - 1) as nat)
        } else {
            0int
        }
    }
}

/// As `out_through_upto`, for edges whose head is `v`.
pub open spec fn in_through_upto(
    paths: Seq<PathModel>,
    edges: Seq<(nat, nat)>,
    v: nat,
    m: int,
) -> int
    decreases m,
{
    if m <= 0 {
        0
    } else {
        in_through_upto(paths, edges, v, m - 1) + if edges[m - 1].1 == v {
            flow_through(paths, (m - 1) as nat)
        } else {
            0int
        }
    }
}

proof fn lemma_through_sums_empty(edges: Seq<(nat, nat)>, v: nat, m: int)
    ensures
        out_through_upto(Seq::<PathModel>::empty(), edges, v, m) == 0,
        in_through_upto(Seq::<PathModel>::empty(), edges, v, m) == 0,
    decreases m,
{
    if m > 0 {
        lemma_through_sums_empty(edges, v, m - 1);
    }
}

/// Every path a well-formed source-to-sink path: the net flow the list puts
/// through the edges at `src` equals the sum of the paths' flow amounts.
proof fn lemma_net_through_at_src(
    paths: Seq<PathModel>,
    edges: Seq<(nat, nat)>,
    src: nat,
    snk: nat,
)
    requires
        src != snk,
        forall|i: int| 0 <= i < paths.len() ==> path_wf(#[trigger] paths[i], edges, src, snk),
    ensures
        out_through_upto(paths, edges, src, edges.len() as int) - in_through_upto(
            paths,
            edges,
            src,
            edges.len() as int,
        ) == sum_flows(paths),
    decreases paths.len(),
{
    let m = edges.len() as int;
    if paths.len() == 0 {
        assert(paths =~= Seq::<PathModel>::empty());
        lemma_through_sums_empty(edges, src, m);
    } else {
        let prev = paths.drop_last();
        let p = paths.last();
        assert(forall|i: int| 0 <= i < prev.len() ==> prev[i] == paths[i]);
        lemma_net_through_at_src(prev, edges, src, snk);
        assert(prev.push(p) =~= paths);
        lemma_through_sums_push(prev, p, edges, src, m);
        lemma_path_net_uses_at_src(p, edges, src, snk);
        assert(p.flow * uses_out_upto(p.eids, edges, src, m) - p.flow * uses_in_upto(
            p.eids,
            edges,
            src,
            m,
        ) == p.flow) by {
            assert(p.flow * uses_out_upto(p.eids, edges, src, m) == p.flow * (uses_in_upto(
                p.eids,
                edges,
                src,
                m,
            ) + 1)) by {
            }
            assert(p.flow * (uses_in_upto(p.eids, edges, src, m) + 1) == p.flow * uses_in_upto(
                p.eids,
                edges,
                src,
                m,
            ) + p.flow) by (nonlinear_arith);
        }
        assert(out_through_upto(paths, edges, src, m) == out_through_upto(prev, edges, src, m)
            + p.flow * uses_out_upto(p.eids, edges, src, m));
        assert(in_through_upto(paths, edges, src, m) == in_through_upto(prev, edges, src, m)
            + p.flow * uses_in_upto(p.eids, edges, src, m));
        assert(sum_flows(paths) == sum_flows(prev) + p.flow);
    }
}

/// With pointwise-equal per-edge totals, the aggregated sums agree.
proof fn lemma_flow_sums_agree(
    paths: Seq<PathModel>,
    edges: Seq<(nat, nat)>,
    flows: Seq<int>,
    v: nat,
    m: int,
)
    requires
        m <= flows.len(),
        forall|e: nat| e < m ==> flows[e as int] == flow_through(paths, e),
    ensures
        out_flow_upto(edges, flows, v, m) == out_through_upto(paths, edges, v, m),
        in_flow_upto(edges, flows, v, m) == in_through_upto(paths, edges, v, m),
    decreases m,
{
    if m > 0 {
        lemma_flow_sums_agree(paths, edges, flows, v, m - 1);
    }
}

proof fn lemma_count_uses_nonneg(eids: Seq<nat>, e: nat)
    ensures
        count_uses(eids, e) >= 0,
    decreases eids.len(),
{
    if eids.len() > 0 {
        lemma_count_uses_nonneg(eids.drop_last(), e);
    }
}

proof fn lemma_count_uses_at_index(eids: Seq<nat>, i: int)
    requires
        0 <= i < eids.len(),
    ensures
        count_uses(eids, eids[i]) >= 1,
    decreases eids.len(),
{
    if i == eids.len() - 1 {
        lemma_count_uses_nonneg(eids.drop_last(), eids[i]);
    } else {
        lemma_count_uses_at_index(eids.drop_last(), i);
    }
}

proof fn lemma_flow_through_nonneg(paths: Seq<PathModel>, e: nat)
    requires
        forall|i: int| 0 <= i < paths.len() ==> (#[trigger] paths[i]).flow > 0,
    ensures
        flow_through(paths, e) >= 0,
    decreases paths.len(),
{
    if paths.len() > 0 {
        lemma_flow_through_nonneg(paths.drop_last(), e);
        let p = paths.last();
        lemma_count_uses_nonneg(p.eids, e);
        assert(p.flow * count_uses(p.eids, e) >= 0) by (nonlinear_arith)
            requires
                p.flow > 0,
                count_uses(p.eids, e) >= 0,
        ;
    }
}

proof fn lemma_flow_through_lower(paths: Seq<PathModel>, i: int, e: nat)
    requires
        0 <= i < paths.len(),
        forall|j: int| 0 <= j < paths.len() ==> (#[trigger] paths[j]).flow > 0,
    ensures
        flow_through(paths, e) >= paths[i].flow * count_uses(paths[i].eids, e),
    decreases paths.len(),
{
    let p = paths.last();
    lemma_count_uses_nonneg(p.eids, e);
    assert(p.flow * count_uses(p.eids, e) >= 0) by (nonlinear_arith)
        requires
            p.flow > 0,
            count_uses(p.eids, e) >= 0,
    ;
    if i < paths.len() - 1 {
        lemma_flow_through_lower(paths.drop_last(), i, e);
    } else {
        lemma_flow_through_nonneg(paths.drop_last(), e);
    }
}

/// Nothing decomposes the all-zero assignment but the empty list: every
/// well-formed source-to-sink path carries positive flow over at least one
/// edge, so an edge-exact path list for zero flows has no paths.
pub proof fn lemma_zero_assignment_empty(
    paths: Seq<PathModel>,
    edges: Seq<(nat, nat)>,
    flows: Seq<int>,
    src: nat,
    snk: nat,
)
    requires
        src != snk,
        flows.len() == edges.len(),
        forall|e: int| 0 <= e < flows.len() ==> flows[e] == 0,
        forall|e: nat| e < edges.len() ==> flows[e as int] == #[trigger] flow_through(paths, e),
        forall|i: int| 0 <= i < paths.len() ==> path_wf(#[trigger] paths[i], edges, src, snk),
    ensures
        paths.len() == 0,
{
    if paths.len() > 0 {
        let p = paths[0];
        assert(path_wf(p, edges, src, snk));
        assert(p.nodes.len() >= 2);
        let e = p.eids[0];
        assert(e < edges.len());
        lemma_count_uses_at_index(p.eids, 0);
        lemma_flow_through_lower(paths, 0, e);
        assert(p.flow * count_uses(p.eids, e) >= 1) by (nonlinear_arith)
            requires
                p.flow > 0,
                count_uses(p.eids, e) >= 1,
        ;
        assert(flow_through(paths, e) == 0);
        assert(false);
    }
}

/// The all-zero assignment costs nothing.
pub proof fn lemma_zero_assignment_zero_cost(flows: Seq<int>, costs: Seq<int>, m: int)
    requires
        m <= flows.len(),
        forall|e: int| 0 <= e < flows.len() ==> flows[e] == 0,
    ensures
        cost_of(flows, costs, m) == 0,
    decreases m,
{
    if m > 0 {
        lemma_zero_assignment_zero_cost(flows, costs, m - 1);
    }
}

/// Decomposition accounts for the whole flow value: if a list of well-formed
/// `src`-to-`snk` paths reconstructs a flow assignment edge-exactly, the
/// paths' flow amounts sum to the assignment's net outflow at `src`.
pub proof fn lemma_paths_account_for_value(
    paths: Seq<PathModel>,
    edges: Seq<(nat, nat)>,
    flows: Seq<int>,
    src: nat,
    snk: nat,
)
    requires
        src != snk,
        flows.len() == edges.len(),
        forall|e: nat| e < edges.len() ==> flows[e as int] == flow_through(paths, e),
        forall|i: int| 0 <= i < paths.len() ==> path_wf(#[trigger] paths[i], edges, src, snk),
    ensures
        sum_flows(paths) == net_flow(edges, flows, src),
{
    let m = edges.len() as int;
    lemma_flow_sums_agree(paths, edges, flows, src, m);
    lemma_net_through_at_src(paths, edges, src, snk);
}

} // verus!
