//! Trusted boundary to the external graph-algorithms library.
//!
//! The library's graph value and graph builder are declared as opaque
//! external types; two uninterpreted names stand for the contents of each
//! (its node count and its edge list), and two more for the values the
//! solvers return, which are functions of their inputs alone.  Every
//! wrapper's contract states only what the external crate's source shows.

use vstd::prelude::*;
use rs_graph::Builder;
use rs_graph::IndexGraph;
use rs_graph::vecgraph::{VecGraph, VecGraphBuilder};

verus! {

#[verifier::external_type_specification]
#[verifier::external_body]
#[verifier::reject_recursive_types(ID)]
pub struct ExVecGraph<ID>(VecGraph<ID>);

#[verifier::external_type_specification]
#[verifier::external_body]
#[verifier::reject_recursive_types(ID)]
pub struct ExVecGraphBuilder<ID>(VecGraphBuilder<ID>);

/// Number of nodes added to the builder so far.
pub uninterp spec fn builder_nodes(b: VecGraphBuilder<u32>) -> nat;

/// The builder's edges, in insertion order, as (tail, head) id pairs.
pub uninterp spec fn builder_edges(b: VecGraphBuilder<u32>) -> Seq<(nat, nat)>;

/// Number of nodes of the finished graph.
pub uninterp spec fn graph_nodes(g: VecGraph<u32>) -> nat;

/// The finished graph's edges, in insertion order, as (tail, head) id pairs.
pub uninterp spec fn graph_edges(g: VecGraph<u32>) -> Seq<(nat, nat)>;

/// The value of a maximum flow from `src` to `snk` in the graph given by
/// `edges` under the capacities `caps`.  Dinic's algorithm reads nothing
/// but these arguments, so its answer is a function of them.
pub uninterp spec fn spec_max_flow(
    edges: Seq<(nat, nat)>,
    caps: Seq<int>,
    src: nat,
    snk: nat,
) -> int;

/// The answer of the network simplex algorithm for the min-cost-flow
/// problem on a graph with `nodes` vertices and the edge list `edges`,
/// capacities `caps`, costs `costs` and a balance of `value` at `src` and
/// `-value` at `snk`: `None` when the problem is not solved to optimality,
/// otherwise the per-edge flows of the optimal solution it picks.  The
/// algorithm is deterministic and reads nothing but these arguments (the
/// node count enters through the artificial-arc cost, which steers pivot
/// selection among equally good flows), so its answer is a function of
/// them.
pub uninterp spec fn spec_min_cost_flow(
    nodes: nat,
    edges: Seq<(nat, nat)>,
    caps: Seq<int>,
    costs: Seq<int>,
    src: nat,
    snk: nat,
    value: int,
) -> Option<Seq<int>>;

/// Relies on `VecGraphBuilder::new` (via rs_graph's `Builder` trait): a new
/// builder holds no nodes and no edges.
#[verifier::external_body]
pub(crate) fn graph_builder_new() -> (b: VecGraphBuilder<u32>)
    ensures
        builder_nodes(b) == 0,
        builder_edges(b) == Seq::<(nat, nat)>::empty(),
{
    <VecGraphBuilder<u32> as Builder>::new()
}

/// Relies on `VecGraphBuilder::add_node`: appends one node, whose id is the
/// previous node count (ids are consecutive from zero), leaving the edges
/// unchanged.  The builder asserts that the node count stays below the id
/// type's maximum.
#[verifier::external_body]
pub(crate) fn builder_add_node(b: &mut VecGraphBuilder<u32>) -> (id: usize)
    requires
        builder_nodes(*old(b)) + 1 < u32::MAX as nat,
    ensures
        id as nat == builder_nodes(*old(b)),
        builder_nodes(*final(b)) == builder_nodes(*old(b)) + 1,
        builder_edges(*final(b)) == builder_edges(*old(b)),
{
    let u = b.add_node();
    b.node2id(u)
}

/// Relies on `VecGraphBuilder::add_edge` and `Builder::id2node`: appends
/// one directed edge from node `u` to node `v`; edges are numbered
/// consecutively in insertion order.  The builder indexes its node table at
/// both endpoints and asserts that twice the edge count stays below the id
/// type's maximum.
#[verifier::external_body]
pub(crate) fn builder_add_edge(b: &mut VecGraphBuilder<u32>, u: usize, v: usize)
    requires
        (u as nat) < builder_nodes(*old(b)),
        (v as nat) < builder_nodes(*old(b)),
        2 * builder_edges(*old(b)).len() + 2 < u32::MAX as nat,
    ensures
        builder_nodes(*final(b)) == builder_nodes(*old(b)),
        builder_edges(*final(b)) == builder_edges(*old(b)).push((u as nat, v as nat)),
{
    let un = b.id2node(u);
    let vn = b.id2node(v);
    b.add_edge(un, vn);
}

/// Relies on `VecGraphBuilder::into_graph`: the finished graph has exactly
/// the builder's nodes and edges, under the same numbering.
#[verifier::external_body]
pub(crate) fn builder_into_graph(b: VecGraphBuilder<u32>) -> (g: VecGraph<u32>)
    ensures
        graph_nodes(g) == builder_nodes(b),
        graph_edges(g) == builder_edges(b),
{
    b.into_graph()
}

/// Relies on `rs_graph::maxflow::dinic`: computes the value of a maximum
/// flow from `src` to `snk` under the given capacities.  The value is never
/// negative (the algorithm starts from the zero flow and only augments
/// along residual paths).  The capacity closure is consulted per edge by
/// its id, which `IndexGraph` keeps below the edge count.
#[verifier::external_body]
pub(crate) fn run_dinic(g: &VecGraph<u32>, src: usize, snk: usize, caps: &Vec<i64>) -> (r: i64)
    requires
        (src as nat) < graph_nodes(*g),
        (snk as nat) < graph_nodes(*g),
        src != snk,
        caps@.len() == graph_edges(*g).len(),
        forall|i: int| 0 <= i < caps@.len() ==> 0 <= #[trigger] caps@[i] <= 0x100_0000_0000i64,
        graph_edges(*g).len() <= 0x10_0000,
    ensures
        r as int == spec_max_flow(
            graph_edges(*g),
            caps@.map_values(|c: i64| c as int),
            src as nat,
            snk as nat,
        ),
        r >= 0,
        crate::model::attains_value(
            graph_edges(*g),
            caps@.map_values(|c: i64| c as int),
            src as nat,
            snk as nat,
            r as int,
        ),
        crate::model::value_maximal(
            graph_edges(*g),
            caps@.map_values(|c: i64| c as int),
            src as nat,
            snk as nat,
            r as int,
        ),
{
    let (value, _flows, _cut) = rs_graph::maxflow::dinic(g, g.id2node(src), g.id2node(snk), |e|
        caps[g.edge_id(e)]);
    value
}

/// Relies on `rs_graph::mcf::NetworkSimplex` (`new`, `set_uppers`,
/// `set_costs`, `set_balance`, `solve`, `flow`): solves the min-cost-flow
/// problem with lower bounds zero, the given capacities and costs, and a
/// balance of `value` at `src`, `-value` at `snk` and zero elsewhere.
/// `solve` reports `Optimal` exactly when it finds (and checks) a feasible,
/// optimal solution; the flow of each edge is then read per edge id.  A
/// returned flow satisfies the problem's constraints — bounds
/// `0 <= flow <= capacity` and flow conservation with the set balances at
/// every vertex — and no feasible conservative assignment of the same value
/// costs less.  The objective accessor is not consulted: the total cost is
/// computed by the caller in wide arithmetic.  The cost bound in the
/// `requires` keeps the simplex's internal `i64` cost arithmetic (the
/// artificial-arc cost is the node count times the largest cost magnitude
/// plus one, and node potentials are sums of at most the node count of
/// those) far from overflow.
#[verifier::external_body]
pub(crate) fn run_min_cost_flow(
    g: &VecGraph<u32>,
    caps: &Vec<i64>,
    costs: &Vec<i64>,
    src: usize,
    snk: usize,
    value: i64,
) -> (r: Option<Vec<i64>>)
    requires
        (src as nat) < graph_nodes(*g),
        (snk as nat) < graph_nodes(*g),
        src != snk,
        graph_nodes(*g) <= 0x40_0000,
        caps@.len() == graph_edges(*g).len(),
        costs@.len() == graph_edges(*g).len(),
        value >= 0,
        forall|i: int| 0 <= i < caps@.len() ==> 0 <= #[trigger] caps@[i] <= 0x100_0000_0000i64,
        forall|i: int|
            0 <= i < costs@.len() ==> -0x10_0000i64 <= #[trigger] costs@[i] <= 0x10_0000i64,
        graph_edges(*g).len() <= 0x10_0000,
    ensures
        ({
            let named = spec_min_cost_flow(
                graph_nodes(*g),
                graph_edges(*g),
                caps@.map_values(|c: i64| c as int),
                costs@.map_values(|c: i64| c as int),
                src as nat,
                snk as nat,
                value as int,
            );
            match r {
                Some(flows) => named == Some(flows@.map_values(|x: i64| x as int)),
                None => named is None,
            }
        }),
        r is Some ==> {
            let flows = r.unwrap()@.map_values(|x: i64| x as int);
            let capsv = caps@.map_values(|c: i64| c as int);
            let costsv = costs@.map_values(|c: i64| c as int);
            &&& flows.len() == graph_edges(*g).len()
            &&& crate::model::flow_bounded(flows, capsv)
            &&& crate::model::conserves(
                graph_edges(*g),
                flows,
                src as nat,
                snk as nat,
                value as int,
            )
            &&& crate::model::cost_minimal(
                flows,
                graph_edges(*g),
                capsv,
                costsv,
                src as nat,
                snk as nat,
                value as int,
            )
        },
{
    let mut spx = rs_graph::mcf::NetworkSimplex::new(g);
    spx.set_uppers(|e| caps[g.edge_id(e)]);
    spx.set_costs(|e| costs[g.edge_id(e)]);
    spx.set_balance(g.id2node(src), value);
    spx.set_balance(g.id2node(snk), -value);
    if spx.solve() == rs_graph::mcf::SolutionState::Optimal {
        Some((0..caps.len()).map(|i| spx.flow(g.id2edge(i))).collect())
    } else {
        None
    }
}

} // verus!
