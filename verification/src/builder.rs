//! The graph builder and the caller-facing solver entry point.
//!
//! Vertices are identified by string labels; the builder keeps an arena of
//! labels (the id of a label is its position, so re-adding a label resolves
//! to the same id) and a list of directed edge records with capacity and
//! cost.  Costs are integers in the caller's chosen cost scale.
//!
//! `solve_mcmf` freezes the graph, computes the maximum flow value and a
//! minimum-cost flow of that value through the external solvers, decomposes
//! the per-edge flows into source-to-sink paths, and packages the solution.

use vstd::prelude::*;
use crate::decompose::{
    adj_complete, adj_lists_edge, adj_ordered, adj_sound, edge_pairs, graph_wf,
    lemma_lists_edge_grow, paths_ok, reconstruct_paths,
};
use crate::model::{
    attains_value, cost_minimal, cost_of, flow_through, lemma_paths_account_for_value, sum_flows,
    value_maximal,
};
use crate::solution::{names_view, views, McmfError, McmfSolution};
use crate::solver::{
    builder_add_edge, builder_add_node, builder_into_graph, graph_builder_new, graph_edges,
    graph_nodes, run_dinic, run_min_cost_flow, spec_max_flow, spec_min_cost_flow,
};

verus! {

/// Largest accepted edge capacity.
pub const CAP_LIMIT: i64 = 0x100_0000_0000;

/// Largest accepted cost magnitude, kept small enough that the external
/// solver's internal 64-bit cost arithmetic (artificial-arc costs and node
/// potentials scale with the node count times the largest cost) stays far
/// from overflow.
pub const COST_LIMIT: i64 = 0x10_0000;

/// Largest accepted number of edges.
pub const EDGE_LIMIT: usize = 0x10_0000;

/// One directed edge record: endpoint vertex ids, capacity and cost.
#[derive(Clone, Copy, Debug)]
pub struct EdgeRec {
    pub from: usize,
    pub to: usize,
    pub capacity: i64,
    pub cost: i64,
}

/// Some position of `labels` holds `s`.
pub open spec fn has_label(labels: Seq<Seq<char>>, s: Seq<char>) -> bool {
    exists|i: int| 0 <= i < labels.len() && labels[i] == s
}

/// The position of `s` in `labels` (meaningful when `has_label` holds and
/// the labels are distinct).
pub open spec fn label_id(labels: Seq<Seq<char>>, s: Seq<char>) -> int {
    choose|i: int| 0 <= i < labels.len() && labels[i] == s
}

/// The arena after introducing `s`: unchanged when present, appended when
/// not.
pub open spec fn with_label(labels: Seq<Seq<char>>, s: Seq<char>) -> Seq<Seq<char>> {
    if has_label(labels, s) {
        labels
    } else {
        labels.push(s)
    }
}

/// The id `s` resolves to in the arena after introducing it.
pub open spec fn resolve_label(labels: Seq<Seq<char>>, s: Seq<char>) -> int {
    if has_label(labels, s) {
        label_id(labels, s)
    } else {
        labels.len() as int
    }
}

/// No two positions of the arena hold the same label.
pub open spec fn labels_unique(labels: Seq<Seq<char>>) -> bool {
    forall|i: int, j: int| 0 <= i < j < labels.len() ==> labels[i] != labels[j]
}

/// What a successful solve between two distinct, known labels reports: the
/// maximum flow value named by the max-flow solver — attained by some
/// in-bounds conservative assignment and exceeded by none — the exact total
/// cost of the flow assignment named by the min-cost-flow solver — no
/// in-bounds conservative assignment of the same value costs less — and a
/// list of well-formed source-to-sink paths that reconstructs that
/// assignment edge by edge and whose flow amounts sum to the maximum flow
/// value.
pub open spec fn solution_spec(
    b: GraphBuilder,
    source: Seq<char>,
    sink: Seq<char>,
    sol: McmfSolution,
) -> bool {
    let sid = label_id(b.labels(), source) as nat;
    let tid = label_id(b.labels(), sink) as nat;
    let mf = spec_max_flow(b.pairs(), b.caps(), sid, tid);
    let named = spec_min_cost_flow(
        b.labels().len() as nat,
        b.pairs(),
        b.caps(),
        b.costs(),
        sid,
        tid,
        mf,
    );
    &&& named is Some
    &&& named.unwrap().len() == b.recs().len()
    &&& sol.max_flow as int == mf
    &&& sol.total_cost as int == cost_of(named.unwrap(), b.costs(), named.unwrap().len() as int)
    &&& paths_ok(sol.paths@, b.ends(), sid, tid, b.labels())
    &&& forall|e: int|
        0 <= e < named.unwrap().len() ==> #[trigger] flow_through(views(sol.paths@), e as nat)
            == named.unwrap()[e]
    &&& sum_flows(views(sol.paths@)) == mf
    &&& attains_value(b.pairs(), b.caps(), sid, tid, mf)
    &&& value_maximal(b.pairs(), b.caps(), sid, tid, mf)
    &&& cost_minimal(named.unwrap(), b.pairs(), b.caps(), b.costs(), sid, tid, mf)
}

/// Determinism of solving: the solvers' answers are functions of the frozen
/// graph, source and sink alone, so any two successful solves of the same
/// graph between the same labels report the same maximum flow and the same
/// total cost, and their path lists carry the same flow through every edge.
pub proof fn lemma_solve_deterministic(
    b: GraphBuilder,
    source: Seq<char>,
    sink: Seq<char>,
    s1: McmfSolution,
    s2: McmfSolution,
)
    requires
        solution_spec(b, source, sink, s1),
        solution_spec(b, source, sink, s2),
    ensures
        s1.max_flow == s2.max_flow,
        s1.total_cost == s2.total_cost,
        sum_flows(views(s1.paths@)) == sum_flows(views(s2.paths@)),
        forall|e: int|
            0 <= e < b.recs().len() ==> #[trigger] flow_through(views(s1.paths@), e as nat)
                == flow_through(views(s2.paths@), e as nat),
{
}

/// Collects labelled, capacitated, costed directed edges and solves the
/// min-cost max-flow problem between two labels.
pub struct GraphBuilder {
    names: Vec<String>,
    edges: Vec<EdgeRec>,
}

impl GraphBuilder {
    /// The label arena: position `i` holds the label of vertex id `i`.
    pub closed spec fn labels(&self) -> Seq<Seq<char>> {
        names_view(self.names@)
    }

    /// The edge records.
    pub closed spec fn recs(&self) -> Seq<EdgeRec> {
        self.edges@
    }

    /// The edges' endpoint pairs, as machine integers.
    pub open spec fn ends(&self) -> Seq<(usize, usize)> {
        self.recs().map_values(|e: EdgeRec| (e.from, e.to))
    }

    /// The edges' endpoint pairs, as mathematical integers.
    pub open spec fn pairs(&self) -> Seq<(nat, nat)> {
        edge_pairs(self.ends())
    }

    /// The edges' capacities.
    pub open spec fn caps(&self) -> Seq<int> {
        self.recs().map_values(|e: EdgeRec| e.capacity as int)
    }

    /// The edges' costs.
    pub open spec fn costs(&self) -> Seq<int> {
        self.recs().map_values(|e: EdgeRec| e.cost as int)
    }

    /// The builder's invariant: labels are distinct, every edge joins known
    /// vertices, and capacities, costs and the edge count are positive
    /// respectively bounded by the fixed machine limits.
    pub closed spec fn wf(&self) -> bool {
        &&& labels_unique(self.labels())
        &&& self.edges@.len() <= EDGE_LIMIT as int
        &&& self.names@.len() <= 2 * self.edges@.len() + 2
        &&& forall|i: int|
            0 <= i < self.edges@.len() ==> {
                &&& (#[trigger] self.edges@[i]).from < self.names@.len()
                &&& self.edges@[i].to < self.names@.len()
                &&& 0 < self.edges@[i].capacity <= CAP_LIMIT
                &&& -COST_LIMIT <= self.edges@[i].cost <= COST_LIMIT
            }
    }

    /// An empty builder: no vertices, no edges.
    pub fn new() -> (r: GraphBuilder)
        ensures
            r.wf(),
            r.labels().len() == 0,
            r.recs().len() == 0,
    {
        GraphBuilder { names: Vec::new(), edges: Vec::new() }
    }

    /// The id of a known label.
    #[verifier::loop_isolation(false)]
    fn get_vertex(&self, v: &String) -> (r: Option<usize>)
        requires
            self.wf(),
        ensures
            r is Some <==> has_label(self.labels(), v@),
            r is Some ==> {
                &&& (r.unwrap() as int) < self.labels().len()
                &&& self.labels()[r.unwrap() as int] == v@
                &&& r.unwrap() as int == label_id(self.labels(), v@)
            },
    {
        let mut i: usize = 0;
        while i < self.names.len()
            invariant
                i <= self.names@.len(),
                forall|j: int| 0 <= j < i ==> self.labels()[j] != v@,
            decreases self.names@.len() - i,
        {
            let cand = &self.names[i];
            if *cand == *v {
                proof {
                    assert(self.labels()[i as int] == v@);
                    let c = label_id(self.labels(), v@);
                    assert(0 <= c < self.labels().len() && self.labels()[c] == v@);
                    if c != i as int {
                        assert(self.labels()[c] != self.labels()[i as int]);
                    }
                }
                return Some(i);
            }
            i = i + 1;
        }
        proof {
            assert(!has_label(self.labels(), v@));
        }
        None
    }

    /// The id of a label, introducing it into the arena when new.
    #[verifier::loop_isolation(false)]
    fn get_or_insert_vertex(&mut self, v: String) -> (id: usize)
        requires
            labels_unique(old(self).labels()),
            old(self).names@.len() < usize::MAX,
        ensures
            final(self).recs() == old(self).recs(),
            final(self).labels() == with_label(old(self).labels(), v@),
            id as int == resolve_label(old(self).labels(), v@),
            labels_unique(final(self).labels()),
            final(self).names@.len() <= old(self).names@.len() + 1,
    {
        let ghost labels0 = self.labels();
        let mut i: usize = 0;
        while i < self.names.len()
            invariant
                i <= self.names@.len(),
                self.names@ == old(self).names@,
                self.edges@ == old(self).edges@,
                forall|j: int| 0 <= j < i ==> self.labels()[j] != v@,
            decreases self.names@.len() - i,
        {
            let cand = &self.names[i];
            if *cand == v {
                proof {
                    assert(self.labels()[i as int] == v@);
                    assert(has_label(labels0, v@));
                    let c = label_id(labels0, v@);
                    assert(0 <= c < labels0.len() && labels0[c] == v@);
                    if c != i as int {
                        assert(labels0[c] != labels0[i as int]);
                    }
                }
                return i;
            }
            i = i + 1;
        }
        proof {
            assert(!has_label(labels0, v@));
        }
        let id = self.names.len();
        let ghost v_seq = v@;
        self.names.push(v);
        proof {
            assert(self.labels() =~= labels0.push(v_seq));
            assert forall|a: int, b: int|
                0 <= a < b < self.labels().len() implies self.labels()[a]
                != self.labels()[b] by {
                if b == self.labels().len() - 1 {
                    assert(self.labels()[b] == v_seq);
                    assert(self.labels()[a] == labels0[a]);
                }
            }
        }
        id
    }

    /// Add a directed edge between two labels, introducing unknown labels
    /// as new vertices.  The capacity must be positive; capacity, cost and
    /// the edge count are bounded by the fixed machine limits; offending
    /// input is rejected as `InvalidInput` with the builder unchanged.
    pub fn add_edge(&mut self, from: String, to: String, capacity: i64, cost: i64) -> (r: Result<
        (),
        McmfError,
    >)
        requires
            old(self).wf(),
        ensures
            final(self).wf(),
            r is Err <==> (capacity <= 0 || capacity > CAP_LIMIT || cost < -COST_LIMIT || cost
                > COST_LIMIT || old(self).recs().len() >= EDGE_LIMIT as int),
            r is Err ==> r == Err::<(), McmfError>(McmfError::InvalidInput),
            r is Err ==> *final(self) == *old(self),
            r is Ok ==> {
                let l1 = with_label(old(self).labels(), from@);
                let fid = resolve_label(old(self).labels(), from@);
                let tid = resolve_label(l1, to@);
                &&& final(self).labels() == with_label(l1, to@)
                &&& final(self).ends() == old(self).ends().push((fid as usize, tid as usize))
                &&& final(self).caps() == old(self).caps().push(capacity as int)
                &&& final(self).costs() == old(self).costs().push(cost as int)
            },
    {
        if capacity <= 0 || capacity > CAP_LIMIT || cost < -COST_LIMIT || cost > COST_LIMIT
            || self.edges.len() >= EDGE_LIMIT {
            return Err(McmfError::InvalidInput);
        }
        let ghost labels0 = self.labels();
        let ghost recs0 = self.recs();
        let fid = self.get_or_insert_vertex(from);
        let ghost labels1 = self.labels();
        let tid = self.get_or_insert_vertex(to);
        let rec = EdgeRec { from: fid, to: tid, capacity, cost };
        self.edges.push(rec);
        proof {
            assert(self.recs() =~= recs0.push(rec));
            assert(self.ends() =~= recs0.map_values(|e: EdgeRec| (e.from, e.to)).push(
                (fid, tid),
            ));
            assert(self.caps() =~= recs0.map_values(|e: EdgeRec| e.capacity as int).push(
                capacity as int,
            ));
            assert(self.costs() =~= recs0.map_values(|e: EdgeRec| e.cost as int).push(
                cost as int,
            ));
            if has_label(labels0, from@) {
                let c = label_id(labels0, from@);
                assert(0 <= c < labels0.len() && labels0[c] == from@);
            }
            if has_label(labels1, to@) {
                let c = label_id(labels1, to@);
                assert(0 <= c < labels1.len() && labels1[c] == to@);
            }
            assert(self.labels().len() == self.names@.len());
            assert(labels1.len() >= labels0.len());
            assert(self.labels().len() >= labels1.len());
            assert(fid < labels1.len());
            assert(tid < self.labels().len());
            assert(fid < self.names@.len() && tid < self.names@.len());
        }
        Ok(())
    }

    /// Solve the min-cost max-flow problem from `source` to `sink`.
    ///
    /// Both labels must have been introduced by `add_edge`; otherwise
    /// `UnknownVertex` is returned.  When source and sink are the same
    /// vertex the fixed policy is a zero solution: zero flow, zero cost, no
    /// paths.  Otherwise the maximum flow value is computed, then a
    /// minimum-cost flow of that value (`Infeasible` if the solver does not
    /// reach optimality), and the flow is decomposed into source-to-sink
    /// paths that reconstruct it exactly; their flow amounts sum to the
    /// maximum flow value, and the total cost is the exact sum of flow
    /// times cost over all edges.  `DecompositionInconsistency` reports a
    /// solver answer that source-to-sink peeling cannot drain (a
    /// flow-carrying cycle) and is never an input error.
    #[verifier::loop_isolation(false)]
    pub fn solve_mcmf(self, source: String, sink: String) -> (r: Result<McmfSolution, McmfError>)
        requires
            self.wf(),
        ensures
            (r == Err::<McmfSolution, McmfError>(McmfError::UnknownVertex)) <==> !(has_label(
                self.labels(),
                source@,
            ) && has_label(self.labels(), sink@)),
            (has_label(self.labels(), source@) && has_label(self.labels(), sink@) && label_id(
                self.labels(),
                source@,
            ) == label_id(self.labels(), sink@)) ==> (r is Ok && {
                let sol = r.unwrap();
                &&& sol.max_flow == 0i64
                &&& sol.total_cost == 0i128
                &&& sol.paths@.len() == 0
            }),
            (has_label(self.labels(), source@) && has_label(self.labels(), sink@) && label_id(
                self.labels(),
                source@,
            ) != label_id(self.labels(), sink@)) ==> ({
                let sid = label_id(self.labels(), source@) as nat;
                let tid = label_id(self.labels(), sink@) as nat;
                let mf = spec_max_flow(self.pairs(), self.caps(), sid, tid);
                let named = spec_min_cost_flow(
                    self.labels().len() as nat,
                    self.pairs(),
                    self.caps(),
                    self.costs(),
                    sid,
                    tid,
                    mf,
                );
                &&& ((r == Err::<McmfSolution, McmfError>(McmfError::Infeasible)) <==> named
                    is None)
                &&& (r is Err ==> r == Err::<McmfSolution, McmfError>(McmfError::Infeasible) || r
                    == Err::<McmfSolution, McmfError>(McmfError::DecompositionInconsistency))
                &&& ((named is Some && (forall|i: int|
                    0 <= i < named.unwrap().len() ==> #[trigger] named.unwrap()[i] == 0)) ==> r
                    is Ok)
                &&& (r is Ok ==> solution_spec(self, source@, sink@, r.unwrap()))
            }),
    {
        let sid = match self.get_vertex(&source) {
            Some(i) => i,
            None => {
                return Err(McmfError::UnknownVertex);
            },
        };
        let tid = match self.get_vertex(&sink) {
            Some(i) => i,
            None => {
                return Err(McmfError::UnknownVertex);
            },
        };
        if sid == tid {
            return Ok(McmfSolution { max_flow: 0, total_cost: 0, paths: Vec::new() });
        }
        let n = self.names.len();
        let m = self.edges.len();
        let mut ends: Vec<(usize, usize)> = Vec::new();
        let mut caps: Vec<i64> = Vec::new();
        let mut costs: Vec<i64> = Vec::new();
        let mut i: usize = 0;
        while i < m
            invariant
                i <= m,
                m == self.edges@.len(),
                ends@.len() == i && caps@.len() == i && costs@.len() == i,
                forall|q: int| 0 <= q < i ==> #[trigger] ends@[q] == (self.edges@[q].from, self.edges@[q].to),
                forall|q: int| 0 <= q < i ==> #[trigger] caps@[q] == self.edges@[q].capacity,
                forall|q: int| 0 <= q < i ==> #[trigger] costs@[q] == self.edges@[q].cost,
            decreases m - i,
        {
            let rec = self.edges[i];
            ends.push((rec.from, rec.to));
            caps.push(rec.capacity);
            costs.push(rec.cost);
            i = i + 1;
        }
        proof {
            assert(ends@ =~= self.ends());
            assert(caps@.map_values(|c: i64| c as int) =~= self.caps());
            assert(costs@.map_values(|c: i64| c as int) =~= self.costs());
            assert(graph_wf(ends@, n as nat));
        }
        let adj = build_adjacency(&ends, n);
        let mut gb = graph_builder_new();
        let mut j: usize = 0;
        while j < n
            invariant
                j <= n,
                crate::solver::builder_nodes(gb) == j,
                crate::solver::builder_edges(gb) == Seq::<(nat, nat)>::empty(),
            decreases n - j,
        {
            let _ = builder_add_node(&mut gb);
            j = j + 1;
        }
        let mut k: usize = 0;
        while k < m
            invariant
                k <= m,
                crate::solver::builder_nodes(gb) == n,
                crate::solver::builder_edges(gb) == self.pairs().take(k as int),
                m == ends@.len(),
            decreases m - k,
        {
            let (ef, et) = ends[k];
            builder_add_edge(&mut gb, ef, et);
            proof {
                assert(self.pairs().take(k + 1) =~= self.pairs().take(k as int).push(
                    (ef as nat, et as nat),
                ));
            }
            k = k + 1;
        }
        proof {
            assert(self.pairs().take(m as int) =~= self.pairs());
        }
        let g = builder_into_graph(gb);
        let mf = run_dinic(&g, sid, tid, &caps);
        let flows = match run_min_cost_flow(&g, &caps, &costs, sid, tid, mf) {
            Some(fl) => fl,
            None => {
                return Err(McmfError::Infeasible);
            },
        };
        let ghost flows_v = flows@.map_values(|x: i64| x as int);
        let ghost named = spec_min_cost_flow(
            self.labels().len() as nat,
            self.pairs(),
            self.caps(),
            self.costs(),
            sid as nat,
            tid as nat,
            spec_max_flow(self.pairs(), self.caps(), sid as nat, tid as nat),
        );
        proof {
            assert(graph_nodes(g) == self.labels().len());
            assert(graph_edges(g) == self.pairs());
            assert(named == Some(flows_v));
        }
        let paths = match reconstruct_paths(&ends, &adj, &self.names, sid, tid, &flows) {
            Ok(p) => p,
            Err(e) => {
                proof {
                    if forall|i: int|
                        0 <= i < named.unwrap().len() ==> #[trigger] named.unwrap()[i] == 0 {
                        assert forall|i: int|
                            0 <= i < flows@.len() implies #[trigger] flows@[i] == 0i64 by {
                            assert(named.unwrap()[i] == 0);
                            assert(flows_v[i] == flows@[i] as int);
                        }
                        assert(false);
                    }
                }
                return Err(e);
            },
        };
        proof {
            assert forall|q: int| 0 <= q < flows@.len() implies 0 <= #[trigger] flows@[q]
                <= CAP_LIMIT by {
                assert(flows_v[q] == flows@[q] as int);
                assert(flows_v[q] <= caps@[q] as int);
            }
        }
        let total = total_cost_of(&flows, &costs);
        proof {
            assert(edge_pairs(ends@) =~= self.pairs());
            assert forall|q: int|
                0 <= q < views(paths@).len() implies crate::model::path_wf(
                #[trigger] views(paths@)[q],
                self.pairs(),
                sid as nat,
                tid as nat,
            ) by {
                assert(views(paths@)[q] == paths@[q]@);
            }
            lemma_paths_account_for_value(
                views(paths@),
                self.pairs(),
                flows_v,
                sid as nat,
                tid as nat,
            );
        }
        Ok(McmfSolution { max_flow: mf, total_cost: total, paths })
    }
}

/// Group the edge indices by tail vertex, in increasing edge order: the
/// graph's fixed, deterministic adjacency ordering.
#[verifier::loop_isolation(false)]
fn build_adjacency(ends: &Vec<(usize, usize)>, n: usize) -> (adj: Vec<Vec<usize>>)
    requires
        graph_wf(ends@, n as nat),
    ensures
        adj@.len() == n,
        adj_sound(adj@, ends@),
        adj_complete(adj@, ends@),
        adj_ordered(adj@),
{
    let mut adj: Vec<Vec<usize>> = Vec::new();
    while adj.len() < n
        invariant
            adj@.len() <= n,
            forall|v: int| 0 <= v < adj@.len() ==> (#[trigger] adj@[v])@.len() == 0,
        decreases n - adj@.len(),
    {
        adj.push(Vec::new());
    }
    let mut i: usize = 0;
    while i < ends.len()
        invariant
            i <= ends@.len(),
            adj@.len() == n,
            adj_sound(adj@, ends@),
            adj_ordered(adj@),
            forall|v: int, k: int|
                0 <= v < adj@.len() && 0 <= k < adj@[v]@.len() ==> (#[trigger] adj@[v]@[k]) < i,
            forall|e: int| 0 <= e < i ==> #[trigger] adj_lists_edge(adj@, ends@, e),
        decreases ends@.len() - i,
    {
        let t = ends[i].0;
        let ghost pre = adj@;
        adj[t].push(i);
        proof {
            assert(adj@[t as int]@ =~= pre[t as int]@.push(i));
            assert forall|v: int, k: int|
                0 <= v < adj@.len() && 0 <= k < adj@[v]@.len() implies {
                &&& (#[trigger] adj@[v]@[k]) < ends@.len()
                &&& ends@[adj@[v]@[k] as int].0 as int == v
                &&& adj@[v]@[k] < i + 1
            } by {
                if v != t as int || k < pre[t as int]@.len() {
                    assert(adj@[v]@[k] == pre[v]@[k]);
                }
            }
            assert forall|e: int| 0 <= e < i + 1 implies #[trigger] adj_lists_edge(
                adj@,
                ends@,
                e,
            ) by {
                if e < i {
                    let tl = ends@[e].0 as int;
                    assert forall|k2: int|
                        0 <= k2 < pre[tl]@.len() implies #[trigger] adj@[tl]@[k2]
                        == pre[tl]@[k2] by {
                        if tl != t as int {
                            assert(adj@[tl] == pre[tl]);
                        }
                    }
                    lemma_lists_edge_grow(pre, adj@, ends@, e);
                } else {
                    assert(ends@[e].0 == t);
                    let last = adj@[t as int]@.len() - 1;
                    assert(adj@[t as int]@[last] as int == e);
                }
            }
        }
        i = i + 1;
    }
    adj
}

/// The exact total cost of a flow assignment: the sum over edges of flow
/// times cost, computed in 128-bit arithmetic.
#[verifier::loop_isolation(false)]
fn total_cost_of(flows: &Vec<i64>, costs: &Vec<i64>) -> (r: i128)
    requires
        flows@.len() == costs@.len(),
        flows@.len() <= EDGE_LIMIT as int,
        forall|i: int| 0 <= i < flows@.len() ==> 0 <= #[trigger] flows@[i] <= CAP_LIMIT,
        forall|i: int| 0 <= i < costs@.len() ==> -COST_LIMIT <= #[trigger] costs@[i] <= COST_LIMIT,
    ensures
        r as int == cost_of(
            flows@.map_values(|x: i64| x as int),
            costs@.map_values(|x: i64| x as int),
            flows@.len() as int,
        ),
{
    let ghost fv = flows@.map_values(|x: i64| x as int);
    let ghost cv = costs@.map_values(|x: i64| x as int);
    let mut acc: i128 = 0;
    let mut i: usize = 0;
    while i < flows.len()
        invariant
            i <= flows@.len(),
            acc as int == cost_of(fv, cv, i as int),
            -(i as int) * 0x1_0000_0000_0000_0000_0000 <= acc as int <= (i as int)
                * 0x1_0000_0000_0000_0000_0000,
        decreases flows@.len() - i,
    {
        proof {
            assert((flows@[i as int] as int) * (costs@[i as int] as int)
                <= 0x1_0000_0000_0000_0000_0000 && (flows@[i as int] as int) * (costs@[i as int]
                as int) >= -0x1_0000_0000_0000_0000_0000) by (nonlinear_arith)
                requires
                    0 <= flows@[i as int] <= CAP_LIMIT,
                    -COST_LIMIT <= costs@[i as int] <= COST_LIMIT,
            ;
            assert((i as int) * 0x1_0000_0000_0000_0000_0000 + 0x1_0000_0000_0000_0000_0000 == (
            i as int + 1) * 0x1_0000_0000_0000_0000_0000) by (nonlinear_arith);
            assert((i as int) * 0x1_0000_0000_0000_0000_0000 <= (EDGE_LIMIT as int)
                * 0x1_0000_0000_0000_0000_0000) by (nonlinear_arith)
                requires
                    0 <= i as int <= EDGE_LIMIT as int,
            ;
        }
        let p: i128 = (flows[i] as i128) * (costs[i] as i128);
        acc = acc + p;
        i = i + 1;
    }
    acc
}

} // verus!
