//! Result types of the solver: decomposed paths, the packaged solution, and
//! the error kinds of the service.

use vstd::prelude::*;
use crate::model::PathModel;

verus! {

/// Why an operation was rejected or aborted.
#[derive(Clone, Copy, PartialEq, Eq, Debug)]
pub enum McmfError {
    /// `add_edge` was given a non-positive capacity, or a capacity, cost or
    /// edge count beyond the fixed machine limits.
    InvalidInput,
    /// `solve_mcmf` was given a label never introduced by `add_edge`.
    UnknownVertex,
    /// The min-cost-flow solver did not report an optimal solution.
    Infeasible,
    /// The decomposition postcondition failed: some flow was left
    /// undecomposed.  This signals a non-conservative assignment or a
    /// flow-carrying cycle in the solver's answer, never an input error.
    DecompositionInconsistency,
}

/// One decomposed source-to-sink path: the visited vertices both as labels
/// and as numeric ids, the edge indices joining them, and the flow amount
/// the whole path carries.
#[derive(Clone, Debug)]
pub struct Path {
    pub flow: i64,
    pub nodes: Vec<String>,
    pub node_ids: Vec<usize>,
    pub edge_ids: Vec<usize>,
}

impl View for Path {
    type V = PathModel;

    open spec fn view(&self) -> PathModel {
        PathModel {
            flow: self.flow as int,
            nodes: self.node_ids@.map_values(|v: usize| v as nat),
            eids: self.edge_ids@.map_values(|e: usize| e as nat),
        }
    }
}

/// The labels recorded on a path agree with the label arena: position `i`
/// holds the label of vertex `node_ids[i]`.
pub open spec fn labels_ok(p: Path, names: Seq<Seq<char>>) -> bool {
    &&& p.nodes@.len() == p.node_ids@.len()
    &&& forall|i: int|
        0 <= i < p.node_ids@.len() ==> {
            &&& (#[trigger] p.node_ids@[i]) < names.len()
            &&& p.nodes@[i]@ == names[p.node_ids@[i] as int]
        }
}

/// Spec-level images of a list of paths.
pub open spec fn views(paths: Seq<Path>) -> Seq<PathModel> {
    paths.map_values(|p: Path| p@)
}

/// The label arena seen as a sequence of character sequences.
pub open spec fn names_view(names: Seq<String>) -> Seq<Seq<char>> {
    names.map_values(|s: String| s@)
}

impl Path {
    /// The flow amount carried by this path.
    pub fn flow(&self) -> (r: i64)
        ensures
            r as int == self@.flow,
    {
        self.flow
    }

    /// The visited vertex labels, from source to sink inclusive.
    pub fn nodes(&self) -> (r: Vec<String>)
        ensures
            r@.len() == self.nodes@.len(),
            forall|i: int| 0 <= i < r@.len() ==> (#[trigger] r@[i])@ == self.nodes@[i]@,
    {
        let mut out: Vec<String> = Vec::new();
        let mut i: usize = 0;
        while i < self.nodes.len()
            invariant
                i <= self.nodes.len(),
                out@.len() == i,
                forall|j: int| 0 <= j < i ==> (#[trigger] out@[j])@ == self.nodes@[j]@,
            decreases self.nodes.len() - i,
        {
            out.push(self.nodes[i].clone());
            i = i + 1;
        }
        out
    }
}

/// The packaged answer of `solve_mcmf`: the maximum flow value, the total
/// cost of the minimum-cost flow in scaled integer cost units, and the
/// decomposed paths.
#[derive(Clone, Debug)]
pub struct McmfSolution {
    pub max_flow: i64,
    pub total_cost: i128,
    pub paths: Vec<Path>,
}

impl McmfSolution {
    /// The value of the maximum flow.
    pub fn max_flow(&self) -> (r: i64)
        ensures
            r == self.max_flow,
    {
        self.max_flow
    }

    /// The total cost of the minimum-cost flow, in the integer cost units
    /// the edges were given in.
    pub fn total_cost(&self) -> (r: i128)
        ensures
            r == self.total_cost,
    {
        self.total_cost
    }

    /// The decomposed paths, in the order the engine emitted them.
    pub fn paths(&self) -> (r: &Vec<Path>)
        ensures
            r == &self.paths,
    {
        &self.paths
    }
}

} // verus!
