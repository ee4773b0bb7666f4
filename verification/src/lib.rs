//! Minimum-cost maximum-flow service over labelled directed multigraphs.
//!
//! A `GraphBuilder` collects labelled, capacitated, costed edges; `solve_mcmf`
//! computes the maximum flow between two labels, a minimum-cost flow of that
//! value (both through an external graph-algorithms library), and then
//! decomposes the per-edge flow assignment into source-to-sink paths whose
//! flow amounts reconstruct the assignment exactly.  The decomposition engine
//! and all surrounding logic are verified; the external solvers are called
//! through a small set of trusted wrappers.

pub mod model;
pub mod solution;
pub mod decompose;
pub mod solver;
pub mod builder;

pub use builder::GraphBuilder;
pub use model::PathModel;
pub use solution::{McmfError, McmfSolution, Path};
