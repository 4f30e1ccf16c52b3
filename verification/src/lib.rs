//! Liveness analysis of one function body, and a map of pointer handles.
//!
//! The analysis says, for every variable and every point of a body, whether
//! the value that the variable holds there is read again before it is
//! overwritten. It runs in three passes over the tree in `hir`:
//!
//! - `ir_maps` numbers the live nodes and the variables of the body;
//! - `propagate` walks the body against the order of execution and fills
//!   the table of `rwu` facts, iterating loops to a fixed point;
//! - `diagnostics` walks the body once more and lists unused variables,
//!   dead assignments and unused captures.
//!
//! `flow` states as mathematics what the second pass computes. `numbering`,
//! `size`, `soundness`, `wellformed` and `findings` prove what holds of the
//! passes, and `laws` states what follows for the analysis as a whole.
//!
//! `fake_ptr` stands apart: a map that parks values and hands out numbers
//! in their place.

use vstd::prelude::*;

pub mod diagnostics;
pub mod fake_ptr;
pub mod findings;
pub mod flow;
pub mod hir;
pub mod ir_maps;
pub mod laws;
pub mod numbering;
pub mod propagate;
pub mod rwu;
pub mod size;
pub mod soundness;
pub mod wellformed;

verus! {

} // verus!
