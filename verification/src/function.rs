//! Functions of the ontology: declarative logic that returns typed data.

use vstd::prelude::*;

verus! {

/// Runs the logic of a function definition.
#[derive(Debug, Clone, Copy)]
pub struct FunctionExecutor;

} // verus!
