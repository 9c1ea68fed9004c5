//! The contract.

use vstd::prelude::*;

verus! {

/// The prediction hub. Its calls are the functions of this type; each works on
/// the [`Env`](crate::Env) it is given.
pub struct PredictionHub;

} // verus!
