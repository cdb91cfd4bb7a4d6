use vstd::prelude::*;

pub mod client;
pub mod convergence;
pub mod executor;
pub mod label;
mod outside;
pub mod reconcile;

verus! {

} // verus!
