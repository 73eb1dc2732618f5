#![verifier::loop_isolation(false)]
//! Verified models of classical combinatorial decision and optimization
//! problems: each model stores a problem instance and evaluates candidate
//! configurations against it.
use vstd::prelude::*;

pub mod topology;
pub mod types;
pub mod dag;
pub mod fd;
pub mod circulation;
pub mod flow;
pub mod message;
pub mod models;
pub mod reach;
pub mod util;

verus! {

} // verus!
