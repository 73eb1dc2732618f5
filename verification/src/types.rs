//! Value types returned when a configuration is evaluated.
use vstd::prelude::*;

verus! {

/// Outcome of a feasibility (decision) problem: whether the configuration
/// satisfies every constraint.
#[derive(Debug, Clone, Copy, PartialEq, Eq)]
pub struct Or(pub bool);

/// Outcome of a minimization problem: `Some(objective)` for a feasible
/// configuration, `None` otherwise.
#[derive(Debug, Clone, Copy, PartialEq, Eq)]
pub struct Min<T>(pub Option<T>);

/// Outcome of a maximization problem: `Some(objective)` for a feasible
/// configuration, `None` otherwise.
#[derive(Debug, Clone, Copy, PartialEq, Eq)]
pub struct Max<T>(pub Option<T>);

/// Outcome of a counting problem: the configuration's contribution.
#[derive(Debug, Clone, Copy, PartialEq, Eq)]
pub struct Sum<T>(pub T);

/// Outcome of an optimization problem with an explicit validity flag.
#[derive(Debug, Clone, Copy, PartialEq, Eq)]
pub enum SolutionSize<T> {
    Valid(T),
    Invalid,
}

/// Optimization direction of a problem.
#[derive(Debug, Clone, Copy, PartialEq, Eq)]
pub enum Direction {
    Minimize,
    Maximize,
}

} // verus!
