//! Shapes of the functions on encodings that callers supply.
//!
//! Each trait only names a signature: every function of that signature has it.
use crate::inference::Aggregation;
use crate::matrix::Matrix;
use vstd::prelude::*;

verus! {

/// A number from a number.
pub trait Unary: Fn(u64) -> u64 {}

impl<F: Fn(u64) -> u64> Unary for F {}

/// A number from two numbers.
pub trait Binary: Fn(u64, u64) -> u64 {}

impl<F: Fn(u64, u64) -> u64> Binary for F {}

/// A number from three numbers.
pub trait Ternary: Fn(u64, u64, u64) -> u64 {}

impl<F: Fn(u64, u64, u64) -> u64> Ternary for F {}

/// A number from some numbers, such as their sum or mean.
pub trait Summary: Fn(&Vec<u64>) -> u64 {}

impl<F: Fn(&Vec<u64>) -> u64> Summary for F {}

/// A number from some pairs, such as the root mean square of their differences.
pub trait PairSummary: Fn(&Vec<(u64, u64)>) -> u64 {}

impl<F: Fn(&Vec<(u64, u64)>) -> u64> PairSummary for F {}

/// A weight from a bandwidth and a distance in periods.
pub trait TimeDecay: Fn(u64, i64) -> u64 {}

impl<F: Fn(u64, i64) -> u64> TimeDecay for F {}

/// A weight from a bandwidth and twice a distance in periods.
pub trait DoubledDecay: Fn(u64, u128) -> u64 {}

impl<F: Fn(u64, u128) -> u64> DoubledDecay for F {}

/// A least-squares solution from a matrix stored column by column, a response,
/// and the numbers of rows and of columns.
pub trait Solver: Fn(&Vec<u64>, &Vec<u64>, usize, usize) -> Option<Vec<u64>> {}

impl<F: Fn(&Vec<u64>, &Vec<u64>, usize, usize) -> Option<Vec<u64>>> Solver for F {}

/// The effect of a cell under a model, from the outcomes and the covariates of
/// the panel, the model and the cell.
pub trait CellEffect<M>:
    Fn(&Matrix<u64>, Option<&Matrix<u64>>, &M, (usize, usize)) -> u64
{
}

impl<M, F: Fn(&Matrix<u64>, Option<&Matrix<u64>>, &M, (usize, usize)) -> u64> CellEffect<M> for F {}

/// The effect of a cell under a model can be asked for.
pub open spec fn effect_ready<M, E: CellEffect<M>>(effect: E) -> bool {
    forall|y: &Matrix<u64>, x: Option<&Matrix<u64>>, m: &M, cell: (usize, usize)| #[trigger]
        call_requires(effect, (y, x, m, cell))
}

/// A number from effects that can be averaged.
pub trait Average: Fn(&Aggregation) -> u64 {}

impl<F: Fn(&Aggregation) -> u64> Average for F {}

/// Effects can be averaged.
pub open spec fn average_ready<A: Average>(average: A) -> bool {
    forall|a: &Aggregation| #[trigger] call_requires(average, (a,))
}

/// Mean, variance and standard error of some numbers, from the numbers and what
/// the sum of squares is divided by.
pub trait Spread: Fn(&Vec<u64>, usize) -> (u64, u64, u64) {}

impl<F: Fn(&Vec<u64>, usize) -> (u64, u64, u64)> Spread for F {}

/// Positions of the ends of an interval in a sorted sample, from its size.
pub trait Positions: Fn(usize) -> (u64, u64) {}

impl<F: Fn(usize) -> (u64, u64)> Positions for F {}

/// A number between two neighbours of a sorted sample, from the two, the place
/// of the first and the position sought.
pub trait Blend: Fn(u64, u64, usize, u64) -> u64 {}

impl<F: Fn(u64, u64, usize, u64) -> u64> Blend for F {}

/// Estimates can be summarized.
pub open spec fn summary_ready<V: Spread, N: Positions, X: Blend>(
    spread: V,
    positions: N,
    blend: X,
) -> bool {
    &&& forall|v: &Vec<u64>, n: usize| #[trigger] call_requires(spread, (v, n))
    &&& forall|n: usize| #[trigger] call_requires(positions, (n,))
    &&& forall|p: u64, q: u64, low: usize, i: u64| #[trigger]
        call_requires(blend, (p, q, low, i))
}

} // verus!
