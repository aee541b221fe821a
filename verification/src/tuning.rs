//! Tuning parameters.
use crate::bits;
use vstd::prelude::*;

verus! {

/// `1e10`: nuclear-norm penalty from which the low-rank component is dropped.
pub const NN_CAP: u64 = 0x4202_A05F_2000_0000;

/// Bandwidths of the time and unit kernels, and nuclear-norm penalty.
#[derive(Debug, Clone, Copy, PartialEq, Eq, Structural)]
pub struct Lambdas {
    pub time: u64,
    pub unit: u64,
    pub nn: u64,
}

/// Kernel bandwidth used in computation: an infinite one means uniform weights.
pub open spec fn effective_bandwidth(b: u64) -> u64 {
    if bits::infinite(b) {
        bits::ZERO
    } else {
        b
    }
}

/// Penalty used in computation: an infinite one is replaced by a large one.
pub open spec fn effective_penalty(b: u64) -> u64 {
    if bits::infinite(b) {
        NN_CAP
    } else {
        b
    }
}

/// Parameters used in computation.
pub open spec fn effective_of(l: Lambdas) -> Lambdas {
    Lambdas {
        time: effective_bandwidth(l.time),
        unit: effective_bandwidth(l.unit),
        nn: effective_penalty(l.nn),
    }
}

/// Replaces infinite parameters by those used in computation.
pub fn effective(l: Lambdas) -> (r: Lambdas)
    ensures
        r == effective_of(l),
{
    let time: u64 = if bits::is_infinite(l.time) {
        bits::ZERO
    } else {
        l.time
    };
    let unit: u64 = if bits::is_infinite(l.unit) {
        bits::ZERO
    } else {
        l.unit
    };
    let nn: u64 = if bits::is_infinite(l.nn) {
        NN_CAP
    } else {
        l.nn
    };
    Lambdas { time, unit, nn }
}

/// Effective parameters are never infinite, and are their own effective
/// parameters.
pub proof fn law_effective(l: Lambdas)
    ensures
        !bits::infinite(effective_of(l).time),
        !bits::infinite(effective_of(l).unit),
        !bits::infinite(effective_of(l).nn),
        effective_of(effective_of(l)) == effective_of(l),
{
}

/// The low-rank component is dropped under penalty `nn`.
pub open spec fn without_low_rank(nn: u64) -> bool {
    bits::le(NN_CAP, nn)
}

/// Whether the low-rank component is dropped under penalty `nn`.
pub fn drops_low_rank(nn: u64) -> (r: bool)
    ensures
        r == without_low_rank(nn),
{
    bits::less_or_equal(NN_CAP, nn)
}

/// An infinite penalty drops the low-rank component.
pub proof fn law_infinite_penalty_drops_low_rank(nn: u64)
    requires
        bits::infinite(nn),
    ensures
        bits::le(NN_CAP, effective_penalty(nn)),
{
}

/// `0.05`, the significance level used where none is given.
pub const DEFAULT_ALPHA: u64 = 0x3FA9_9999_9999_999A;

/// Significance level used in computation: one at or outside the ends of the
/// unit interval is replaced by the default.
pub fn effective_alpha(alpha: u64) -> (r: u64)
    ensures
        r == if bits::le(alpha, bits::ZERO) || bits::le(bits::ONE, alpha) {
            DEFAULT_ALPHA
        } else {
            alpha
        },
{
    if bits::less_or_equal(alpha, bits::ZERO) || bits::less_or_equal(bits::ONE, alpha) {
        DEFAULT_ALPHA
    } else {
        alpha
    }
}

/// Degrees-of-freedom correction used in computation: zero or one.
pub fn effective_ddof(ddof: i32) -> (r: u8)
    ensures
        r == if ddof == 0 {
            0
        } else {
            1int
        },
{
    if ddof == 0 {
        0
    } else {
        1
    }
}

/// An infinite bandwidth means uniform weights, an infinite penalty a penalty of
/// `1e10`; every other parameter is used as it is.
pub proof fn law_only_infinite_parameters_change(l: Lambdas, r: Lambdas)
    requires
        call_ensures(effective, (l,), r),
    ensures
        bits::infinite(l.time) ==> r.time == 0,
        !bits::infinite(l.time) ==> r.time == l.time,
        bits::infinite(l.unit) ==> r.unit == 0,
        !bits::infinite(l.unit) ==> r.unit == l.unit,
        bits::infinite(l.nn) ==> r.nn == 0x4202_A05F_2000_0000,
        !bits::infinite(l.nn) ==> r.nn == l.nn,
{
}

/// The low-rank component is dropped exactly from a penalty of `1e10` on.
pub proof fn law_large_penalty_drops_low_rank(nn: u64, r: bool)
    requires
        call_ensures(drops_low_rank, (nn,), r),
    ensures
        r <==> !bits::nan(nn) && !bits::lt(nn, 0x4202_A05F_2000_0000),
{
}

/// A significance level strictly inside the unit interval is used as it is, and
/// one outside is replaced by `0.05`.
pub proof fn law_significance_level(alpha: u64, r: u64)
    requires
        call_ensures(effective_alpha, (alpha,), r),
    ensures
        bits::nan(alpha) || bits::lt(bits::ZERO, alpha) && bits::lt(alpha, bits::ONE) ==> r
            == alpha,
        bits::le(alpha, bits::ZERO) || bits::le(bits::ONE, alpha) ==> r == 0x3FA9_9999_9999_999A,
{
}

/// The sample variance is taken unless the correction is zero.
pub proof fn law_degrees_of_freedom(ddof: i32, r: u8)
    requires
        call_ensures(effective_ddof, (ddof,), r),
    ensures
        r == 0 <==> ddof == 0,
        r == 1 <==> ddof != 0,
{
}

} // verus!
