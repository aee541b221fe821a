//! IEEE-754 binary64 numbers as bit patterns.
//!
//! Classification and comparison of a floating-point number are integer
//! functions of its encoding: the sign is the top bit, and the remaining 63
//! bits, read as an integer, order the magnitudes.
use vstd::arithmetic::div_mod::{
    lemma_div_denominator, lemma_div_is_ordered, lemma_div_is_ordered_by_denominator,
    lemma_div_pos_is_pos, lemma_fundamental_div_mod_converse, lemma_hoist_over_denominator,
};
use vstd::arithmetic::power2::{
    lemma2_to64, lemma_pow2_adds, lemma_pow2_pos, lemma_pow2_unfold, pow2,
};
use vstd::prelude::*;

verus! {

/// The sign bit, and the number of magnitudes.
pub const SIGN: u64 = 0x8000_0000_0000_0000;

/// `+inf`.
pub const INFINITY: u64 = 0x7FF0_0000_0000_0000;

/// The canonical quiet NaN.
pub const NAN: u64 = 0x7FF8_0000_0000_0000;

/// `+0.0`.
pub const ZERO: u64 = 0;

/// `1.0`.
pub const ONE: u64 = 0x3FF0_0000_0000_0000;

/// `0.5`.
pub const HALF: u64 = 0x3FE0_0000_0000_0000;

/// Magnitude part of an encoding: everything but the sign.
pub open spec fn magnitude(b: u64) -> int {
    if b >= SIGN {
        b - SIGN
    } else {
        b as int
    }
}

pub open spec fn nan(b: u64) -> bool {
    magnitude(b) > INFINITY
}

pub open spec fn infinite(b: u64) -> bool {
    magnitude(b) == INFINITY
}

pub open spec fn finite(b: u64) -> bool {
    magnitude(b) < INFINITY
}

/// Whether the number is zero, of either sign.
pub open spec fn zero(b: u64) -> bool {
    magnitude(b) == 0
}

/// Integer that orders all numbers but NaN as their values are ordered.
pub open spec fn value_key(b: u64) -> int {
    if b >= SIGN {
        -magnitude(b)
    } else {
        magnitude(b)
    }
}

/// `a < b` on floating-point numbers.
pub open spec fn lt(a: u64, b: u64) -> bool {
    !nan(a) && !nan(b) && value_key(a) < value_key(b)
}

/// `a <= b` on floating-point numbers.
pub open spec fn le(a: u64, b: u64) -> bool {
    !nan(a) && !nan(b) && value_key(a) <= value_key(b)
}

/// `a == b` on floating-point numbers.
pub open spec fn same(a: u64, b: u64) -> bool {
    !nan(a) && !nan(b) && value_key(a) == value_key(b)
}

/// Integer that orders every encoding as IEEE-754 `totalOrder` does.
pub open spec fn total_key(b: u64) -> int {
    if b >= SIGN {
        -1 - magnitude(b)
    } else {
        magnitude(b)
    }
}

/// Whether the number is strictly positive and finite.
pub open spec fn positive_finite(b: u64) -> bool {
    finite(b) && lt(ZERO, b)
}

pub fn is_nan(b: u64) -> (r: bool)
    ensures
        r == nan(b),
{
    let m: u64 = abs(b);
    m > INFINITY
}

/// Encoding of the absolute value.
pub fn abs(b: u64) -> (m: u64)
    ensures
        m == magnitude(b),
        m < SIGN,
{
    if b >= SIGN {
        b - SIGN
    } else {
        b
    }
}

pub fn is_infinite(b: u64) -> (r: bool)
    ensures
        r == infinite(b),
{
    abs(b) == INFINITY
}

pub fn is_finite(b: u64) -> (r: bool)
    ensures
        r == finite(b),
{
    abs(b) < INFINITY
}

pub fn is_zero(b: u64) -> (r: bool)
    ensures
        r == zero(b),
{
    abs(b) == 0
}

pub fn less_than(a: u64, b: u64) -> (r: bool)
    ensures
        r == lt(a, b),
{
    if is_nan(a) || is_nan(b) {
        false
    } else if a >= SIGN {
        if b >= SIGN {
            abs(b) < abs(a)
        } else {
            abs(a) > 0 || abs(b) > 0
        }
    } else {
        b < SIGN && a < b
    }
}

pub fn less_or_equal(a: u64, b: u64) -> (r: bool)
    ensures
        r == le(a, b),
{
    if is_nan(a) || is_nan(b) {
        false
    } else {
        !less_than(b, a)
    }
}

pub fn equal(a: u64, b: u64) -> (r: bool)
    ensures
        r == same(a, b),
{
    less_or_equal(a, b) && less_or_equal(b, a)
}

/// Strict comparison in the total order of encodings.
pub fn total_less(a: u64, b: u64) -> (r: bool)
    ensures
        r == (total_key(a) < total_key(b)),
{
    if a >= SIGN {
        b < SIGN || a > b
    } else {
        b < SIGN && a < b
    }
}

pub fn is_positive_finite(b: u64) -> (r: bool)
    ensures
        r == positive_finite(b),
{
    is_finite(b) && less_than(ZERO, b)
}

/// Integer significand of a finite number.
pub open spec fn significand(b: u64) -> int {
    if magnitude(b) < 0x10_0000_0000_0000 {
        magnitude(b)
    } else {
        0x10_0000_0000_0000 + magnitude(b) % 0x10_0000_0000_0000
    }
}

/// Power of two that scales [`significand`], shifted up by 1075 so that it is
/// not negative: a finite number is `significand * 2^(exponent - 1075)`.
pub open spec fn exponent(b: u64) -> int {
    if magnitude(b) < 0x10_0000_0000_0000 {
        1
    } else {
        magnitude(b) / 0x10_0000_0000_0000
    }
}

/// Common denominator of all finite numbers, `2^1074`.
pub open spec fn denominator() -> int {
    pow2(1074) as int
}

/// Absolute value of a finite number times [`denominator`].
pub open spec fn numerator(b: u64) -> int {
    significand(b) * pow2((exponent(b) - 1) as nat)
}

/// Integer part of the absolute value of a finite number.
pub open spec fn integer_part(b: u64) -> int {
    numerator(b) / denominator()
}

/// Absolute value of a finite number rounded to the nearest integer, halfway
/// cases away from zero.
pub open spec fn rounded_part(b: u64) -> int {
    (numerator(b) + pow2(1073)) / denominator()
}

/// Absolute value of a finite number rounded up to an integer.
pub open spec fn ceiling_part(b: u64) -> int {
    (numerator(b) + denominator() - 1) / denominator()
}

/// Integer `n` as an index, capped at the largest one.
pub open spec fn capped(n: int) -> int {
    if n <= usize::MAX {
        n
    } else {
        usize::MAX as int
    }
}

/// Index that a floating-point number converts to: the integer part, zero
/// for NaN and negative numbers, the largest index where it does not fit.
pub open spec fn index_of(b: u64) -> int {
    if nan(b) || b >= SIGN {
        0
    } else if infinite(b) {
        usize::MAX as int
    } else {
        capped(integer_part(b))
    }
}

/// Index that a floating-point number converts to after rounding.
pub open spec fn rounded_index_of(b: u64) -> int {
    if nan(b) || b >= SIGN {
        0
    } else if infinite(b) {
        usize::MAX as int
    } else {
        capped(rounded_part(b))
    }
}

/// Index that a floating-point number converts to after rounding up.
pub open spec fn ceiling_index_of(b: u64) -> int {
    if nan(b) || b >= SIGN {
        0
    } else if infinite(b) {
        usize::MAX as int
    } else {
        capped(ceiling_part(b))
    }
}

proof fn lemma_halve_up(n: int, k: nat)
    requires
        n >= 0,
        k > 0,
    ensures
        (n + pow2(k) - 1) / (pow2(k) as int) == ((n + 1) / 2 + pow2((k - 1) as nat) - 1) / (pow2(
            (k - 1) as nat,
        ) as int),
{
    lemma_pow2_pos((k - 1) as nat);
    lemma_pow2_unfold(k);
    let p: int = pow2((k - 1) as nat) as int;
    lemma_div_denominator(n + 2 * p - 1, 2, p);
    assert((n + 2 * p - 1) / 2 == (n + 1) / 2 + p - 1);
}

proof fn lemma_halve(n: int, k: nat)
    requires
        n >= 0,
        k > 0,
    ensures
        n / (pow2(k) as int) == (n / 2) / (pow2((k - 1) as nat) as int),
{
    lemma_pow2_pos((k - 1) as nat);
    lemma_pow2_unfold(k);
    lemma_div_denominator(n, 2, pow2((k - 1) as nat) as int);
}

proof fn lemma_double(n: int, k: nat)
    requires
        k > 0,
    ensures
        n * pow2(k) == (n * 2) * pow2((k - 1) as nat),
{
    lemma_pow2_unfold(k);
    let p: int = pow2((k - 1) as nat) as int;
    assert(n * (2 * p) == (n * 2) * p) by (nonlinear_arith);
}

proof fn lemma_round_by_halves(n: int, k: nat)
    requires
        n >= 0,
    ensures
        (n + pow2(k)) / (pow2(k + 1) as int) == (n / (pow2(k) as int) + 1) / 2,
{
    lemma_pow2_pos(k);
    lemma_pow2_unfold(k + 1);
    let p: int = pow2(k) as int;
    assert(p * 2 == 2 * p);
    lemma_div_denominator(n + p, p, 2);
    lemma_hoist_over_denominator(n, 1, p as nat);
}

proof fn lemma_numerator(b: u64)
    ensures
        numerator(b) >= 0,
        denominator() > 0,
{
    lemma_pow2_pos(1074);
    lemma_pow2_pos((exponent(b) - 1) as nat);
    let (n, p) = (significand(b), pow2((exponent(b) - 1) as nat) as int);
    assert(n * p >= 0) by (nonlinear_arith)
        requires
            n >= 0,
            p >= 0,
    ;
}

/// Rounding up gives the integer part or the integer after it.
pub proof fn lemma_ceiling_next(b: u64)
    ensures
        index_of(b) <= ceiling_index_of(b) <= index_of(b) + 1,
        0 <= index_of(b) <= usize::MAX,
        0 <= ceiling_index_of(b) <= usize::MAX,
{
    lemma_numerator(b);
    let (n, p) = (numerator(b), denominator());
    lemma_hoist_over_denominator(n, 1, p as nat);
    lemma_div_is_ordered(n, n + p - 1, p);
    lemma_div_is_ordered(n + p - 1, n + p, p);
    lemma_div_pos_is_pos(n, p);
}

/// A rounded number is an index.
pub proof fn lemma_rounded_is_index(b: u64)
    ensures
        0 <= rounded_index_of(b) <= usize::MAX,
{
    lemma_numerator(b);
    lemma_div_pos_is_pos(numerator(b) + pow2(1073), denominator());
}

/// A number without a fractional part: all roundings give that integer.
proof fn lemma_whole(b: u64)
    requires
        exponent(b) >= 1075,
    ensures
        ({
            let whole = significand(b) * pow2((exponent(b) - 1075) as nat);
            integer_part(b) == whole && rounded_part(b) == whole && ceiling_part(b) == whole
        }),
{
    let k = (exponent(b) - 1075) as nat;
    let (n, q, p) = (significand(b), pow2(k) as int, denominator());
    lemma_pow2_adds(k, 1074);
    lemma_pow2_pos(1074);
    lemma_pow2_pos(1073);
    lemma_pow2_unfold(1074);
    let whole = n * q;
    assert(n * (q * p) == whole * p) by (nonlinear_arith)
        requires
            whole == n * q,
    ;
    assert(numerator(b) == whole * p);
    assert(whole * p == p * whole) by (nonlinear_arith);
    lemma_fundamental_div_mod_converse(whole * p, p, whole, 0);
    lemma_fundamental_div_mod_converse(whole * p + pow2(1073), p, whole, pow2(1073) as int);
    lemma_fundamental_div_mod_converse(whole * p + p - 1, p, whole, p - 1);
}

/// A number with a fractional part: the roundings divide the significand.
proof fn lemma_fractional(b: u64)
    requires
        exponent(b) < 1075,
    ensures
        ({
            let n = significand(b);
            let k = (1075 - exponent(b)) as nat;
            &&& integer_part(b) == n / (pow2(k) as int)
            &&& rounded_part(b) == (n + pow2((k - 1) as nat)) / (pow2(k) as int)
            &&& ceiling_part(b) == (n + pow2(k) - 1) / (pow2(k) as int)
        }),
{
    let e = (exponent(b) - 1) as nat;
    let k = (1075 - exponent(b)) as nat;
    let (n, q, r) = (significand(b), pow2(e) as int, pow2(k) as int);
    let h = pow2((k - 1) as nat) as int;
    lemma_pow2_adds(e, k);
    lemma_pow2_adds(e, (k - 1) as nat);
    lemma_pow2_pos(e);
    lemma_pow2_pos(k);
    assert(denominator() == q * r);
    assert(pow2(1073) as int == q * h);
    lemma_scaled_division(n, q, r);
    assert(n * q + q * h == (n + h) * q) by (nonlinear_arith);
    lemma_scaled_division(n + h, q, r);
    assert(n * q + q * r - 1 == (n + r) * q - 1) by (nonlinear_arith);
    assert((n + r) * q - 1 == (n + r - 1) * q + (q - 1)) by (nonlinear_arith);
    assert((n + r - 1) * q == q * (n + r - 1)) by (nonlinear_arith);
    assert((n + r - 1) * q + (q - 1) >= 0) by (nonlinear_arith)
        requires
            n >= 0,
            r >= 1,
            q >= 1,
    ;
    lemma_div_denominator((n + r) * q - 1, q, r);
    lemma_fundamental_div_mod_converse((n + r) * q - 1, q, n + r - 1, q - 1);
}

proof fn lemma_scaled_division(n: int, q: int, r: int)
    requires
        n >= 0,
        q > 0,
        r > 0,
    ensures
        (n * q) / (q * r) == n / r,
{
    assert(n * q >= 0) by (nonlinear_arith)
        requires
            n >= 0,
            q > 0,
    ;
    lemma_div_denominator(n * q, q, r);
    assert(n * q == q * n) by (nonlinear_arith);
    lemma_fundamental_div_mod_converse(n * q, q, n, 0);
}

/// Significand and scaled exponent of a finite number.
fn decompose(b: u64) -> (r: (u64, u64))
    requires
        finite(b),
    ensures
        r.0 == significand(b),
        r.1 == exponent(b),
        1 <= r.1 < 2047,
        r.0 < 0x20_0000_0000_0000,
        r.1 >= 1075 ==> r.0 > 0,
{
    let m: u64 = abs(b);
    let unit: u64 = 0x10_0000_0000_0000;
    if m < unit {
        (m, 1)
    } else {
        (unit + m % unit, m / unit)
    }
}

/// `n / 2^k`.
fn shift_down(n: u64, k: u64) -> (r: u64)
    ensures
        r == n as int / (pow2(k as nat) as int),
{
    let mut rest: u64 = n;
    let mut left: u64 = k;
    while left > 0
        invariant
            n as int / (pow2(k as nat) as int) == rest as int / (pow2(left as nat) as int),
        decreases left,
    {
        proof {
            lemma_halve(rest as int, left as nat);
        }
        rest = rest / 2;
        left = left - 1;
    }
    proof {
        lemma2_to64();
        assert(pow2(left as nat) == 1);
        assert(rest as int / 1 == rest);
    }
    rest
}

/// `n / 2^k`, rounded up.
fn shift_down_up(n: u64, k: u64) -> (r: u64)
    requires
        n < u64::MAX,
    ensures
        r == (n + pow2(k as nat) - 1) / (pow2(k as nat) as int),
{
    let mut rest: u64 = n;
    let mut left: u64 = k;
    while left > 0
        invariant
            rest < u64::MAX,
            (n + pow2(k as nat) - 1) / (pow2(k as nat) as int) == (rest + pow2(left as nat) - 1) / (
            pow2(left as nat) as int),
        decreases left,
    {
        proof {
            lemma_halve_up(rest as int, left as nat);
        }
        rest = (rest + 1) / 2;
        left = left - 1;
    }
    proof {
        lemma2_to64();
        assert(pow2(left as nat) == 1);
        assert(rest as int / 1 == rest);
    }
    rest
}

/// `n * 2^k`, capped at the largest index.
fn shift_up(n: u64, k: u64) -> (r: usize)
    requires
        n > 0,
    ensures
        r == capped(n * pow2(k as nat)),
{
    let mut rest: u64 = n;
    let mut left: u64 = k;
    while left > 0
        invariant
            rest > 0,
            n * pow2(k as nat) == rest * pow2(left as nat),
        decreases left,
    {
        proof {
            lemma_double(rest as int, left as nat);
        }
        if rest >= SIGN {
            proof {
                lemma_pow2_pos((left - 1) as nat);
                let p: int = pow2((left - 1) as nat) as int;
                assert((rest * 2) * p >= rest * 2) by (nonlinear_arith)
                    requires
                        p >= 1,
                        rest > 0,
                ;
            }
            return usize::MAX;
        }
        rest = rest * 2;
        left = left - 1;
    }
    proof {
        lemma2_to64();
        assert(pow2(left as nat) == 1);
        assert(rest * 1 == rest);
    }
    cap(rest)
}

fn cap(n: u64) -> (r: usize)
    ensures
        r == capped(n as int),
{
    if n > usize::MAX as u64 {
        usize::MAX
    } else {
        n as usize
    }
}

/// Conversion of a floating-point number to an index, towards zero and
/// saturating.
pub fn truncate(b: u64) -> (r: usize)
    ensures
        r == index_of(b),
{
    if is_nan(b) || b >= SIGN {
        return 0;
    }
    if is_infinite(b) {
        return usize::MAX;
    }
    let (sig, exp) = decompose(b);
    proof {
        if exp >= 1075 {
            lemma_whole(b);
        } else {
            lemma_fractional(b);
        }
    }
    if exp >= 1075 {
        shift_up(sig, exp - 1075)
    } else {
        cap(shift_down(sig, 1075 - exp))
    }
}

/// Conversion of a floating-point number to an index, to the nearest integer
/// and saturating.
pub fn round(b: u64) -> (r: usize)
    ensures
        r == rounded_index_of(b),
{
    if is_nan(b) || b >= SIGN {
        return 0;
    }
    if is_infinite(b) {
        return usize::MAX;
    }
    let (sig, exp) = decompose(b);
    proof {
        if exp >= 1075 {
            lemma_whole(b);
        } else {
            lemma_fractional(b);
        }
    }
    if exp >= 1075 {
        shift_up(sig, exp - 1075)
    } else {
        let half: u64 = shift_down(sig, 1074 - exp);
        proof {
            lemma_round_by_halves(sig as int, (1074 - exp) as nat);
            lemma_pow2_pos((1074 - exp) as nat);
            lemma_div_is_ordered_by_denominator(sig as int, 1, pow2((1074 - exp) as nat) as int);
        }
        cap((half + 1) / 2)
    }
}

/// Conversion of a floating-point number to an index, upwards and saturating.
pub fn ceiling(b: u64) -> (r: usize)
    ensures
        r == ceiling_index_of(b),
{
    if is_nan(b) || b >= SIGN {
        return 0;
    }
    if is_infinite(b) {
        return usize::MAX;
    }
    let (sig, exp) = decompose(b);
    proof {
        if exp >= 1075 {
            lemma_whole(b);
        } else {
            lemma_fractional(b);
        }
    }
    if exp >= 1075 {
        shift_up(sig, exp - 1075)
    } else {
        cap(shift_down_up(sig, 1075 - exp))
    }
}

/// `<` on floating-point numbers is a strict order, total but for NaN and for
/// numbers that are equal.
pub proof fn law_value_order(a: u64, b: u64, c: u64)
    ensures
        !lt(a, a),
        lt(a, b) ==> !lt(b, a),
        lt(a, b) && lt(b, c) ==> lt(a, c),
        !nan(a) && !nan(b) ==> lt(a, b) || same(a, b) || lt(b, a),
        nan(a) ==> !lt(a, b) && !lt(b, a),
{
}

/// The total order of encodings is a strict total order that extends `<`.
pub proof fn law_total_order(a: u64, b: u64)
    ensures
        total_key(a) == total_key(b) ==> a == b,
        lt(a, b) ==> total_key(a) < total_key(b),
{
}

proof fn lemma_numerator_increases(a: u64, b: u64)
    requires
        finite(a),
        finite(b),
        magnitude(a) < magnitude(b),
    ensures
        numerator(a) < numerator(b),
{
    let (ea, eb) = (exponent(a), exponent(b));
    let (na, nb) = (significand(a), significand(b));
    let pa = pow2((ea - 1) as nat) as int;
    let pb = pow2((eb - 1) as nat) as int;
    lemma_pow2_pos((ea - 1) as nat);
    if ea == eb {
        assert(na < nb);
        assert(na * pa < nb * pa) by (nonlinear_arith)
            requires
                na < nb,
                pa > 0,
        ;
    } else {
        assert(ea < eb);
        assert(na < 2 * nb);
        let k = (eb - ea) as nat;
        lemma_pow2_adds((ea - 1) as nat, k);
        lemma_pow2_unfold(k);
        lemma_pow2_pos((k - 1) as nat);
        let h = pow2((k - 1) as nat) as int;
        assert(pb == pa * (2 * h));
        assert(na * pa < nb * (pa * (2 * h))) by (nonlinear_arith)
            requires
                0 <= na < 2 * nb,
                pa > 0,
                h >= 1,
        ;
    }
}

/// Signed value of a finite number times [`denominator`].
pub open spec fn signed_numerator(b: u64) -> int {
    if b >= SIGN {
        -numerator(b)
    } else {
        numerator(b)
    }
}

/// Comparing encodings compares the numbers they encode.
pub proof fn law_order_is_numeric(a: u64, b: u64)
    requires
        finite(a),
        finite(b),
    ensures
        lt(a, b) <==> signed_numerator(a) < signed_numerator(b),
        same(a, b) <==> signed_numerator(a) == signed_numerator(b),
{
    lemma_numerator(a);
    lemma_numerator(b);
    if magnitude(a) < magnitude(b) {
        lemma_numerator_increases(a, b);
    }
    if magnitude(b) < magnitude(a) {
        lemma_numerator_increases(b, a);
    }
    let z: u64 = 0;
    assert(numerator(z) == 0) by {
        assert(significand(z) == 0);
        assert(0 * pow2((exponent(z) - 1) as nat) == 0);
    }
    if magnitude(a) == 0 {
        assert(significand(a) == 0);
        assert(numerator(a) == 0);
    } else {
        lemma_numerator_increases(z, a);
    }
    if magnitude(b) == 0 {
        assert(significand(b) == 0);
        assert(numerator(b) == 0);
    } else {
        lemma_numerator_increases(z, b);
    }
    if magnitude(a) == magnitude(b) {
        assert(numerator(a) == numerator(b));
    }
}

/// Converting to an index keeps the order of the numbers.
pub proof fn law_index_monotone(a: u64, b: u64)
    requires
        le(a, b),
    ensures
        index_of(a) <= index_of(b),
        ceiling_index_of(a) <= ceiling_index_of(b),
        rounded_index_of(a) <= rounded_index_of(b),
{
    lemma_ceiling_next(a);
    lemma_ceiling_next(b);
    lemma_rounded_is_index(a);
    lemma_rounded_is_index(b);
    if a < SIGN && b < SIGN && finite(a) && finite(b) {
        lemma_numerator(a);
        if magnitude(a) < magnitude(b) {
            lemma_numerator_increases(a, b);
        } else {
            assert(a == b);
        }
        let p = denominator();
        lemma_div_is_ordered(numerator(a), numerator(b), p);
        lemma_div_is_ordered(numerator(a) + pow2(1073), numerator(b) + pow2(1073), p);
        lemma_div_is_ordered(numerator(a) + p - 1, numerator(b) + p - 1, p);
    } else if a < SIGN && b >= SIGN {
        let p = denominator();
        lemma_pow2_unfold(1074);
        lemma_pow2_pos(1073);
        assert(significand(a) == 0);
        assert(numerator(a) == 0);
        lemma_fundamental_div_mod_converse(0, p, 0, 0);
        lemma_fundamental_div_mod_converse(pow2(1073) as int, p, 0, pow2(1073) as int);
        lemma_fundamental_div_mod_converse(p - 1, p, 0, p - 1);
    }
}

/// A number at or above zero and at most `m` lies between the whole numbers that
/// it converts to: from the one below it to less than the next, and from more
/// than one less up to the one above it.
pub proof fn law_index_encloses_number(b: u64, m: int)
    requires
        b < SIGN,
        finite(b),
        m <= usize::MAX,
        numerator(b) <= m * denominator(),
    ensures
        0 <= index_of(b) <= ceiling_index_of(b) <= m,
        index_of(b) * denominator() <= numerator(b) < (index_of(b) + 1) * denominator(),
        (ceiling_index_of(b) - 1) * denominator() < numerator(b) <= ceiling_index_of(b)
            * denominator(),
{
    let (n, p) = (numerator(b), denominator());
    lemma_pow2_pos(1074);
    lemma_numerator(b);
    vstd::arithmetic::div_mod::lemma_fundamental_div_mod(n, p);
    vstd::arithmetic::div_mod::lemma_fundamental_div_mod(n + p - 1, p);
    let (q, c) = (n / p, (n + p - 1) / p);
    lemma_div_pos_is_pos(n, p);
    assert(p * q == q * p) by (nonlinear_arith);
    assert(p * c == c * p) by (nonlinear_arith);
    assert((q + 1) * p == q * p + p) by (nonlinear_arith);
    assert((c - 1) * p == c * p - p) by (nonlinear_arith);
    assert(c <= m) by (nonlinear_arith)
        requires
            n <= m * p,
            c * p <= n + p - 1,
            p > 0,
    ;
    assert(q <= c) by (nonlinear_arith)
        requires
            q * p <= n,
            n <= c * p,
            p > 0,
    ;
}

/// What kind of number an encoding stands for, read off its lower 63 bits.
pub proof fn law_classification(
    b: u64,
    is_a_nan: bool,
    is_an_infinity: bool,
    is_a_finite: bool,
    is_a_zero: bool,
)
    requires
        call_ensures(is_nan, (b,), is_a_nan),
        call_ensures(is_infinite, (b,), is_an_infinity),
        call_ensures(is_finite, (b,), is_a_finite),
        call_ensures(is_zero, (b,), is_a_zero),
    ensures
        ({
            let m = b as int % 0x8000_0000_0000_0000;
            &&& is_a_zero <==> m == 0
            &&& is_a_finite <==> m / 0x10_0000_0000_0000 < 0x7FF
            &&& is_an_infinity <==> m == 0x7FF * 0x10_0000_0000_0000
            &&& is_a_nan <==> m > 0x7FF * 0x10_0000_0000_0000
        }),
{
}

/// The three comparisons and the test for a positive finite number, on the values
/// that finite encodings stand for; nothing compares with NaN, and infinities
/// stand outside all finite numbers.
pub proof fn law_comparisons(a: u64, b: u64, less: bool, at_most: bool, equals: bool)
    requires
        call_ensures(less_than, (a, b), less),
        call_ensures(less_or_equal, (a, b), at_most),
        call_ensures(equal, (a, b), equals),
    ensures
        finite(a) && finite(b) ==> (less <==> signed_numerator(a) < signed_numerator(b)),
        finite(a) && finite(b) ==> (at_most <==> signed_numerator(a) <= signed_numerator(b)),
        finite(a) && finite(b) ==> (equals <==> signed_numerator(a) == signed_numerator(b)),
        nan(a) || nan(b) ==> !less && !at_most && !equals,
        finite(a) && infinite(b) ==> (less <==> b == INFINITY) && (at_most <==> b == INFINITY)
            && !equals,
        infinite(a) && finite(b) ==> (less <==> a != INFINITY) && (at_most <==> a != INFINITY)
            && !equals,
        infinite(a) && infinite(b) ==> (equals <==> a == b) && (at_most <==> a == b || b
            == INFINITY) && (less <==> a != b && b == INFINITY),
{
    if finite(a) && finite(b) {
        law_order_is_numeric(a, b);
    }
}

/// The value of an encoding: zero for the first, and from one encoding to the
/// next a step of `2^(e - 1)` units of `2^-1074`, where `e` is the exponent field
/// or one; the sign bit negates.
pub proof fn law_values_of_encodings(b: u64)
    requires
        b < SIGN - 1,
        finite((b + 1) as u64),
    ensures
        numerator(0) == 0,
        denominator() == pow2(1074),
        b < 0x10_0000_0000_0000 ==> numerator((b + 1) as u64) == numerator(b) + 1,
        b >= 0x10_0000_0000_0000 ==> numerator((b + 1) as u64) == numerator(b) + pow2(
            (b as int / 0x10_0000_0000_0000 - 1) as nat,
        ),
        signed_numerator(b) == numerator(b),
        signed_numerator((b + SIGN) as u64) == -numerator(b),
{
    let c = (b + 1) as u64;
    let step: int = 0x10_0000_0000_0000;
    assert(numerator(0) == 0) by {
        assert(significand(0) == 0);
        assert(0 * pow2((exponent(0) - 1) as nat) == 0);
    }
    lemma2_to64();
    let (p, q) = (pow2((exponent(b) - 1) as nat) as int, pow2((exponent(c) - 1) as nat) as int);
    if exponent(b) == exponent(c) {
        assert(significand(c) == significand(b) + 1);
        assert((significand(b) + 1) * p == significand(b) * p + p) by (nonlinear_arith);
        if b < step {
            assert(exponent(b) == 1);
            assert(pow2(0) == 1);
        }
    } else {
        assert(exponent(c) == exponent(b) + 1);
        assert(b as int % step == step - 1);
        assert(b >= step);
        lemma_pow2_unfold((exponent(c) - 1) as nat);
        assert(significand(c) == step);
        assert(significand(b) == 2 * step - 1);
        assert(step * (2 * p) == (2 * step - 1) * p + p) by (nonlinear_arith)
            requires
                step == 0x10_0000_0000_0000,
        ;
    }
    let n = (b + SIGN) as u64;
    assert(magnitude(n) == magnitude(b));
    assert(numerator(n) == numerator(b));
}

/// Converting to an index cuts off the fraction of a number above zero, up to the
/// largest index; NaN and numbers below zero give zero.
pub proof fn law_truncation(b: u64, r: usize)
    requires
        call_ensures(truncate, (b,), r),
    ensures
        nan(b) || b >= SIGN ==> r == 0,
        b == INFINITY ==> r == usize::MAX,
        b < SIGN && finite(b) ==> r * denominator() <= numerator(b),
        b < SIGN && finite(b) && r < usize::MAX ==> numerator(b) < (r + 1) * denominator(),
{
    if b < SIGN && finite(b) {
        let (n, p) = (numerator(b), denominator());
        lemma_numerator(b);
        vstd::arithmetic::div_mod::lemma_fundamental_div_mod(n, p);
        let q = n / p;
        assert(p * q == q * p) by (nonlinear_arith);
        assert((q + 1) * p == q * p + p) by (nonlinear_arith);
        assert(r * p <= q * p) by (nonlinear_arith)
            requires
                r <= q,
                p > 0,
        ;
    }
}

/// Rounding up to an index gives the smallest whole number that is not below a
/// number above zero, up to the largest index.
pub proof fn law_rounding_up(b: u64, r: usize)
    requires
        call_ensures(ceiling, (b,), r),
    ensures
        nan(b) || b >= SIGN ==> r == 0,
        b == INFINITY ==> r == usize::MAX,
        b < SIGN && finite(b) ==> (r - 1) * denominator() < numerator(b) || r == 0,
        b < SIGN && finite(b) && r < usize::MAX ==> numerator(b) <= r * denominator(),
{
    if b < SIGN && finite(b) {
        let (n, p) = (numerator(b), denominator());
        lemma_numerator(b);
        vstd::arithmetic::div_mod::lemma_fundamental_div_mod(n + p - 1, p);
        let q = (n + p - 1) / p;
        assert(p * q == q * p) by (nonlinear_arith);
        assert((q - 1) * p == q * p - p) by (nonlinear_arith);
        assert((r - 1) * p <= (q - 1) * p) by (nonlinear_arith)
            requires
                r <= q,
                p > 0,
        ;
    }
}

/// Rounding to an index gives a whole number no more than one half away from a
/// number above zero, the larger of two, up to the largest index.
pub proof fn law_rounding(b: u64, r: usize)
    requires
        call_ensures(round, (b,), r),
    ensures
        nan(b) || b >= SIGN ==> r == 0,
        b == INFINITY ==> r == usize::MAX,
        b < SIGN && finite(b) ==> (2 * r - 1) * denominator() <= 2 * numerator(b),
        b < SIGN && finite(b) && r < usize::MAX ==> 2 * numerator(b) < (2 * r + 1) * denominator(),
{
    if b < SIGN && finite(b) {
        let (n, p) = (numerator(b), denominator());
        let h = pow2(1073) as int;
        lemma_numerator(b);
        lemma_pow2_unfold(1074);
        assert(p == 2 * h);
        vstd::arithmetic::div_mod::lemma_fundamental_div_mod(n + h, p);
        let q = (n + h) / p;
        assert(p * q == q * p) by (nonlinear_arith);
        assert((2 * q - 1) * p == 2 * (q * p) - p) by (nonlinear_arith);
        assert((2 * q + 1) * p == 2 * (q * p) + p) by (nonlinear_arith);
        assert((2 * r - 1) * p <= (2 * q - 1) * p) by (nonlinear_arith)
            requires
                r <= q,
                p > 0,
        ;
    }
}

/// The absolute value drops the sign bit, and a number is positive and finite
/// exactly where its encoding lies between those of zero and infinity.
pub proof fn law_absolute_value(b: u64, m: u64, positive: bool)
    requires
        call_ensures(abs, (b,), m),
        call_ensures(is_positive_finite, (b,), positive),
    ensures
        m == b as int % 0x8000_0000_0000_0000,
        positive <==> 0 < b < 0x7FF0_0000_0000_0000,
{
}

/// In the total order every encoding with the sign bit comes before every one
/// without; without it the larger encoding is the larger one, with it the smaller.
pub proof fn law_total_order_of_encodings(a: u64, b: u64, r: bool)
    requires
        call_ensures(total_less, (a, b), r),
    ensures
        a >= SIGN && b < SIGN ==> r,
        a < SIGN && b >= SIGN ==> !r,
        a < SIGN && b < SIGN ==> (r <==> a < b),
        a >= SIGN && b >= SIGN ==> (r <==> a > b),
{
}

} // verus!
