//! Which periods the distance between two units runs over.
//!
//! The distance between two units is the root mean square of their outcome
//! differences over the periods in which both are untreated and observed.
use crate::bits;
use crate::matrix::{lemma_extend_listing, lists_units, Matrix};
use crate::panel::{is_untreated, observed_untreated, same_shape};
use vstd::prelude::*;

verus! {

/// Outcome with non-finite values replaced by zero.
pub open spec fn sanitized(b: u64) -> u64 {
    if bits::finite(b) {
        b
    } else {
        bits::ZERO
    }
}

/// Replaces a non-finite value by zero.
pub fn sanitize(b: u64) -> (r: u64)
    ensures
        r == sanitized(b),
{
    if bits::is_finite(b) {
        b
    } else {
        bits::ZERO
    }
}

/// Table with non-finite values replaced by zero.
pub fn sanitize_table(y: &Matrix<u64>) -> (r: Matrix<u64>)
    requires
        y.wf(),
    ensures
        same_shape(&r, y),
        forall|t: usize, i: usize|
            t < y.rows && i < y.cols ==> #[trigger] r.at(t as int, i as int) == sanitized(
                y.at(t as int, i as int),
            ),
{
    assert(y.data.len() == y.rows * y.cols);
    let f = |t: usize, i: usize| -> (v: u64)
        requires
            y.has(t, i),
        ensures
            v == sanitized(y.at(t as int, i as int)),
    { sanitize(y.get(t, i)) };
    Matrix::build(y.rows, y.cols, f)
}

/// Period `t` enters the distance between units `i` and `j`: both are
/// untreated and observed in it, and it is not the excluded one.
pub open spec fn comparable(
    y: &Matrix<u64>,
    d: &Matrix<u64>,
    i: int,
    j: int,
    exclude: Option<usize>,
    t: int,
) -> bool {
    &&& exclude != Some(t as usize)
    &&& observed_untreated(y, d, t, i)
    &&& observed_untreated(y, d, t, j)
}

/// What the distance between two units is computed from.
#[derive(Debug, PartialEq, Eq)]
pub enum Separation {
    /// A unit and itself: distance zero.
    Zero,
    /// No period to compare in: infinite distance.
    Unreachable,
    /// Root mean square of the outcome differences in these periods.
    Periods(Vec<usize>),
}

/// `s` is the separation over the periods below `n` that satisfy `p`.
pub open spec fn separates(s: Separation, n: int, p: spec_fn(int) -> bool) -> bool {
    match s {
        Separation::Zero => false,
        Separation::Unreachable => forall|t: int| 0 <= t < n ==> !#[trigger] p(t),
        Separation::Periods(periods) => periods@.len() > 0 && lists_units(periods@, n, p),
    }
}

fn separation_over(mask: &Vec<bool>) -> (r: Separation)
    ensures
        separates(r, mask@.len() as int, |t: int| mask@[t]),
{
    let mut periods: Vec<usize> = Vec::new();
    let mut t: usize = 0;
    while t < mask.len()
        invariant
            t <= mask@.len(),
            lists_units(periods@, t as int, |t: int| mask@[t]),
        decreases mask@.len() - t,
    {
        proof {
            lemma_extend_listing(periods@, t, |t: int| mask@[t]);
        }
        if mask[t] {
            periods.push(t);
        }
        t = t + 1;
    }
    if periods.len() == 0 {
        proof {
            let p = |t: int| mask@[t];
            assert forall|t: int| 0 <= t < mask@.len() implies !#[trigger] p(t) by {
                if mask@[t] {
                    assert(mask.len() == mask@.len());
                    assert(periods@.contains(t as usize));
                }
            }
        }
        Separation::Unreachable
    } else {
        Separation::Periods(periods)
    }
}

proof fn lemma_separates_same(
    s: Separation,
    n: int,
    p: spec_fn(int) -> bool,
    q: spec_fn(int) -> bool,
)
    requires
        separates(s, n, p),
        0 <= n <= usize::MAX,
        forall|t: int| 0 <= t < n ==> #[trigger] p(t) == q(t),
    ensures
        separates(s, n, q),
{
    match s {
        Separation::Unreachable => {
            assert forall|t: int| 0 <= t < n implies !#[trigger] q(t) by {
                assert(!p(t));
            }
        },
        Separation::Periods(periods) => {
            assert forall|k: int| 0 <= k < periods@.len() implies (#[trigger] periods@[k]) < n && q(
                periods@[k] as int,
            ) by {
                assert(p(periods@[k] as int));
            }
            assert forall|t: usize| t < n && q(t as int) implies #[trigger] periods@.contains(t) by {
                assert(p(t as int));
            }
        },
        Separation::Zero => {},
    }
}

/// Separation of units `j` and `i` with respect to a target period, which is
/// left out.
pub fn compute_unit_distance_for_obs(
    y: &Matrix<u64>,
    d: &Matrix<u64>,
    j: usize,
    i: usize,
    target_period: usize,
) -> (r: Separation)
    requires
        same_shape(y, d),
        i < y.cols,
        j < y.cols,
    ensures
        separates(
            r,
            y.rows as int,
            |t: int| comparable(y, d, i as int, j as int, Some(target_period), t),
        ),
{
    let mut mask: Vec<bool> = Vec::new();
    let mut t: usize = 0;
    while t < y.rows
        invariant
            same_shape(y, d),
            i < y.cols,
            j < y.cols,
            t <= y.rows,
            mask@.len() == t,
            forall|s: int|
                0 <= s < t ==> #[trigger] mask@[s] == comparable(
                    y,
                    d,
                    i as int,
                    j as int,
                    Some(target_period),
                    s,
                ),
        decreases y.rows - t,
    {
        mask.push(
            t != target_period && is_untreated(d, t, i) && is_untreated(d, t, j) && bits::is_finite(
                y.get(t, i),
            ) && bits::is_finite(y.get(t, j)),
        );
        t = t + 1;
    }
    let r: Separation = separation_over(&mask);
    proof {
        lemma_separates_same(
            r,
            y.rows as int,
            |t: int| mask@[t],
            |t: int| comparable(y, d, i as int, j as int, Some(target_period), t),
        );
    }
    r
}

/// Validity and sanitised outcomes of a panel, from which any distance can be
/// read off.
#[derive(Debug)]
pub struct UnitDistanceCache {
    /// Outcomes, non-finite ones replaced by zero.
    pub y: Matrix<u64>,
    /// Cells that are untreated and observed.
    pub valid: Matrix<bool>,
}

impl UnitDistanceCache {
    /// This is the cache of the panel `(y, d)`.
    pub open spec fn caches(&self, y: &Matrix<u64>, d: &Matrix<u64>) -> bool {
        &&& same_shape(&self.y, y)
        &&& same_shape(&self.valid, y)
        &&& same_shape(y, d)
        &&& forall|t: usize, i: usize|
            t < y.rows && i < y.cols ==> #[trigger] self.y.at(t as int, i as int) == sanitized(
                y.at(t as int, i as int),
            )
        &&& forall|t: usize, i: usize|
            t < y.rows && i < y.cols ==> #[trigger] self.valid.at(t as int, i as int)
                == observed_untreated(y, d, t as int, i as int)
    }

    /// `s` is the separation of units `i` and `j`, over the periods in which
    /// both are untreated and observed, but the excluded one.
    pub open spec fn separated(
        &self,
        s: Separation,
        i: usize,
        j: usize,
        exclude: Option<usize>,
    ) -> bool {
        if i == j {
            s == Separation::Zero
        } else {
            separates(
                s,
                self.valid.rows as int,
                |t: int|
                    exclude != Some(t as usize) && self.valid.at(t, i as int) && self.valid.at(
                        t,
                        j as int,
                    ),
            )
        }
    }

    /// The two tables of a cache have the same shape.
    pub open spec fn wf(&self) -> bool {
        same_shape(&self.y, &self.valid)
    }

    pub fn build(y: &Matrix<u64>, d: &Matrix<u64>) -> (r: UnitDistanceCache)
        requires
            same_shape(y, d),
        ensures
            r.wf(),
            r.caches(y, d),
    {
        assert(y.data.len() == y.rows * y.cols);
        let f = |t: usize, i: usize| -> (b: bool)
            requires
                same_shape(y, d),
                y.has(t, i),
            ensures
                b == observed_untreated(y, d, t as int, i as int),
        { is_untreated(d, t, i) && bits::is_finite(y.get(t, i)) };
        let valid: Matrix<bool> = Matrix::build(y.rows, y.cols, f);
        UnitDistanceCache { y: sanitize_table(y), valid }
    }

    /// Whether a unit is untreated and observed in a period.
    pub fn unit_is_control_at(&self, target_period: usize, unit: usize) -> (r: bool)
        requires
            self.wf(),
            target_period < self.valid.rows,
            unit < self.valid.cols,
        ensures
            r == self.valid.at(target_period as int, unit as int),
    {
        self.valid.get(target_period, unit)
    }

    /// Separation of two units, optionally leaving out a period.
    pub fn compute_distance(&self, i: usize, j: usize, exclude_t: Option<usize>) -> (r: Separation)
        requires
            self.wf(),
            i < self.valid.cols,
            j < self.valid.cols,
        ensures
            self.separated(r, i, j, exclude_t),
    {
        if i == j {
            return Separation::Zero;
        }
        let mut mask: Vec<bool> = Vec::new();
        let mut t: usize = 0;
        while t < self.valid.rows
            invariant
                self.wf(),
                i < self.valid.cols,
                j < self.valid.cols,
                t <= self.valid.rows,
                mask@.len() == t,
                forall|s: int|
                    0 <= s < t ==> #[trigger] mask@[s] == (exclude_t != Some(s as usize)
                        && self.valid.at(s, i as int) && self.valid.at(s, j as int)),
            decreases self.valid.rows - t,
        {
            let excluded: bool = match exclude_t {
                Some(e) => e == t,
                None => false,
            };
            mask.push(!excluded && self.valid.get(t, i) && self.valid.get(t, j));
            t = t + 1;
        }
        let r: Separation = separation_over(&mask);
        proof {
            lemma_separates_same(
                r,
                self.valid.rows as int,
                |t: int| mask@[t],
                |t: int|
                    exclude_t != Some(t as usize) && self.valid.at(t, i as int) && self.valid.at(
                        t,
                        j as int,
                    ),
            );
        }
        r
    }

    /// Separation of unit `j` from unit `i`, leaving out the target period.
    pub fn distance(&self, j: usize, i: usize, target_period: usize) -> (r: Separation)
        requires
            self.wf(),
            i < self.valid.cols,
            j < self.valid.cols,
        ensures
            self.separated(r, j, i, Some(target_period)),
    {
        self.compute_distance(j, i, Some(target_period))
    }
}

/// For two different units the cache gives the separation that the panel
/// gives.
pub proof fn law_cache_agrees(
    cache: &UnitDistanceCache,
    y: &Matrix<u64>,
    d: &Matrix<u64>,
    i: usize,
    j: usize,
    exclude: Option<usize>,
    s: Separation,
)
    requires
        cache.caches(y, d),
        i < y.cols,
        j < y.cols,
        separates(
            s,
            y.rows as int,
            |t: int|
                exclude != Some(t as usize) && cache.valid.at(t, i as int) && cache.valid.at(
                    t,
                    j as int,
                ),
        ),
    ensures
        separates(
            s,
            y.rows as int,
            |t: int| comparable(y, d, i as int, j as int, exclude, t),
        ),
{
    let p = |t: int|
        exclude != Some(t as usize) && cache.valid.at(t, i as int) && cache.valid.at(t, j as int);
    let q = |t: int| comparable(y, d, i as int, j as int, exclude, t);
    assert forall|t: int| 0 <= t < y.rows implies #[trigger] p(t) == q(t) by {
        assert(cache.valid.at(t as usize as int, i as int) == observed_untreated(
            y,
            d,
            t,
            i as int,
        ));
        assert(cache.valid.at(t as usize as int, j as int) == observed_untreated(
            y,
            d,
            t,
            j as int,
        ));
    }
    lemma_separates_same(s, y.rows as int, p, q);
}

/// Separation is symmetric: the periods compared do not depend on the order of
/// the two units.
pub proof fn law_separation_symmetric(
    y: &Matrix<u64>,
    d: &Matrix<u64>,
    i: int,
    j: int,
    exclude: Option<usize>,
    t: int,
)
    ensures
        comparable(y, d, i, j, exclude, t) == comparable(y, d, j, i, exclude, t),
{
}

/// The excluded period never enters a distance.
pub proof fn law_target_period_left_out(
    y: &Matrix<u64>,
    d: &Matrix<u64>,
    i: int,
    j: int,
    target: usize,
    s: Separation,
)
    requires
        separates(s, y.rows as int, |t: int| comparable(y, d, i, j, Some(target), t)),
    ensures
        s matches Separation::Periods(periods) ==> !periods@.contains(target),
{
    if let Separation::Periods(periods) = s {
        if periods@.contains(target) {
            let k = choose|k: int| 0 <= k < periods@.len() && periods@[k] == target;
            assert(comparable(y, d, i, j, Some(target), periods@[k] as int));
        }
    }
}

/// Distance table from its part above the diagonal: `upper[j][k]` is the
/// distance between units `j` and `j + 1 + k`.
pub fn mirror(n: usize, upper: &Vec<Vec<u64>>) -> (r: Matrix<u64>)
    requires
        n * n <= usize::MAX,
        upper@.len() == n,
        forall|j: int| 0 <= j < n ==> (#[trigger] upper@[j])@.len() == n - j - 1,
    ensures
        r.wf(),
        r.rows == n,
        r.cols == n,
        forall|a: usize, b: usize|
            a < n && b < n ==> #[trigger] r.at(a as int, b as int) == mirrored(
                upper@,
                a as int,
                b as int,
            ),
{
    let f = |a: usize, b: usize| -> (v: u64)
        requires
            a < n && b < n && upper@.len() == n && (forall|j: int|
                0 <= j < n ==> (#[trigger] upper@[j])@.len() == n - j - 1),
        ensures
            v == mirrored(upper@, a as int, b as int),
    {
        if a == b {
            bits::ZERO
        } else if a < b {
            upper[a][b - a - 1]
        } else {
            upper[b][a - b - 1]
        }
    };
    Matrix::build(n, n, f)
}

/// Entry `(a, b)` of the distance table.
pub open spec fn mirrored(upper: Seq<Vec<u64>>, a: int, b: int) -> u64 {
    if a == b {
        bits::ZERO
    } else if a < b {
        upper[a]@[b - a - 1]
    } else {
        upper[b]@[a - b - 1]
    }
}

/// A distance table is symmetric with a zero diagonal.
pub proof fn law_distance_table(upper: Seq<Vec<u64>>, a: int, b: int)
    ensures
        mirrored(upper, a, b) == mirrored(upper, b, a),
        mirrored(upper, a, a) == bits::ZERO,
{
}

/// Two units are compared in every period but the target one in which both are
/// untreated and observed, each once, and in no other; they are unreachable
/// exactly where there is none.
pub proof fn law_every_common_period_is_compared(
    y: &Matrix<u64>,
    d: &Matrix<u64>,
    j: usize,
    i: usize,
    target_period: usize,
    r: Separation,
)
    requires
        call_ensures(compute_unit_distance_for_obs, (y, d, j, i, target_period), r),
    ensures
        r is Unreachable || r is Periods,
        r matches Separation::Periods(periods) ==> {
            &&& periods@.len() > 0
            &&& forall|t: usize|
                #![trigger periods@.contains(t)]
                periods@.contains(t) <==> {
                    &&& t < y.rows
                    &&& t != target_period
                    &&& bits::zero(d.at(t as int, i as int)) && bits::finite(
                        y.at(t as int, i as int),
                    )
                    &&& bits::zero(d.at(t as int, j as int)) && bits::finite(
                        y.at(t as int, j as int),
                    )
                }
            &&& forall|a: int, b: int|
                0 <= a < b < periods@.len() ==> #[trigger] periods@[a] < #[trigger] periods@[b]
        },
        r is Unreachable ==> forall|t: usize|
            #![trigger y.at(t as int, i as int)]
            t < y.rows && t != target_period ==> !(bits::zero(d.at(t as int, i as int))
                && bits::finite(y.at(t as int, i as int)) && bits::zero(d.at(t as int, j as int))
                && bits::finite(y.at(t as int, j as int))),
{
    let p = |t: int| comparable(y, d, i as int, j as int, Some(target_period), t);
    match r {
        Separation::Periods(periods) => {
            assert forall|t: usize|
                #![trigger periods@.contains(t)]
                periods@.contains(t) <==> {
                    &&& t < y.rows
                    &&& t != target_period
                    &&& bits::zero(d.at(t as int, i as int)) && bits::finite(
                        y.at(t as int, i as int),
                    )
                    &&& bits::zero(d.at(t as int, j as int)) && bits::finite(
                        y.at(t as int, j as int),
                    )
                } by {
                if periods@.contains(t) {
                    let k = choose|k: int| 0 <= k < periods@.len() && periods@[k] == t;
                    assert(periods@[k] < y.rows && p(periods@[k] as int));
                } else if t < y.rows {
                    assert(!p(t as int));
                }
            }
        },
        Separation::Unreachable => {
            assert forall|t: usize|
                #![trigger y.at(t as int, i as int)]
                t < y.rows && t != target_period implies !(bits::zero(d.at(t as int, i as int))
                && bits::finite(y.at(t as int, i as int)) && bits::zero(d.at(t as int, j as int))
                && bits::finite(y.at(t as int, j as int))) by {
                assert(!p(t as int));
            }
        },
        Separation::Zero => {},
    }
}

/// A cache holds every finite outcome as it is and zero for the others, and marks
/// exactly the cells that are untreated and observed.
pub proof fn law_cache_holds_the_panel(
    y: &Matrix<u64>,
    d: &Matrix<u64>,
    r: UnitDistanceCache,
    t: usize,
    i: usize,
)
    requires
        call_ensures(UnitDistanceCache::build, (y, d), r),
        t < y.rows,
        i < y.cols,
    ensures
        bits::finite(y.at(t as int, i as int)) ==> r.y.at(t as int, i as int) == y.at(
            t as int,
            i as int,
        ),
        !bits::finite(y.at(t as int, i as int)) ==> r.y.at(t as int, i as int) == bits::ZERO,
        r.valid.at(t as int, i as int) <==> bits::zero(d.at(t as int, i as int)) && bits::finite(
            y.at(t as int, i as int),
        ),
{
}

/// From a cache, two units are compared in every period that is marked for both,
/// but the one left out; a unit is at no distance from itself.
pub proof fn law_cached_periods(
    cache: &UnitDistanceCache,
    i: usize,
    j: usize,
    exclude: Option<usize>,
    r: Separation,
)
    requires
        call_ensures(UnitDistanceCache::compute_distance, (cache, i, j, exclude), r),
    ensures
        r is Zero <==> i == j,
        r matches Separation::Periods(periods) ==> {
            &&& periods@.len() > 0
            &&& forall|t: usize|
                #![trigger periods@.contains(t)]
                periods@.contains(t) <==> t < cache.valid.rows && exclude != Some(t)
                    && cache.valid.at(t as int, i as int) && cache.valid.at(t as int, j as int)
            &&& forall|a: int, b: int|
                0 <= a < b < periods@.len() ==> #[trigger] periods@[a] < #[trigger] periods@[b]
        },
        r is Unreachable ==> forall|t: usize|
            #![trigger cache.valid.at(t as int, i as int)]
            t < cache.valid.rows && exclude != Some(t) ==> !(cache.valid.at(t as int, i as int)
                && cache.valid.at(t as int, j as int)),
{
    let p = |t: int|
        exclude != Some(t as usize) && cache.valid.at(t, i as int) && cache.valid.at(t, j as int);
    match r {
        Separation::Periods(periods) => {
            assert forall|t: usize|
                #![trigger periods@.contains(t)]
                periods@.contains(t) <==> t < cache.valid.rows && exclude != Some(t)
                    && cache.valid.at(t as int, i as int) && cache.valid.at(
                    t as int,
                    j as int,
                ) by {
                if periods@.contains(t) {
                    let k = choose|k: int| 0 <= k < periods@.len() && periods@[k] == t;
                    assert(periods@[k] < cache.valid.rows && p(periods@[k] as int));
                } else if t < cache.valid.rows {
                    assert(!p(t as int));
                }
            }
        },
        Separation::Unreachable => {
            assert forall|t: usize|
                #![trigger cache.valid.at(t as int, i as int)]
                t < cache.valid.rows && exclude != Some(t) implies !(cache.valid.at(
                t as int,
                i as int,
            ) && cache.valid.at(t as int, j as int)) by {
                assert(!p(t as int));
            }
        },
        Separation::Zero => {},
    }
}

/// A mirrored table has zeros on the diagonal and on either side of it the
/// distance of the two units.
pub proof fn law_mirrored_table(n: usize, upper: &Vec<Vec<u64>>, r: Matrix<u64>, a: usize, b: usize)
    requires
        call_ensures(mirror, (n, upper), r),
        a < b < n,
    ensures
        r.at(a as int, a as int) == bits::ZERO,
        r.at(b as int, b as int) == bits::ZERO,
        r.at(a as int, b as int) == upper@[a as int]@[b - a - 1],
        r.at(b as int, a as int) == upper@[a as int]@[b - a - 1],
{
}

/// Of a cached panel, a unit is a control in a period exactly where it is marked, and
/// its distance to another leaves out the target period.
pub proof fn law_cached_lookups(
    cache: &UnitDistanceCache,
    period: usize,
    j: usize,
    i: usize,
    control: bool,
    direct: Separation,
)
    requires
        call_ensures(UnitDistanceCache::unit_is_control_at, (cache, period, i), control),
        call_ensures(UnitDistanceCache::distance, (cache, j, i, period), direct),
    ensures
        control <==> cache.valid.at(period as int, i as int),
        direct is Zero <==> i == j,
        direct matches Separation::Periods(periods) ==> !periods@.contains(period),
        direct matches Separation::Periods(periods) ==> forall|t: usize|
            #![trigger periods@.contains(t)]
            t < cache.valid.rows && t != period && cache.valid.at(t as int, i as int)
                && cache.valid.at(t as int, j as int) ==> periods@.contains(t),
{
    if let Separation::Periods(periods) = direct {
        let p = |t: int|
            Some(period) != Some(t as usize) && cache.valid.at(t, j as int) && cache.valid.at(
                t,
                i as int,
            );
        if periods@.contains(period) {
            let k = choose|k: int| 0 <= k < periods@.len() && periods@[k] == period;
            assert(p(periods@[k] as int));
        }
        assert forall|t: usize|
            #![trigger periods@.contains(t)]
            t < cache.valid.rows && t != period && cache.valid.at(t as int, i as int)
                && cache.valid.at(t as int, j as int) implies periods@.contains(t) by {
            assert(p(t as int));
        }
    }
}

} // verus!
