//! Complex survey designs: strata, primary sampling units and the Rao-Wu
//! rescaling bootstrap.
use crate::bits;
use crate::bootstrap::iteration_seed;
use crate::error::{TropError, TropResult};
use crate::matrix::{lemma_extend_listing, lists_units};
use crate::rng::{
    coin_draw, draw_indices, generator_words, index_draws, seed_generator, seeded_words, toss_coin,
};
use rand_xoshiro::Xoshiro256PlusPlus;
use vstd::prelude::*;
use vstd::seq_lib::seq_to_set_is_finite;
use vstd::set_lib::lemma_len_subset;

verus! {

/// How the resampling treats a stratum with a single primary sampling unit.
#[derive(Debug, Clone, Copy, PartialEq, Eq, Structural)]
pub enum LonelyPsuStrategy {
    /// Its units keep their weights.
    Skip,
    /// Its units are perturbed about the mean weight of all sampling units.
    Centered,
    /// Such a stratum is refused.
    Fail,
}

impl LonelyPsuStrategy {
    /// Strategy with the given code; any code but 1 and 2 means `Skip`.
    pub fn from_code(code: i32) -> (r: Self)
        ensures
            r == if code == 1 {
                LonelyPsuStrategy::Centered
            } else if code == 2 {
                LonelyPsuStrategy::Fail
            } else {
                LonelyPsuStrategy::Skip
            },
    {
        match code {
            1 => LonelyPsuStrategy::Centered,
            2 => LonelyPsuStrategy::Fail,
            _ => LonelyPsuStrategy::Skip,
        }
    }
}

/// One stratum of a survey design.
#[derive(Debug)]
pub struct StratumInfo {
    pub label: i64,
    /// Number of distinct primary sampling units.
    pub n_psu: usize,
    /// Finite population size, where one is given.
    pub fpc: Option<u64>,
    /// Labels of the sampling units, in increasing order.
    pub psu_labels: Vec<i64>,
    /// Panel columns of each sampling unit.
    pub psu_to_units: Vec<Vec<usize>>,
}

/// Population sizes as a sequence.
pub open spec fn sizes_of(fpc: Option<&Vec<u64>>) -> Option<Seq<u64>> {
    match fpc {
        Some(f) => Some(f@),
        None => None,
    }
}

/// Labels of the sampling units that occur in stratum `s`.
pub open spec fn psus_of(strata: Seq<i64>, psu: Seq<i64>, s: i64) -> Set<i64> {
    Set::new(
        |p: i64| exists|i: int| 0 <= i < strata.len() && #[trigger] strata[i] == s && psu[i] == p,
    )
}

/// `labels` is the increasing list of the labels in `set`.
pub open spec fn lists_labels(labels: Seq<i64>, set: Set<i64>) -> bool {
    &&& forall|j: int, k: int| 0 <= j < k < labels.len() ==> #[trigger] labels[j] < #[trigger] labels[k]
    &&& forall|p: i64| #[trigger] labels.contains(p) <==> set.contains(p)
}

/// Population size recorded for stratum `s`: that of its first unit.
pub open spec fn stratum_fpc(strata: Seq<i64>, fpc: Seq<u64>, s: i64) -> u64 {
    fpc[first_of(strata, s)]
}

/// First position of `s` in `strata`; their number where it does not occur.
pub open spec fn first_of(strata: Seq<i64>, s: i64) -> int
    decreases strata.len(),
{
    if strata.len() == 0 {
        0
    } else {
        let k = first_of(strata.drop_last(), s);
        if k < strata.len() - 1 {
            k
        } else if strata.last() == s {
            strata.len() - 1
        } else {
            strata.len() as int
        }
    }
}

/// A population size fits a stratum of `n` sampled units: it is positive and
/// finite, and its integer part is no less than `n`.
pub open spec fn fpc_fits(fpc: u64, n: nat) -> bool {
    bits::positive_finite(fpc) && bits::index_of(fpc) >= n
}

impl StratumInfo {
    /// This groups the units of stratum `label` by sampling unit.
    pub open spec fn groups_stratum(&self, strata: Seq<i64>, psu: Seq<i64>) -> bool {
        &&& lists_labels(self.psu_labels@, psus_of(strata, psu, self.label))
        &&& self.n_psu == self.psu_labels@.len()
        &&& self.n_psu == self.psu_to_units@.len()
        &&& self.n_psu > 0
        &&& forall|k: int|
            0 <= k < self.n_psu ==> lists_units(
                (#[trigger] self.psu_to_units@[k])@,
                strata.len() as int,
                |i: int| strata[i] == self.label && psu[i] == self.psu_labels@[k],
            )
    }

    /// The population size is the one recorded for stratum `label`.
    pub open spec fn has_size(&self, strata: Seq<i64>, fpc: Option<Seq<u64>>) -> bool {
        self.fpc == match fpc {
            Some(f) => Some(stratum_fpc(strata, f, self.label)),
            None => None,
        }
    }
}

/// Some group has the label `s`.
pub open spec fn has_stratum(groups: Seq<StratumInfo>, s: i64) -> bool {
    exists|h: int| 0 <= h < groups.len() && (#[trigger] groups[h]).label == s
}

/// `groups` groups the units of every stratum of the design, in increasing
/// order of the labels of the strata.
pub open spec fn groups_design(
    groups: Seq<StratumInfo>,
    strata: Seq<i64>,
    psu: Seq<i64>,
) -> bool {
    &&& forall|h: int| 0 <= h < groups.len() ==> (#[trigger] groups[h]).groups_stratum(strata, psu)
    &&& forall|g: int, h: int|
        0 <= g < h < groups.len() ==> (#[trigger] groups[g]).label < (#[trigger] groups[h]).label
    &&& forall|i: int| 0 <= i < strata.len() ==> has_stratum(groups, #[trigger] strata[i])
}

/// `groups` describes the design: its grouping and its population sizes.
pub open spec fn describes_design(
    groups: Seq<StratumInfo>,
    strata: Seq<i64>,
    psu: Seq<i64>,
    fpc: Option<Seq<u64>>,
) -> bool {
    &&& groups_design(groups, strata, psu)
    &&& forall|h: int| 0 <= h < groups.len() ==> (#[trigger] groups[h]).has_size(strata, fpc)
}

/// Inserts `label` into an increasing list unless it is there.
fn insert_label(labels: &mut Vec<i64>, label: i64)
    requires
        forall|j: int, k: int|
            0 <= j < k < old(labels)@.len() ==> #[trigger] old(labels)@[j] < #[trigger] old(
                labels,
            )@[k],
    ensures
        forall|j: int, k: int|
            0 <= j < k < final(labels)@.len() ==> #[trigger] final(labels)@[j]
                < #[trigger] final(labels)@[k],
        forall|p: i64| #[trigger]
            final(labels)@.contains(p) <==> old(labels)@.contains(p) || p == label,
{
    let mut at: usize = labels.len();
    while at > 0 && labels[at - 1] >= label
        invariant
            at <= labels@.len(),
            labels@ == old(labels)@,
            forall|j: int, k: int|
                0 <= j < k < labels@.len() ==> #[trigger] labels@[j] < #[trigger] labels@[k],
            forall|k: int| at <= k < labels@.len() ==> #[trigger] labels@[k] >= label,
        decreases at,
    {
        at = at - 1;
    }
    let ghost prev = labels@;
    if at < labels.len() && labels[at] == label {
        assert(prev[at as int] == label);
        return;
    }
    labels.insert(at, label);
    proof {
        let next = labels@;
        assert forall|p: i64| #[trigger] next.contains(p) <==> prev.contains(p) || p == label by {
            if prev.contains(p) {
                let j = choose|j: int| 0 <= j < prev.len() && prev[j] == p;
                if j < at {
                    assert(next[j] == p);
                } else {
                    assert(next[j + 1] == p);
                }
            }
            if p == label {
                assert(next[at as int] == p);
            }
            if next.contains(p) && p != label {
                let j = choose|j: int| 0 <= j < next.len() && next[j] == p;
                if j < at {
                    assert(prev[j] == p);
                } else {
                    assert(prev[j - 1] == p);
                }
            }
        }
        assert forall|j: int, k: int| 0 <= j < k < next.len() implies #[trigger] next[j]
            < #[trigger] next[k] by {
            if at < prev.len() {
                assert(prev[at as int] >= label);
            }
            if at > 0 {
                assert(prev[at - 1] < label);
                if j < at - 1 {
                    assert(prev[j] < prev[at - 1]);
                }
            }
            if k > at + 1 {
                assert(prev[at as int] < prev[k - 1]);
            }
        }
    }
}

fn stratum_labels(strata: &Vec<i64>) -> (r: Vec<i64>)
    ensures
        lists_labels(r@, strata@.to_set()),
{
    let mut r: Vec<i64> = Vec::new();
    let mut i: usize = 0;
    while i < strata.len()
        invariant
            i <= strata@.len(),
            forall|j: int, k: int| 0 <= j < k < r@.len() ==> #[trigger] r@[j] < #[trigger] r@[k],
            forall|p: i64| #[trigger] r@.contains(p) <==> strata@.take(i as int).contains(p),
        decreases strata@.len() - i,
    {
        insert_label(&mut r, strata[i]);
        proof {
            let (a, b) = (strata@.take(i as int), strata@.take(i + 1));
            assert(b =~= a.push(strata@[i as int]));
            assert forall|p: i64| #[trigger] r@.contains(p) <==> b.contains(p) by {
                if a.contains(p) {
                    let j = choose|j: int| 0 <= j < a.len() && a[j] == p;
                    assert(b[j] == p);
                }
                assert(b[i as int] == strata@[i as int]);
                if b.contains(p) && p != strata@[i as int] {
                    let j = choose|j: int| 0 <= j < b.len() && b[j] == p;
                    assert(a[j] == p);
                }
            }
        }
        i = i + 1;
    }
    proof {
        assert(strata@.take(i as int) =~= strata@);
    }
    r
}

fn psu_labels_in(strata: &Vec<i64>, psu: &Vec<i64>, s: i64) -> (r: Vec<i64>)
    requires
        strata@.len() == psu@.len(),
    ensures
        lists_labels(r@, psus_of(strata@, psu@, s)),
{
    let mut r: Vec<i64> = Vec::new();
    let mut i: usize = 0;
    while i < strata.len()
        invariant
            i <= strata@.len(),
            strata@.len() == psu@.len(),
            forall|j: int, k: int| 0 <= j < k < r@.len() ==> #[trigger] r@[j] < #[trigger] r@[k],
            forall|p: i64| #[trigger]
                r@.contains(p) <==> exists|j: int|
                    0 <= j < i && #[trigger] strata@[j] == s && psu@[j] == p,
        decreases strata@.len() - i,
    {
        let ghost prev = r@;
        if strata[i] == s {
            insert_label(&mut r, psu[i]);
        }
        proof {
            assert forall|p: i64| #[trigger] r@.contains(p) <==> exists|j: int|
                0 <= j < i + 1 && #[trigger] strata@[j] == s && psu@[j] == p by {
                assert(prev.contains(p) <==> exists|j: int|
                    0 <= j < i && #[trigger] strata@[j] == s && psu@[j] == p);
                if strata@[i as int] == s && psu@[i as int] == p {
                    assert(r@.contains(p));
                }
            }
        }
        i = i + 1;
    }
    r
}

fn units_in(strata: &Vec<i64>, psu: &Vec<i64>, s: i64, p: i64) -> (r: Vec<usize>)
    requires
        strata@.len() == psu@.len(),
    ensures
        lists_units(r@, strata@.len() as int, |i: int| strata@[i] == s && psu@[i] == p),
{
    let mut r: Vec<usize> = Vec::new();
    let mut i: usize = 0;
    while i < strata.len()
        invariant
            i <= strata@.len(),
            strata@.len() == psu@.len(),
            lists_units(r@, i as int, |i: int| strata@[i] == s && psu@[i] == p),
        decreases strata@.len() - i,
    {
        proof {
            lemma_extend_listing(r@, i, |i: int| strata@[i] == s && psu@[i] == p);
        }
        if strata[i] == s && psu[i] == p {
            r.push(i);
        }
        i = i + 1;
    }
    r
}

proof fn lemma_first_of(strata: Seq<i64>, s: i64, k: int)
    requires
        0 <= k < strata.len(),
        strata[k] == s,
        forall|j: int| 0 <= j < k ==> #[trigger] strata[j] != s,
    ensures
        first_of(strata, s) == k,
    decreases strata.len(),
{
    let init = strata.drop_last();
    if k < init.len() {
        assert forall|j: int| 0 <= j < k implies #[trigger] init[j] != s by {
            assert(init[j] == strata[j]);
        }
        lemma_first_of(init, s, k);
    } else {
        lemma_absent(init, s);
    }
}

proof fn lemma_absent(strata: Seq<i64>, s: i64)
    requires
        forall|j: int| 0 <= j < strata.len() ==> #[trigger] strata[j] != s,
    ensures
        first_of(strata, s) == strata.len(),
    decreases strata.len(),
{
    if strata.len() > 0 {
        let init = strata.drop_last();
        assert forall|j: int| 0 <= j < init.len() implies #[trigger] init[j] != s by {
            assert(init[j] == strata[j]);
        }
        lemma_absent(init, s);
        assert(strata[strata.len() - 1] != s);
    }
}

/// First unit of stratum `s`.
fn first_unit(strata: &Vec<i64>, s: i64) -> (r: usize)
    requires
        strata@.contains(s),
    ensures
        r == first_of(strata@, s),
        r < strata@.len(),
{
    let mut i: usize = 0;
    while i < strata.len()
        invariant
            i <= strata@.len(),
            strata@.contains(s),
            forall|j: int| 0 <= j < i ==> #[trigger] strata@[j] != s,
        decreases strata@.len() - i,
    {
        if strata[i] == s {
            proof {
                lemma_first_of(strata@, s, i as int);
            }
            return i;
        }
        i = i + 1;
    }
    assert(false);
    0
}

fn describe_stratum(
    strata: &Vec<i64>,
    psu: &Vec<i64>,
    fpc: Option<&Vec<u64>>,
    s: i64,
) -> (r: StratumInfo)
    requires
        strata@.len() == psu@.len(),
        fpc is Some ==> fpc->0@.len() >= strata@.len(),
        strata@.contains(s),
    ensures
        r.label == s,
        r.groups_stratum(strata@, psu@),
        r.has_size(strata@, sizes_of(fpc)),
{
    let psu_labels: Vec<i64> = psu_labels_in(strata, psu, s);
    let n_psu: usize = psu_labels.len();
    proof {
        let i = choose|i: int| 0 <= i < strata@.len() && strata@[i] == s;
        assert(strata@[i] == s && psu@[i] == psu@[i]);
        assert(psus_of(strata@, psu@, s).contains(psu@[i]));
        assert(psu_labels@.contains(psu@[i]));
    }
    let mut psu_to_units: Vec<Vec<usize>> = Vec::new();
    let mut k: usize = 0;
    while k < n_psu
        invariant
            k <= n_psu,
            n_psu == psu_labels@.len(),
            strata@.len() == psu@.len(),
            psu_to_units@.len() == k,
            forall|j: int|
                0 <= j < k ==> lists_units(
                    (#[trigger] psu_to_units@[j])@,
                    strata@.len() as int,
                    |i: int| strata@[i] == s && psu@[i] == psu_labels@[j],
                ),
        decreases n_psu - k,
    {
        psu_to_units.push(units_in(strata, psu, s, psu_labels[k]));
        k = k + 1;
    }
    let population: Option<u64> = match fpc {
        Some(f) => Some(f[first_unit(strata, s)]),
        None => None,
    };
    StratumInfo { label: s, n_psu, fpc: population, psu_labels, psu_to_units }
}

/// Groups the units of a design by stratum and by sampling unit.
pub fn describe_design(strata: &Vec<i64>, psu: &Vec<i64>, fpc: Option<&Vec<u64>>) -> (r: Vec<
    StratumInfo,
>)
    requires
        strata@.len() == psu@.len(),
        fpc is Some ==> fpc->0@.len() >= strata@.len(),
    ensures
        describes_design(
            r@,
            strata@,
            psu@,
            sizes_of(fpc),
        ),
{
    let labels: Vec<i64> = stratum_labels(strata);
    let ghost design_fpc = sizes_of(fpc);
    let mut r: Vec<StratumInfo> = Vec::new();
    let mut h: usize = 0;
    while h < labels.len()
        invariant
            h <= labels@.len(),
            strata@.len() == psu@.len(),
            fpc is Some ==> fpc->0@.len() >= strata@.len(),
            lists_labels(labels@, strata@.to_set()),
            design_fpc == sizes_of(fpc),
            r@.len() == h,
            forall|g: int|
                0 <= g < h ==> (#[trigger] r@[g]).groups_stratum(strata@, psu@) && r@[g].has_size(
                    strata@,
                    design_fpc,
                ) && r@[g].label == labels@[g],
        decreases labels@.len() - h,
    {
        assert(labels@.contains(labels@[h as int]));
        r.push(describe_stratum(strata, psu, fpc, labels[h]));
        h = h + 1;
    }
    proof {
        assert forall|i: int| 0 <= i < strata@.len() implies has_stratum(
            r@,
            #[trigger] strata@[i],
        ) by {
            assert(strata@.to_set().contains(strata@[i]));
            assert(labels@.contains(strata@[i]));
            let h = choose|h: int| 0 <= h < labels@.len() && labels@[h] == strata@[i];
            assert(r@[h].label == strata@[i]);
        }
        assert forall|g: int, h: int| 0 <= g < h < r@.len() implies (#[trigger] r@[g]).label < (
        #[trigger] r@[h]).label by {
            assert(labels@[g] < labels@[h]);
        }
    }
    r
}

proof fn lemma_psu_count(g: &StratumInfo, strata: Seq<i64>, psu: Seq<i64>)
    requires
        g.groups_stratum(strata, psu),
    ensures
        psus_of(strata, psu, g.label).len() == g.n_psu,
{
    let labels = g.psu_labels@;
    assert(labels.to_set() =~= psus_of(strata, psu, g.label)) by {
        assert forall|p: i64| labels.to_set().contains(p) <==> psus_of(
            strata,
            psu,
            g.label,
        ).contains(p) by {
            assert(labels.contains(p) <==> psus_of(strata, psu, g.label).contains(p));
        }
    }
    labels.unique_seq_to_set();
}

/// Every population size of the design fits its stratum.
pub open spec fn fpc_valid(strata: Seq<i64>, psu: Seq<i64>, fpc: Seq<u64>) -> bool {
    forall|i: int|
        0 <= i < strata.len() ==> fpc_fits(
            stratum_fpc(strata, fpc, #[trigger] strata[i]),
            psus_of(strata, psu, strata[i]).len(),
        )
}

/// Groups the units of a design by stratum and by sampling unit, and refuses
/// population sizes that are not positive and finite or that are smaller than
/// the number of sampled units of their stratum.
pub fn build_strata_structure(
    strata: &Vec<i64>,
    psu: &Vec<i64>,
    fpc: Option<&Vec<u64>>,
) -> (r: TropResult<Vec<StratumInfo>>)
    requires
        strata@.len() == psu@.len(),
        fpc is Some ==> fpc->0@.len() >= strata@.len(),
    ensures
        r is Err <==> fpc is Some && !fpc_valid(strata@, psu@, fpc->0@),
        r is Err ==> r->Err_0 == TropError::InvalidFpc,
        r is Ok ==> describes_design(
            r->Ok_0@,
            strata@,
            psu@,
            sizes_of(fpc),
        ),
{
    let groups: Vec<StratumInfo> = describe_design(strata, psu, fpc);
    let ghost design_fpc = sizes_of(fpc);
    let mut h: usize = 0;
    while h < groups.len()
        invariant
            h <= groups@.len(),
            strata@.len() == psu@.len(),
            describes_design(groups@, strata@, psu@, design_fpc),
            design_fpc == sizes_of(fpc),
            fpc is Some ==> forall|g: int|
                0 <= g < h ==> fpc_fits(
                    stratum_fpc(strata@, fpc->0@, (#[trigger] groups@[g]).label),
                    psus_of(strata@, psu@, groups@[g].label).len(),
                ),
        decreases groups@.len() - h,
    {
        proof {
            lemma_psu_count(&groups@[h as int], strata@, psu@);
        }
        if let Some(size) = groups[h].fpc {
            if !bits::is_positive_finite(size) || bits::truncate(size) < groups[h].n_psu {
                proof {
                    let g = groups@[h as int];
                    assert(g.psu_labels@.contains(g.psu_labels@[0]));
                    assert(psus_of(strata@, psu@, g.label).contains(g.psu_labels@[0]));
                    let i = choose|i: int|
                        0 <= i < strata@.len() && #[trigger] strata@[i] == g.label && psu@[i]
                            == g.psu_labels@[0];
                    assert(!fpc_fits(
                        stratum_fpc(strata@, fpc->0@, strata@[i]),
                        psus_of(strata@, psu@, strata@[i]).len(),
                    ));
                }
                return Err(TropError::InvalidFpc);
            }
        }
        h = h + 1;
    }
    proof {
        if fpc is Some {
            assert forall|i: int| 0 <= i < strata@.len() implies fpc_fits(
                stratum_fpc(strata@, fpc->0@, #[trigger] strata@[i]),
                psus_of(strata@, psu@, strata@[i]).len(),
            ) by {
                assert(has_stratum(groups@, strata@[i]));
                let h = choose|h: int|
                    0 <= h < groups@.len() && (#[trigger] groups@[h]).label == strata@[i];
                assert(groups@[h].label == strata@[i]);
            }
        }
    }
    Ok(groups)
}

/// The strata of a design partition its units: each unit is in one sampling
/// unit of one stratum.
pub proof fn law_design_partitions_units(
    groups: Seq<StratumInfo>,
    strata: Seq<i64>,
    psu: Seq<i64>,
    i: usize,
)
    requires
        groups_design(groups, strata, psu),
        strata.len() == psu.len(),
        i < strata.len(),
    ensures
        exists|h: int, k: int|
            0 <= h < groups.len() && 0 <= k < groups[h].n_psu
                && #[trigger] groups[h].psu_to_units@[k]@.contains(i),
        forall|h: int, k: int, h2: int, k2: int|
            0 <= h < groups.len() && 0 <= k < groups[h].n_psu && 0 <= h2 < groups.len() && 0 <= k2
                < groups[h2].n_psu && #[trigger] groups[h].psu_to_units@[k]@.contains(i)
                && #[trigger] groups[h2].psu_to_units@[k2]@.contains(i) ==> h == h2 && k == k2,
{
    assert(has_stratum(groups, strata[i as int]));
    let h = choose|h: int|
        0 <= h < groups.len() && (#[trigger] groups[h]).label == strata[i as int];
    let g = groups[h];
    assert(strata[i as int] == g.label && psu[i as int] == psu[i as int]);
    assert(psus_of(strata, psu, g.label).contains(psu[i as int]));
    assert(g.psu_labels@.contains(psu[i as int]));
    let k = choose|k: int| 0 <= k < g.psu_labels@.len() && g.psu_labels@[k] == psu[i as int];
    assert(lists_units(
        g.psu_to_units@[k]@,
        strata.len() as int,
        |i: int| strata[i] == g.label && psu[i] == g.psu_labels@[k],
    ));
    assert(groups[h].psu_to_units@[k]@.contains(i));
    assert forall|h: int, k: int, h2: int, k2: int|
        0 <= h < groups.len() && 0 <= k < groups[h].n_psu && 0 <= h2 < groups.len() && 0 <= k2
            < groups[h2].n_psu && #[trigger] groups[h].psu_to_units@[k]@.contains(i)
            && #[trigger] groups[h2].psu_to_units@[k2]@.contains(i) implies h == h2 && k == k2 by {
        let (g, g2) = (groups[h], groups[h2]);
        assert(lists_units(
            g.psu_to_units@[k]@,
            strata.len() as int,
            |i: int| strata[i] == g.label && psu[i] == g.psu_labels@[k],
        ));
        assert(lists_units(
            g2.psu_to_units@[k2]@,
            strata.len() as int,
            |i: int| strata[i] == g2.label && psu[i] == g2.psu_labels@[k2],
        ));
        let j = choose|j: int|
            0 <= j < g.psu_to_units@[k]@.len() && g.psu_to_units@[k]@[j] == i;
        let j2 = choose|j2: int|
            0 <= j2 < g2.psu_to_units@[k2]@.len() && g2.psu_to_units@[k2]@[j2] == i;
        assert(strata[i as int] == g.label && psu[i as int] == g.psu_labels@[k]);
        assert(strata[i as int] == g2.label && psu[i as int] == g2.psu_labels@[k2]);
        if h < h2 {
            assert(groups[h].label < groups[h2].label);
        }
        if h2 < h {
            assert(groups[h2].label < groups[h].label);
        }
        if k < k2 {
            assert(g.psu_labels@[k] < g.psu_labels@[k2]);
        }
        if k2 < k {
            assert(g.psu_labels@[k2] < g.psu_labels@[k]);
        }
    }
}

/// Refuses a design with a single-unit stratum where the strategy says so.
pub fn check_singletons(groups: &Vec<StratumInfo>, lonely_psu: LonelyPsuStrategy) -> (r: TropResult<
    (),
>)
    ensures
        r is Err <==> lonely_psu == LonelyPsuStrategy::Fail && exists|h: int|
            0 <= h < groups@.len() && (#[trigger] groups@[h]).n_psu < 2,
        r is Err ==> r->Err_0 == TropError::SingletonPsu,
{
    if lonely_psu == LonelyPsuStrategy::Fail {
        let mut h: usize = 0;
        while h < groups.len()
            invariant
                h <= groups@.len(),
                lonely_psu == LonelyPsuStrategy::Fail,
                forall|g: int| 0 <= g < h ==> (#[trigger] groups@[g]).n_psu >= 2,
            decreases groups@.len() - h,
        {
            if groups[h].n_psu < 2 {
                return Err(TropError::SingletonPsu);
            }
            h = h + 1;
        }
    }
    Ok(())
}

/// Groups a design for resampling, and refuses population sizes that do not
/// fit and, where the strategy says so, strata with a single sampling unit.
pub fn prepare_design(
    strata: &Vec<i64>,
    psu: &Vec<i64>,
    fpc: Option<&Vec<u64>>,
    lonely_psu: LonelyPsuStrategy,
) -> (r: TropResult<Vec<StratumInfo>>)
    requires
        strata@.len() == psu@.len(),
        fpc is Some ==> fpc->0@.len() >= strata@.len(),
    ensures
        fpc is Some && !fpc_valid(strata@, psu@, fpc->0@) ==> r is Err && r->Err_0
            == TropError::InvalidFpc,
        !(fpc is Some && !fpc_valid(strata@, psu@, fpc->0@)) ==> {
            &&& r is Err <==> lonely_psu == LonelyPsuStrategy::Fail && !no_singletons(
                strata@,
                psu@,
            )
            &&& r is Err ==> r->Err_0 == TropError::SingletonPsu
            &&& r is Ok ==> describes_design(r->Ok_0@, strata@, psu@, sizes_of(fpc))
        },
{
    let groups: Vec<StratumInfo> = match build_strata_structure(strata, psu, fpc) {
        Ok(groups) => groups,
        Err(e) => {
            return Err(e);
        },
    };
    proof {
        lemma_singletons(groups@, strata@, psu@);
    }
    match check_singletons(&groups, lonely_psu) {
        Ok(()) => Ok(groups),
        Err(e) => Err(e),
    }
}

/// Every stratum has two sampling units or more.
pub open spec fn no_singletons(strata: Seq<i64>, psu: Seq<i64>) -> bool {
    forall|i: int| 0 <= i < strata.len() ==> psus_of(strata, psu, #[trigger] strata[i]).len() >= 2
}

proof fn lemma_singletons(groups: Seq<StratumInfo>, strata: Seq<i64>, psu: Seq<i64>)
    requires
        groups_design(groups, strata, psu),
    ensures
        no_singletons(strata, psu) <==> forall|h: int|
            0 <= h < groups.len() ==> (#[trigger] groups[h]).n_psu >= 2,
{
    assert forall|h: int| 0 <= h < groups.len() implies psus_of(
        strata,
        psu,
        (#[trigger] groups[h]).label,
    ).len() == groups[h].n_psu by {
        lemma_psu_count(&groups[h], strata, psu);
    }
    if no_singletons(strata, psu) {
        assert forall|h: int| 0 <= h < groups.len() implies (#[trigger] groups[h]).n_psu >= 2 by {
            let g = groups[h];
            assert(g.psu_labels@.contains(g.psu_labels@[0]));
            assert(psus_of(strata, psu, g.label).contains(g.psu_labels@[0]));
            let i = choose|i: int|
                0 <= i < strata.len() && #[trigger] strata[i] == g.label && psu[i]
                    == g.psu_labels@[0];
            assert(psus_of(strata, psu, strata[i]).len() >= 2);
        }
    }
    if forall|h: int| 0 <= h < groups.len() ==> (#[trigger] groups[h]).n_psu >= 2 {
        assert forall|i: int| 0 <= i < strata.len() implies psus_of(
            strata,
            psu,
            #[trigger] strata[i],
        ).len() >= 2 by {
            assert(has_stratum(groups, strata[i]));
            let h = choose|h: int|
                0 <= h < groups.len() && (#[trigger] groups[h]).label == strata[i];
            assert(groups[h].n_psu >= 2);
        }
    }
}

/// What a replicate does to a stratum.
#[derive(Debug, Clone, Copy, PartialEq, Eq, Structural)]
pub enum StratumAction {
    /// Its units keep their weights.
    Keep,
    /// Its units are perturbed up or down on the toss of a coin.
    Perturb,
    /// This many sampling units are drawn with replacement.
    Redraw(usize),
}

/// Finite population correction of a stratum: its sampling fraction
/// `n_h / N_h`, and the number of units to draw before rounding,
/// `(1 - n_h / N_h) * (n_h - 1)`.
#[derive(Debug, Clone, Copy, PartialEq, Eq, Structural)]
pub struct Correction {
    pub fraction: u64,
    pub draws: u64,
}

/// Number of sampling units to draw under a correction.
pub open spec fn corrected_draws(c: Correction) -> int {
    if bits::rounded_index_of(c.draws) < 1 {
        1
    } else {
        bits::rounded_index_of(c.draws)
    }
}

/// Action on a stratum of `n_psu` sampling units.
pub open spec fn action_of(
    n_psu: usize,
    correction: Option<Correction>,
    lonely_psu: LonelyPsuStrategy,
) -> StratumAction {
    if n_psu < 2 {
        if lonely_psu == LonelyPsuStrategy::Centered {
            StratumAction::Perturb
        } else {
            StratumAction::Keep
        }
    } else {
        match correction {
            Some(c) => if bits::le(bits::ONE, c.fraction) {
                StratumAction::Keep
            } else {
                StratumAction::Redraw(corrected_draws(c) as usize)
            },
            None => StratumAction::Redraw((n_psu - 1) as usize),
        }
    }
}

/// Decides what a replicate does to a stratum.  A stratum that was sampled
/// completely keeps its weights.
pub fn stratum_action(
    n_psu: usize,
    correction: Option<Correction>,
    lonely_psu: LonelyPsuStrategy,
) -> (r: StratumAction)
    ensures
        r == action_of(n_psu, correction, lonely_psu),
{
    if n_psu < 2 {
        match lonely_psu {
            LonelyPsuStrategy::Centered => StratumAction::Perturb,
            _ => StratumAction::Keep,
        }
    } else {
        match correction {
            Some(c) => {
                if bits::less_or_equal(bits::ONE, c.fraction) {
                    StratumAction::Keep
                } else {
                    let m: usize = bits::round(c.draws);
                    StratumAction::Redraw(
                        if m < 1 {
                            1
                        } else {
                            m
                        },
                    )
                }
            },
            None => StratumAction::Redraw(n_psu - 1),
        }
    }
}

/// A stratum is redrawn only if it has two sampling units or more, and then at
/// least one unit is drawn.
pub proof fn law_redraw_is_possible(
    n_psu: usize,
    correction: Option<Correction>,
    lonely_psu: LonelyPsuStrategy,
)
    ensures
        action_of(n_psu, correction, lonely_psu) matches StratumAction::Redraw(m) ==> n_psu >= 2
            && m >= 1,
{
    if let Some(c) = correction {
        bits::lemma_rounded_is_index(c.draws);
    }
}

/// How often each of `n` sampling units was drawn.
pub open spec fn tallies(counts: Seq<usize>, draws: Seq<usize>, n: int) -> bool {
    &&& counts.len() == n
    &&& forall|k: int|
        0 <= k < n ==> #[trigger] counts[k] == draws.to_multiset().count(k as usize)
}

/// Sum of counts.
pub open spec fn total(counts: Seq<usize>) -> int
    decreases counts.len(),
{
    if counts.len() == 0 {
        0
    } else {
        total(counts.drop_last()) + counts.last()
    }
}

proof fn lemma_total_zero(counts: Seq<usize>)
    requires
        forall|k: int| 0 <= k < counts.len() ==> #[trigger] counts[k] == 0,
    ensures
        total(counts) == 0,
    decreases counts.len(),
{
    if counts.len() > 0 {
        lemma_total_zero(counts.drop_last());
    }
}

proof fn lemma_total_update(counts: Seq<usize>, k: int, v: usize)
    requires
        0 <= k < counts.len(),
    ensures
        total(counts.update(k, v)) == total(counts) - counts[k] + v,
    decreases counts.len(),
{
    let next = counts.update(k, v);
    if k < counts.len() - 1 {
        lemma_total_update(counts.drop_last(), k, v);
        assert(next.drop_last() =~= counts.drop_last().update(k, v));
    } else {
        assert(next.drop_last() =~= counts.drop_last());
    }
}

proof fn lemma_count_push(s: Seq<usize>, v: usize)
    ensures
        forall|k: usize| #[trigger]
            s.push(v).to_multiset().count(k) == s.to_multiset().count(k) + if k == v {
                1nat
            } else {
                0
            },
        s.to_multiset().len() == s.len(),
{
    broadcast use vstd::seq_lib::group_to_multiset_ensures;

}

/// Counts how often each of `n` sampling units was drawn.
pub fn tally(draws: &Vec<usize>, n: usize) -> (counts: Vec<usize>)
    requires
        forall|k: int| 0 <= k < draws@.len() ==> #[trigger] draws@[k] < n,
    ensures
        tallies(counts@, draws@, n as int),
        total(counts@) == draws@.len(),
{
    let mut counts: Vec<usize> = Vec::new();
    let mut k: usize = 0;
    while k < n
        invariant
            k <= n,
            counts@.len() == k,
            forall|j: int| 0 <= j < k ==> #[trigger] counts@[j] == 0,
        decreases n - k,
    {
        counts.push(0);
        k = k + 1;
    }
    proof {
        lemma_total_zero(counts@);
        assert(draws@.take(0) =~= Seq::empty());
        lemma_empty_count();
    }
    let mut i: usize = 0;
    while i < draws.len()
        invariant
            i <= draws@.len(),
            forall|k: int| 0 <= k < draws@.len() ==> #[trigger] draws@[k] < n,
            tallies(counts@, draws@.take(i as int), n as int),
            total(counts@) == i,
        decreases draws@.len() - i,
    {
        let v: usize = draws[i];
        proof {
            let taken = draws@.take(i as int);
            assert(draws@.take(i + 1) =~= taken.push(v));
            lemma_count_push(taken, v);
            lemma_total_update(counts@, v as int, (counts@[v as int] + 1) as usize);
            lemma_count_bounded(taken, v);
        }
        counts.set(v, counts[v] + 1);
        i = i + 1;
    }
    proof {
        assert(draws@.take(i as int) =~= draws@);
    }
    counts
}

proof fn lemma_empty_count()
    ensures
        forall|k: usize| #[trigger] Seq::<usize>::empty().to_multiset().count(k) == 0,
{
    broadcast use vstd::seq_lib::group_to_multiset_ensures;

    assert(Seq::<usize>::empty().to_multiset() =~= vstd::multiset::Multiset::empty()) by {
        assert(Seq::<usize>::empty().to_multiset().len() == 0);
    }
}

proof fn lemma_count_bounded(s: Seq<usize>, v: usize)
    ensures
        s.to_multiset().count(v) <= s.len(),
    decreases s.len(),
{
    if s.len() > 0 {
        lemma_count_bounded(s.drop_last(), v);
        lemma_count_push(s.drop_last(), s.last());
        assert(s.drop_last().push(s.last()) =~= s);
    } else {
        lemma_empty_count();
        assert(s =~= Seq::empty());
    }
}

/// What a replicate did to a stratum.
#[derive(Debug)]
pub enum StratumOutcome {
    /// Its units keep their weights.
    Kept,
    /// Its units move away from the mean weight (`true`) or across it.
    Perturbed(bool),
    /// How often each sampling unit was drawn, and the number of draws.
    Redrawn(Vec<usize>, usize),
}

/// State words that an action leaves in the generator.
pub open spec fn words_after(action: StratumAction, n_psu: usize, words: Seq<u64>) -> Seq<u64> {
    match action {
        StratumAction::Keep => words,
        StratumAction::Perturb => coin_draw(words).1,
        StratumAction::Redraw(m) => index_draws(words, n_psu, m as nat).1,
    }
}

/// State words before stratum `h`, strata being handled in order.
pub open spec fn words_before(
    actions: Seq<StratumAction>,
    sizes: Seq<usize>,
    words: Seq<u64>,
    h: int,
) -> Seq<u64>
    decreases h,
{
    if h <= 0 {
        words
    } else {
        words_after(actions[h - 1], sizes[h - 1], words_before(actions, sizes, words, h - 1))
    }
}

/// `outcome` is what the action does with a generator in the given state.
pub open spec fn carries_out(
    outcome: StratumOutcome,
    action: StratumAction,
    n_psu: usize,
    words: Seq<u64>,
) -> bool {
    match action {
        StratumAction::Keep => outcome is Kept,
        StratumAction::Perturb => outcome == StratumOutcome::Perturbed(coin_draw(words).0),
        StratumAction::Redraw(m) => outcome matches StratumOutcome::Redrawn(counts, drawn)
            && drawn == m && tallies(counts@, index_draws(words, n_psu, m as nat).0, n_psu as int)
            && total(counts@) == m,
    }
}

fn carry_out(action: StratumAction, n_psu: usize, rng: &mut Xoshiro256PlusPlus) -> (r:
    StratumOutcome)
    requires
        action matches StratumAction::Redraw(m) ==> n_psu > 0,
    ensures
        carries_out(r, action, n_psu, generator_words(*old(rng))),
        generator_words(*final(rng)) == words_after(action, n_psu, generator_words(*old(rng))),
{
    match action {
        StratumAction::Keep => StratumOutcome::Kept,
        StratumAction::Perturb => StratumOutcome::Perturbed(toss_coin(rng)),
        StratumAction::Redraw(m) => {
            let draws: Vec<usize> = draw_indices(rng, n_psu, m);
            StratumOutcome::Redrawn(tally(&draws, n_psu), m)
        },
    }
}

/// `outcomes` is what replicate `b` of a run does to the strata, handled in
/// order and from one generator.
pub open spec fn resamples(
    outcomes: Seq<StratumOutcome>,
    actions: Seq<StratumAction>,
    sizes: Seq<usize>,
    seed: u64,
    b: usize,
) -> bool {
    let words = seeded_words(((seed + b) % 0x1_0000_0000_0000_0000) as u64);
    &&& outcomes.len() == actions.len()
    &&& forall|h: int|
        0 <= h < outcomes.len() ==> carries_out(
            #[trigger] outcomes[h],
            actions[h],
            sizes[h],
            words_before(actions, sizes, words, h),
        )
}

/// Resamples the strata of replicate `b` in order, from one generator.
pub fn rao_wu_replicate(
    actions: &Vec<StratumAction>,
    sizes: &Vec<usize>,
    seed: u64,
    b: usize,
) -> (r: Vec<StratumOutcome>)
    requires
        actions@.len() == sizes@.len(),
        forall|h: int|
            0 <= h < actions@.len() ==> (#[trigger] actions@[h] matches StratumAction::Redraw(m)
                ==> sizes@[h] > 0),
    ensures
        resamples(r@, actions@, sizes@, seed, b),
{
    let mut rng = seed_generator(iteration_seed(seed, b));
    let ghost words = seeded_words(((seed + b) % 0x1_0000_0000_0000_0000) as u64);
    let mut r: Vec<StratumOutcome> = Vec::new();
    let mut h: usize = 0;
    while h < actions.len()
        invariant
            h <= actions@.len(),
            actions@.len() == sizes@.len(),
            forall|h: int|
                0 <= h < actions@.len() ==> (
                #[trigger] actions@[h] matches StratumAction::Redraw(m) ==> sizes@[h] > 0),
            r@.len() == h,
            generator_words(rng) == words_before(actions@, sizes@, words, h as int),
            forall|g: int|
                0 <= g < h ==> carries_out(
                    #[trigger] r@[g],
                    actions@[g],
                    sizes@[g],
                    words_before(actions@, sizes@, words, g),
                ),
        decreases actions@.len() - h,
    {
        let outcome: StratumOutcome = carry_out(actions[h], sizes[h], &mut rng);
        r.push(outcome);
        h = h + 1;
    }
    r
}

/// What a replicate does to the weight of a unit.
#[derive(Debug, Clone, Copy, PartialEq, Eq, Structural)]
pub enum UnitScale {
    /// The weight is kept.
    Unchanged,
    /// The deviation from the mean weight is added (`true`) or subtracted.
    Perturbed(bool),
    /// The weight is multiplied by the number of sampling units over the number
    /// of draws, and by how often the sampling unit of this unit was drawn.
    Rescaled { n_psu: usize, draws: usize, count: usize },
}

/// Effect of a stratum's outcome on the units of its sampling unit `k`.
pub open spec fn scale_of(outcome: StratumOutcome, n_psu: usize, k: int) -> UnitScale {
    match outcome {
        StratumOutcome::Kept => UnitScale::Unchanged,
        StratumOutcome::Perturbed(up) => UnitScale::Perturbed(up),
        StratumOutcome::Redrawn(counts, draws) => UnitScale::Rescaled {
            n_psu,
            draws,
            count: counts@[k],
        },
    }
}

fn scale_for(outcome: &StratumOutcome, n_psu: usize, k: usize) -> (r: UnitScale)
    requires
        outcome matches StratumOutcome::Redrawn(counts, m) ==> k < counts@.len(),
    ensures
        r == scale_of(*outcome, n_psu, k as int),
{
    match outcome {
        StratumOutcome::Kept => UnitScale::Unchanged,
        StratumOutcome::Perturbed(up) => UnitScale::Perturbed(*up),
        StratumOutcome::Redrawn(counts, draws) => UnitScale::Rescaled {
            n_psu,
            draws: *draws,
            count: counts[k],
        },
    }
}

/// Stratum and sampling unit of unit `i`.
fn place_of(groups: &Vec<StratumInfo>, strata: &Vec<i64>, psu: &Vec<i64>, i: usize) -> (r: (
    usize,
    usize,
))
    requires
        groups_design(groups@, strata@, psu@),
        strata@.len() == psu@.len(),
        i < strata@.len(),
    ensures
        r.0 < groups@.len(),
        r.1 < groups@[r.0 as int].n_psu,
        groups@[r.0 as int].psu_to_units@[r.1 as int]@.contains(i),
{
    proof {
        law_design_partitions_units(groups@, strata@, psu@, i);
        assert(has_stratum(groups@, strata@[i as int]));
    }
    let mut h: usize = 0;
    while groups[h].label != strata[i]
        invariant
            h < groups@.len(),
            i < strata@.len(),
            has_stratum(groups@, strata@[i as int]),
            forall|g: int| 0 <= g < h ==> (#[trigger] groups@[g]).label != strata@[i as int],
        decreases groups@.len() - h,
    {
        proof {
            let w = choose|w: int|
                0 <= w < groups@.len() && (#[trigger] groups@[w]).label == strata@[i as int];
            assert(w > h);
            assert(groups.len() == groups@.len());
        }
        h = h + 1;
    }
    proof {
        let g = groups@[h as int];
        assert(strata@[i as int] == g.label && psu@[i as int] == psu@[i as int]);
        assert(psus_of(strata@, psu@, g.label).contains(psu@[i as int]));
        assert(g.psu_labels@.contains(psu@[i as int]));
    }
    let mut k: usize = 0;
    while groups[h].psu_labels[k] != psu[i]
        invariant
            h < groups@.len(),
            i < psu@.len(),
            k < groups@[h as int].psu_labels@.len(),
            groups@[h as int].psu_labels@.contains(psu@[i as int]),
            forall|j: int|
                0 <= j < k ==> #[trigger] groups@[h as int].psu_labels@[j] != psu@[i as int],
        decreases groups@[h as int].psu_labels@.len() - k,
    {
        proof {
            let w = choose|w: int|
                0 <= w < groups@[h as int].psu_labels@.len() && groups@[h as int].psu_labels@[w]
                    == psu@[i as int];
            assert(w > k);
            assert(groups@[h as int].psu_labels.len() == groups@[h as int].psu_labels@.len());
        }
        k = k + 1;
    }
    proof {
        let g = groups@[h as int];
        assert(lists_units(
            g.psu_to_units@[k as int]@,
            strata@.len() as int,
            |i: int| strata@[i] == g.label && psu@[i] == g.psu_labels@[k as int],
        ));
    }
    (h, k)
}

/// `scales` is what happens to the weights of `n` units: to each, what the
/// outcome of its stratum does to its sampling unit.
pub open spec fn scales_units(
    scales: Seq<UnitScale>,
    groups: Seq<StratumInfo>,
    outcomes: Seq<StratumOutcome>,
    n: nat,
) -> bool {
    &&& scales.len() == n
    &&& forall|h: int, k: int, i: usize|
        0 <= h < groups.len() && 0 <= k < groups[h].n_psu
            && #[trigger] groups[h].psu_to_units@[k]@.contains(i) ==> scales[i as int] == scale_of(
            outcomes[h],
            groups[h].n_psu,
            k,
        )
}

/// Turns the outcomes of a replicate into what happens to the weight of
/// each unit.
pub fn unit_scales(
    groups: &Vec<StratumInfo>,
    outcomes: &Vec<StratumOutcome>,
    strata: &Vec<i64>,
    psu: &Vec<i64>,
) -> (r: Vec<UnitScale>)
    requires
        groups_design(groups@, strata@, psu@),
        strata@.len() == psu@.len(),
        outcomes@.len() == groups@.len(),
        forall|h: int|
            0 <= h < outcomes@.len() ==> (
            #[trigger] outcomes@[h] matches StratumOutcome::Redrawn(counts, m) ==> counts@.len()
                == groups@[h].n_psu),
    ensures
        scales_units(r@, groups@, outcomes@, strata@.len()),
{
    let mut r: Vec<UnitScale> = Vec::new();
    let mut i: usize = 0;
    while i < strata.len()
        invariant
            i <= strata@.len(),
            r@.len() == i,
            groups_design(groups@, strata@, psu@),
            strata@.len() == psu@.len(),
            outcomes@.len() == groups@.len(),
            forall|h: int|
                0 <= h < outcomes@.len() ==> (
                #[trigger] outcomes@[h] matches StratumOutcome::Redrawn(counts, m) ==> counts@.len()
                    == groups@[h].n_psu),
            forall|h: int, k: int, j: usize|
                0 <= h < groups@.len() && 0 <= k < groups@[h].n_psu && j < i
                    && #[trigger] groups@[h].psu_to_units@[k]@.contains(j) ==> r@[j as int]
                    == scale_of(outcomes@[h], groups@[h].n_psu, k),
        decreases strata@.len() - i,
    {
        let (h, k) = place_of(groups, strata, psu, i);
        let ghost prev = r@;
        assert(outcomes@[h as int] matches StratumOutcome::Redrawn(counts, m) ==> counts@.len()
            == groups@[h as int].n_psu);
        let s: UnitScale = scale_for(&outcomes[h], groups[h].n_psu, k);
        r.push(s);
        proof {
            assert forall|h2: int, k2: int, j: usize|
                0 <= h2 < groups@.len() && 0 <= k2 < groups@[h2].n_psu && j < i + 1
                    && #[trigger] groups@[h2].psu_to_units@[k2]@.contains(j) implies r@[j as int]
                == scale_of(outcomes@[h2], groups@[h2].n_psu, k2) by {
                if j == i {
                    law_design_partitions_units(groups@, strata@, psu@, i);
                    assert(groups@[h as int].psu_to_units@[k as int]@.contains(i));
                } else {
                    assert(r@[j as int] == prev[j as int]);
                }
            }
        }
        i = i + 1;
    }
    proof {
        assert forall|h: int, k: int, i: usize|
            0 <= h < groups@.len() && 0 <= k < groups@[h].n_psu
                && #[trigger] groups@[h].psu_to_units@[k]@.contains(i) implies i < strata@.len() by {
            let g = groups@[h];
            assert(lists_units(
                g.psu_to_units@[k]@,
                strata@.len() as int,
                |i: int| strata@[i] == g.label && psu@[i] == g.psu_labels@[k],
            ));
            let j = choose|j: int|
                0 <= j < g.psu_to_units@[k]@.len() && g.psu_to_units@[k]@[j] == i;
        }
    }
    r
}

/// What a design effect due to unequal weighting is computed from.
#[derive(Debug)]
pub enum DesignEffect {
    /// No unit carries weight.
    Undefined,
    /// A single unit carries weight: the effect is one.
    Unit,
    /// The number of these weights times the sum of their squares over the
    /// square of their sum, and at least one.
    Ratio(Vec<u64>),
}

/// Selects the positive finite weights that a design effect runs over.
pub fn kish_plan(weights: &Vec<u64>) -> (r: DesignEffect)
    ensures
        ({
            let carrying = weights@.filter(|w: u64| bits::positive_finite(w));
            match r {
                DesignEffect::Undefined => carrying.len() == 0,
                DesignEffect::Unit => carrying.len() == 1,
                DesignEffect::Ratio(kept) => carrying.len() >= 2 && kept@ == carrying,
            }
        }),
{
    let ghost p = |w: u64| bits::positive_finite(w);
    let mut kept: Vec<u64> = Vec::new();
    let mut k: usize = 0;
    assert(weights@.take(0).filter(p) =~= Seq::empty()) by {
        reveal(Seq::filter);
    }
    while k < weights.len()
        invariant
            k <= weights@.len(),
            p == (|w: u64| bits::positive_finite(w)),
            kept@ == weights@.take(k as int).filter(p),
        decreases weights@.len() - k,
    {
        proof {
            reveal(Seq::filter);
            assert(weights@.take(k + 1).drop_last() =~= weights@.take(k as int));
        }
        if bits::is_positive_finite(weights[k]) {
            kept.push(weights[k]);
        }
        k = k + 1;
    }
    proof {
        assert(weights@.take(k as int) =~= weights@);
    }
    if kept.len() == 0 {
        DesignEffect::Undefined
    } else if kept.len() == 1 {
        DesignEffect::Unit
    } else {
        DesignEffect::Ratio(kept)
    }
}

/// A design effect that rounding took below one is one.
pub fn at_least_one(effect: u64) -> (r: u64)
    ensures
        r == if bits::lt(effect, bits::ONE) {
            bits::ONE
        } else {
            effect
        },
{
    if bits::less_than(effect, bits::ONE) {
        bits::ONE
    } else {
        effect
    }
}

/// A stratum whose sampling fraction is known.
#[derive(Debug, Clone, Copy, PartialEq, Eq, Structural)]
pub struct SampledStratum {
    /// Position among the strata in the order in which they appear, from one.
    pub stratum_index: usize,
    /// Number of sampled units.
    pub n_h: usize,
    /// Population size, positive and finite.
    pub big_n_h: u64,
}

/// Position of stratum `s` in the order in which strata appear, from one: one
/// more than the strata that occur before its first unit.
pub open spec fn appearance_of(strata: Seq<i64>, s: i64) -> nat {
    1 + strata.take(first_of(strata, s)).to_set().len()
}

/// Position of a stratum in the order in which strata appear, from one.
pub fn order_of_appearance(strata: &Vec<i64>, s: i64) -> (r: usize)
    requires
        strata@.contains(s),
    ensures
        r == appearance_of(strata@, s),
{
    let mut earlier: Vec<i64> = Vec::new();
    let mut i: usize = 0;
    while i < strata.len() && strata[i] != s
        invariant
            i <= strata@.len(),
            earlier@ == strata@.take(i as int),
            forall|j: int| 0 <= j < i ==> #[trigger] strata@[j] != s,
        decreases strata@.len() - i,
    {
        earlier.push(strata[i]);
        assert(earlier@ =~= strata@.take(i + 1));
        i = i + 1;
    }
    proof {
        if i == strata@.len() {
            let k = choose|k: int| 0 <= k < strata@.len() && strata@[k] == s;
            assert(strata@[k] != s);
        }
        lemma_first_of(strata@, s, i as int);
    }
    let labels: Vec<i64> = stratum_labels(&earlier);
    proof {
        assert(labels@.to_set() =~= earlier@.to_set()) by {
            assert forall|p: i64| #[trigger] labels@.to_set().contains(p)
                <==> earlier@.to_set().contains(p) by {
                assert(labels@.contains(p) <==> earlier@.to_set().contains(p));
            }
        }
        labels@.unique_seq_to_set();
        lemma_labels_fit(labels@, earlier@);
    }
    labels.len() + 1
}

proof fn lemma_labels_fit(labels: Seq<i64>, values: Seq<i64>)
    requires
        labels.no_duplicates(),
        labels.to_set() == values.to_set(),
    ensures
        labels.len() <= values.len(),
{
    labels.unique_seq_to_set();
    values.lemma_cardinality_of_set();
}

/// Strata appear one after the other: of two strata, the one whose first unit
/// comes first has the smaller position.
pub proof fn law_appearance_follows_first_units(strata: Seq<i64>, r: i64, s: i64)
    requires
        strata.contains(r),
        first_of(strata, r) < first_of(strata, s),
    ensures
        appearance_of(strata, r) < appearance_of(strata, s),
{
    lemma_first_is_there(strata, r);
    lemma_first_bounds(strata, s);
    let (a, b) = (strata.take(first_of(strata, r)), strata.take(first_of(strata, s)));
    let k = first_of(strata, r);
    assert(b[k] == r);
    assert(b.to_set().contains(r));
    assert(!a.to_set().contains(r)) by {
        if a.to_set().contains(r) {
            let j = choose|j: int| 0 <= j < a.len() && a[j] == r;
            assert(strata[j] == r);
        }
    }
    assert forall|p: i64| #[trigger] a.to_set().insert(r).contains(p) implies b.to_set().contains(
        p,
    ) by {
        if p != r {
            let j = choose|j: int| 0 <= j < a.len() && a[j] == p;
            assert(b[j] == p);
        }
    }
    seq_to_set_is_finite(a);
    seq_to_set_is_finite(b);
    lemma_len_subset(a.to_set().insert(r), b.to_set());
}

proof fn lemma_first_bounds(strata: Seq<i64>, s: i64)
    ensures
        0 <= first_of(strata, s) <= strata.len(),
    decreases strata.len(),
{
    if strata.len() > 0 {
        lemma_first_bounds(strata.drop_last(), s);
    }
}

proof fn lemma_first_is_there(strata: Seq<i64>, s: i64)
    requires
        strata.contains(s),
    ensures
        0 <= first_of(strata, s) < strata.len(),
        strata[first_of(strata, s)] == s,
        forall|j: int| 0 <= j < first_of(strata, s) ==> #[trigger] strata[j] != s,
{
    let i = choose|i: int| 0 <= i < strata.len() && strata[i] == s;
    lemma_first_exists(strata, s, i);
}

proof fn lemma_first_exists(strata: Seq<i64>, s: i64, i: int)
    requires
        0 <= i < strata.len(),
        strata[i] == s,
    ensures
        0 <= first_of(strata, s) <= i,
        strata[first_of(strata, s)] == s,
        forall|j: int| 0 <= j < first_of(strata, s) ==> #[trigger] strata[j] != s,
    decreases i,
{
    if exists|j: int| 0 <= j < i && #[trigger] strata[j] == s {
        let j = choose|j: int| 0 <= j < i && #[trigger] strata[j] == s;
        lemma_first_exists(strata, s, j);
    } else {
        lemma_first_of(strata, s, i);
    }
}

/// Strata with a positive finite population size, in the order of their
/// labels, each with its position in the order in which strata appear.
pub open spec fn sampled_of(groups: Seq<StratumInfo>, strata: Seq<i64>) -> Seq<SampledStratum>
    decreases groups.len(),
{
    if groups.len() == 0 {
        Seq::empty()
    } else {
        let rest = sampled_of(groups.drop_last(), strata);
        match groups.last().fpc {
            Some(size) => if bits::positive_finite(size) {
                rest.push(
                    SampledStratum {
                        stratum_index: appearance_of(strata, groups.last().label) as usize,
                        n_h: groups.last().n_psu,
                        big_n_h: size,
                    },
                )
            } else {
                rest
            },
            None => rest,
        }
    }
}

/// Strata of a design whose sampling fraction can be computed.
pub fn sampled_strata(groups: &Vec<StratumInfo>, strata: &Vec<i64>) -> (r: Vec<SampledStratum>)
    requires
        forall|h: int| 0 <= h < groups@.len() ==> strata@.contains((#[trigger] groups@[h]).label),
    ensures
        r@ == sampled_of(groups@, strata@),
        forall|k: int| 0 <= k < r@.len() ==> bits::positive_finite((#[trigger] r@[k]).big_n_h),
{
    let mut r: Vec<SampledStratum> = Vec::new();
    let mut h: usize = 0;
    while h < groups.len()
        invariant
            forall|h: int|
                0 <= h < groups@.len() ==> strata@.contains((#[trigger] groups@[h]).label),
            h <= groups@.len(),
            r@ == sampled_of(groups@.take(h as int), strata@),
            forall|k: int| 0 <= k < r@.len() ==> bits::positive_finite((#[trigger] r@[k]).big_n_h),
        decreases groups@.len() - h,
    {
        proof {
            assert(groups@.take(h + 1).drop_last() =~= groups@.take(h as int));
        }
        if let Some(size) = groups[h].fpc {
            if bits::is_positive_finite(size) {
                let stratum_index: usize = order_of_appearance(strata, groups[h].label);
                r.push(SampledStratum { stratum_index, n_h: groups[h].n_psu, big_n_h: size });
            }
        }
        h = h + 1;
    }
    proof {
        assert(groups@.take(h as int) =~= groups@);
    }
    r
}

/// Every stratum of a design has a unit.
pub proof fn lemma_labels_occur(groups: Seq<StratumInfo>, strata: Seq<i64>, psu: Seq<i64>)
    requires
        groups_design(groups, strata, psu),
    ensures
        forall|h: int| 0 <= h < groups.len() ==> strata.contains((#[trigger] groups[h]).label),
{
    assert forall|h: int| 0 <= h < groups.len() implies strata.contains(
        (#[trigger] groups[h]).label,
    ) by {
        let g = groups[h];
        assert(g.groups_stratum(strata, psu));
        let p = g.psu_labels@[0];
        assert(g.psu_labels@.contains(p));
        assert(psus_of(strata, psu, g.label).contains(p));
        let i = choose|i: int|
            0 <= i < strata.len() && #[trigger] strata[i] == g.label && psu[i] == p;
        assert(strata[i] == g.label);
    }
}

/// A stratum of which more than half was sampled.
#[derive(Debug, Clone, Copy, PartialEq, Eq, Structural)]
pub struct HighFpcStratum {
    /// Position among the strata in the order in which they appear, from one.
    pub stratum_index: usize,
    /// Sampling fraction.
    pub f_h: u64,
    /// Number of sampled units.
    pub n_h: usize,
    /// Population size.
    pub big_n_h: u64,
}

/// Strata whose fraction exceeds one half, in order.
pub open spec fn high_of(sampled: Seq<SampledStratum>, fractions: Seq<u64>) -> Seq<HighFpcStratum>
    decreases sampled.len(),
{
    if sampled.len() == 0 {
        Seq::empty()
    } else {
        let rest = high_of(sampled.drop_last(), fractions.drop_last());
        if bits::lt(bits::HALF, fractions.last()) {
            rest.push(
                HighFpcStratum {
                    stratum_index: sampled.last().stratum_index,
                    f_h: fractions.last(),
                    n_h: sampled.last().n_h,
                    big_n_h: sampled.last().big_n_h,
                },
            )
        } else {
            rest
        }
    }
}

/// Largest of some fractions, the first among equals; `-inf` where there is
/// none above it.
pub open spec fn largest_of(fractions: Seq<u64>) -> u64
    decreases fractions.len(),
{
    if fractions.len() == 0 {
        NEG_INFINITY
    } else {
        let rest = largest_of(fractions.drop_last());
        if bits::lt(rest, fractions.last()) {
            fractions.last()
        } else {
            rest
        }
    }
}

/// `-inf`.
pub const NEG_INFINITY: u64 = 0xFFF0_0000_0000_0000;

/// Selects the strata of which more than half was sampled, and the largest
/// sampling fraction, NaN where there is none.
pub fn detect_high_fpc_strata(sampled: &Vec<SampledStratum>, fractions: &Vec<u64>) -> (r: (
    Vec<HighFpcStratum>,
    u64,
))
    requires
        sampled@.len() == fractions@.len(),
    ensures
        r.0@ == high_of(sampled@, fractions@),
        r.1 == if largest_of(fractions@) == NEG_INFINITY {
            bits::NAN
        } else {
            largest_of(fractions@)
        },
{
    let mut high: Vec<HighFpcStratum> = Vec::new();
    let mut largest: u64 = NEG_INFINITY;
    let mut h: usize = 0;
    while h < sampled.len()
        invariant
            h <= sampled@.len(),
            sampled@.len() == fractions@.len(),
            high@ == high_of(sampled@.take(h as int), fractions@.take(h as int)),
            largest == largest_of(fractions@.take(h as int)),
        decreases sampled@.len() - h,
    {
        proof {
            assert(sampled@.take(h + 1).drop_last() =~= sampled@.take(h as int));
            assert(fractions@.take(h + 1).drop_last() =~= fractions@.take(h as int));
        }
        let f: u64 = fractions[h];
        if bits::less_than(largest, f) {
            largest = f;
        }
        if bits::less_than(bits::HALF, f) {
            high.push(
                HighFpcStratum {
                    stratum_index: sampled[h].stratum_index,
                    f_h: f,
                    n_h: sampled[h].n_h,
                    big_n_h: sampled[h].big_n_h,
                },
            );
        }
        h = h + 1;
    }
    proof {
        assert(sampled@.take(h as int) =~= sampled@);
        assert(fractions@.take(h as int) =~= fractions@);
    }
    if largest == NEG_INFINITY {
        (high, bits::NAN)
    } else {
        (high, largest)
    }
}

/// No sampling fraction exceeds the largest one.
pub proof fn law_largest_bounds(fractions: Seq<u64>, k: int)
    requires
        0 <= k < fractions.len(),
    ensures
        !bits::lt(largest_of(fractions), fractions[k]),
        largest_of(fractions) == NEG_INFINITY || fractions.contains(largest_of(fractions)),
    decreases fractions.len(),
{
    let init = fractions.drop_last();
    if k < init.len() {
        law_largest_bounds(init, k);
        assert(init[k] == fractions[k]);
    } else if init.len() > 0 {
        law_largest_bounds(init, 0);
    }
    if largest_of(fractions) != NEG_INFINITY {
        if bits::lt(largest_of(init), fractions.last()) {
            assert(fractions[fractions.len() - 1] == largest_of(fractions));
        } else if init.len() > 0 {
            assert(init.contains(largest_of(init)));
            let j = choose|j: int| 0 <= j < init.len() && init[j] == largest_of(init);
            assert(fractions[j] == largest_of(fractions));
        }
    }
}

/// Diagnostics of a survey design.
#[derive(Debug)]
pub struct SurveyDiagnostics {
    /// Design effect due to unequal weighting.
    pub deff_weights: u64,
    /// Strata of which more than half was sampled.
    pub high_fpc_strata: Vec<HighFpcStratum>,
    /// Largest sampling fraction, NaN where none is known.
    pub max_fh: u64,
    /// Number of strata of which more than half was sampled.
    pub n_high_fpc: usize,
}

/// Diagnostics from the design effect and the sampling fractions.
pub fn collect_diagnostics(
    deff_weights: u64,
    sampled: &Vec<SampledStratum>,
    fractions: &Vec<u64>,
) -> (r: SurveyDiagnostics)
    requires
        sampled@.len() == fractions@.len(),
    ensures
        r.deff_weights == deff_weights,
        r.high_fpc_strata@ == high_of(sampled@, fractions@),
        r.n_high_fpc == high_of(sampled@, fractions@).len(),
        r.max_fh == if largest_of(fractions@) == NEG_INFINITY {
            bits::NAN
        } else {
            largest_of(fractions@)
        },
{
    let (high_fpc_strata, max_fh) = detect_high_fpc_strata(sampled, fractions);
    let n_high_fpc: usize = high_fpc_strata.len();
    SurveyDiagnostics { deff_weights, high_fpc_strata, max_fh, n_high_fpc }
}

/// Of a stratum without a population size that has two sampling units or more,
/// one fewer is drawn; with a population size it keeps its weights exactly where
/// its sampling fraction is one or more, and at least one unit is drawn
/// otherwise.  A stratum with fewer than two is never redrawn.
pub proof fn law_stratum_action(
    n_psu: usize,
    correction: Option<Correction>,
    lonely_psu: LonelyPsuStrategy,
    r: StratumAction,
)
    requires
        call_ensures(stratum_action, (n_psu, correction, lonely_psu), r),
    ensures
        n_psu >= 2 && correction is None ==> r == StratumAction::Redraw((n_psu - 1) as usize),
        n_psu >= 2 ==> (r == StratumAction::Keep <==> (correction matches Some(c) && bits::le(
            bits::ONE,
            c.fraction,
        ))),
        n_psu >= 2 && correction is Some && !bits::le(bits::ONE, correction->0.fraction) ==> (
        r matches StratumAction::Redraw(m) && m >= 1 && (m == bits::rounded_index_of(
            correction->0.draws,
        ) || m == 1 && bits::rounded_index_of(correction->0.draws) == 0)),
        n_psu < 2 ==> r == StratumAction::Perturb || r == StratumAction::Keep,
        r == StratumAction::Perturb <==> n_psu < 2 && lonely_psu == LonelyPsuStrategy::Centered,
{
    if let Some(c) = correction {
        bits::lemma_rounded_is_index(c.draws);
    }
}

proof fn lemma_total_is_sum(counts: Seq<usize>)
    ensures
        counts.fold_left(0int, |sum: int, count: usize| sum + count) == total(counts),
    decreases counts.len(),
{
    if counts.len() > 0 {
        lemma_total_is_sum(counts.drop_last());
    }
}

/// A tally counts every draw: each sampling unit as often as it was drawn, and
/// all of them together as often as there were draws.
pub proof fn law_tally(draws: &Vec<usize>, n: usize, counts: Vec<usize>)
    requires
        call_ensures(tally, (draws, n), counts),
    ensures
        counts@.len() == n,
        forall|k: int|
            0 <= k < n ==> #[trigger] counts@[k] == draws@.to_multiset().count(k as usize),
        counts@.fold_left(0int, |sum: int, count: usize| sum + count) == draws@.len(),
{
    lemma_total_is_sum(counts@);
}

/// A replicate does to every stratum what was decided for it: where `m` sampling
/// units are to be drawn, the counts of its sampling units sum to `m`.
pub proof fn law_replicate_carries_out_actions(
    actions: &Vec<StratumAction>,
    sizes: &Vec<usize>,
    seed: u64,
    b: usize,
    r: Vec<StratumOutcome>,
    h: int,
)
    requires
        call_ensures(rao_wu_replicate, (actions, sizes, seed, b), r),
        0 <= h < actions@.len(),
    ensures
        r@.len() == actions@.len(),
        actions@[h] is Keep <==> r@[h] is Kept,
        actions@[h] is Perturb <==> r@[h] is Perturbed,
        actions@[h] matches StratumAction::Redraw(m) ==> (r@[h] matches StratumOutcome::Redrawn(
            counts,
            drawn,
        ) && drawn == m && counts@.len() == sizes@[h] && counts@.fold_left(
            0int,
            |sum: int, count: usize| sum + count,
        ) == m),
{
    if let StratumAction::Redraw(m) = actions@[h] {
        if let StratumOutcome::Redrawn(counts, drawn) = r@[h] {
            lemma_total_is_sum(counts@);
        }
    }
}

/// The first stratum of a replicate is drawn from a generator seeded with the
/// base seed plus the number of the replicate, and every other from what the
/// stratum before it left; a stratum that keeps its weights draws nothing.
pub proof fn law_strata_share_a_generator(
    actions: Seq<StratumAction>,
    sizes: Seq<usize>,
    words: Seq<u64>,
    h: int,
)
    requires
        0 <= h < actions.len(),
    ensures
        words_before(actions, sizes, words, 0) == words,
        ({
            let (here, next) = (
                words_before(actions, sizes, words, h),
                words_before(actions, sizes, words, h + 1),
            );
            &&& actions[h] is Keep ==> next == here
            &&& actions[h] is Perturb ==> next == coin_draw(here).1
            &&& actions[h] matches StratumAction::Redraw(m) ==> next == index_draws(
                here,
                sizes[h],
                m as nat,
            ).1
        }),
{
}

/// The counts of a redrawn stratum are those of the indices drawn for it, and a
/// perturbed stratum goes by one toss.
pub proof fn law_replicate_goes_by_draws(
    actions: &Vec<StratumAction>,
    sizes: &Vec<usize>,
    seed: u64,
    b: usize,
    r: Vec<StratumOutcome>,
    h: int,
)
    requires
        call_ensures(rao_wu_replicate, (actions, sizes, seed, b), r),
        0 <= h < actions@.len(),
    ensures
        ({
            let start = seeded_words(((seed + b) % 0x1_0000_0000_0000_0000) as u64);
            let words = words_before(actions@, sizes@, start, h);
            &&& r@[h] matches StratumOutcome::Perturbed(up) ==> up == coin_draw(words).0
            &&& r@[h] matches StratumOutcome::Redrawn(counts, m) ==> forall|k: int|
                0 <= k < sizes@[h] ==> #[trigger] counts@[k] == index_draws(
                    words,
                    sizes@[h],
                    m as nat,
                ).0.to_multiset().count(k as usize)
        }),
{
}

/// What a replicate does to the weight of a unit goes by its own stratum and its
/// own sampling unit: kept or perturbed with the stratum, or rescaled by how often
/// its sampling unit was drawn.
pub proof fn law_units_follow_their_stratum(
    groups: &Vec<StratumInfo>,
    outcomes: &Vec<StratumOutcome>,
    strata: &Vec<i64>,
    psu: &Vec<i64>,
    r: Vec<UnitScale>,
    i: usize,
    h: int,
    k: int,
)
    requires
        call_ensures(unit_scales, (groups, outcomes, strata, psu), r),
        i < strata@.len(),
        0 <= h < groups@.len(),
        0 <= k < groups@[h].n_psu,
        groups@[h].psu_to_units@[k]@.contains(i),
    ensures
        r@.len() == strata@.len(),
        outcomes@[h] is Kept <==> r@[i as int] == UnitScale::Unchanged,
        outcomes@[h] matches StratumOutcome::Perturbed(up) ==> r@[i as int]
            == UnitScale::Perturbed(up),
        outcomes@[h] matches StratumOutcome::Redrawn(counts, m) ==> r@[i as int]
            == (UnitScale::Rescaled {
            n_psu: groups@[h].n_psu,
            draws: m,
            count: counts@[k],
        }),
{
}

/// A grouped design has every stratum once, in increasing order of labels; in a
/// stratum every sampling unit once, in increasing order; and with a sampling unit
/// exactly the units that bear both labels.
pub proof fn law_design_is_grouped(
    strata: &Vec<i64>,
    psu: &Vec<i64>,
    fpc: Option<&Vec<u64>>,
    r: Vec<StratumInfo>,
)
    requires
        strata@.len() == psu@.len(),
        call_ensures(describe_design, (strata, psu, fpc), r),
    ensures
        forall|g: int, h: int|
            0 <= g < h < r@.len() ==> (#[trigger] r@[g]).label < (#[trigger] r@[h]).label,
        forall|h: int| 0 <= h < r@.len() ==> strata@.contains((#[trigger] r@[h]).label),
        forall|h: int|
            0 <= h < r@.len() ==> (#[trigger] r@[h]).n_psu == r@[h].psu_labels@.len()
                && r@[h].n_psu == r@[h].psu_to_units@.len(),
        forall|h: int, j: int, k: int|
            0 <= h < r@.len() && 0 <= j < k < r@[h].n_psu ==> #[trigger] r@[h].psu_labels@[j]
                < #[trigger] r@[h].psu_labels@[k],
        forall|h: int, i: int|
            0 <= h < r@.len() && 0 <= i < strata@.len() && #[trigger] r@[h].label
                == #[trigger] strata@[i] ==> r@[h].psu_labels@.contains(psu@[i]),
        forall|h: int, k: int, i: usize|
            0 <= h < r@.len() && 0 <= k < r@[h].n_psu ==> (
            #[trigger] r@[h].psu_to_units@[k]@.contains(i) <==> i < strata@.len()
                && strata@[i as int] == r@[h].label && psu@[i as int] == r@[h].psu_labels@[k]),
{
    lemma_labels_occur(r@, strata@, psu@);
    assert forall|h: int, i: int|
        0 <= h < r@.len() && 0 <= i < strata@.len() && #[trigger] r@[h].label
            == #[trigger] strata@[i] implies r@[h].psu_labels@.contains(psu@[i]) by {
        assert(r@[h].groups_stratum(strata@, psu@));
        assert(psus_of(strata@, psu@, r@[h].label).contains(psu@[i]));
    }
    assert forall|h: int, k: int, i: usize|
        0 <= h < r@.len() && 0 <= k < r@[h].n_psu implies (
    #[trigger] r@[h].psu_to_units@[k]@.contains(i) <==> i < strata@.len() && strata@[i as int]
        == r@[h].label && psu@[i as int] == r@[h].psu_labels@[k]) by {
        let g = r@[h];
        assert(g.groups_stratum(strata@, psu@));
        assert(lists_units(
            g.psu_to_units@[k]@,
            strata@.len() as int,
            |i: int| strata@[i] == g.label && psu@[i] == g.psu_labels@[k],
        ));
        if g.psu_to_units@[k]@.contains(i) {
            let j = choose|j: int| 0 <= j < g.psu_to_units@[k]@.len() && g.psu_to_units@[k]@[j] == i;
            assert(g.psu_to_units@[k]@[j] < strata@.len());
        }
    }
}

/// Every unit is in one sampling unit of the group of its stratum.
pub proof fn law_every_unit_is_grouped(
    strata: &Vec<i64>,
    psu: &Vec<i64>,
    fpc: Option<&Vec<u64>>,
    r: Vec<StratumInfo>,
    i: usize,
)
    requires
        strata@.len() == psu@.len(),
        call_ensures(describe_design, (strata, psu, fpc), r),
        i < strata@.len(),
    ensures
        exists|h: int, k: int|
            0 <= h < r@.len() && 0 <= k < r@[h].n_psu && r@[h].label == strata@[i as int]
                && #[trigger] r@[h].psu_to_units@[k]@.contains(i),
{
    law_design_is_grouped(strata, psu, fpc, r);
    law_design_partitions_units(r@, strata@, psu@, i);
}

/// The population size of a stratum is the one recorded for its first unit.
pub proof fn law_size_of_first_unit(
    strata: &Vec<i64>,
    psu: &Vec<i64>,
    fpc: Option<&Vec<u64>>,
    r: Vec<StratumInfo>,
    h: int,
    i: int,
)
    requires
        call_ensures(describe_design, (strata, psu, fpc), r),
        0 <= h < r@.len(),
        0 <= i < strata@.len(),
        strata@[i] == r@[h].label,
        forall|j: int| 0 <= j < i ==> #[trigger] strata@[j] != r@[h].label,
    ensures
        r@[h].fpc == match fpc {
            Some(sizes) => Some(sizes@[i]),
            None => None,
        },
{
    assert(r@[h].has_size(strata@, sizes_of(fpc)));
    lemma_first_exists(strata@, r@[h].label, i);
    assert(strata@[first_of(strata@, r@[h].label)] == r@[h].label);
}

/// A design is refused exactly where the population size of a stratum is not
/// positive and finite or falls short of its number of sampling units; otherwise
/// it is grouped.
pub proof fn law_sizes_are_checked(
    strata: &Vec<i64>,
    psu: &Vec<i64>,
    fpc: Option<&Vec<u64>>,
    groups: Vec<StratumInfo>,
    r: TropResult<Vec<StratumInfo>>,
)
    requires
        strata@.len() == psu@.len(),
        call_ensures(describe_design, (strata, psu, fpc), groups),
        call_ensures(build_strata_structure, (strata, psu, fpc), r),
    ensures
        r is Err <==> exists|h: int|
            0 <= h < groups@.len() && ((#[trigger] groups@[h]).fpc matches Some(size) && !(
            bits::finite(size) && bits::lt(bits::ZERO, size) && bits::index_of(size)
                >= groups@[h].n_psu)),
        r is Err ==> r->Err_0 == TropError::InvalidFpc,
{
    if let Some(sizes) = fpc {
        assert forall|h: int| 0 <= h < groups@.len() implies psus_of(
            strata@,
            psu@,
            (#[trigger] groups@[h]).label,
        ).len() == groups@[h].n_psu && groups@[h].fpc == Some(
            stratum_fpc(strata@, sizes@, groups@[h].label),
        ) by {
            lemma_psu_count(&groups@[h], strata@, psu@);
            assert(groups@[h].has_size(strata@, sizes_of(fpc)));
        }
        if r is Err {
            let i = choose|i: int|
                0 <= i < strata@.len() && !fpc_fits(
                    stratum_fpc(strata@, sizes@, #[trigger] strata@[i]),
                    psus_of(strata@, psu@, strata@[i]).len(),
                );
            assert(has_stratum(groups@, strata@[i]));
            let h = choose|h: int|
                0 <= h < groups@.len() && (#[trigger] groups@[h]).label == strata@[i];
            assert(groups@[h].fpc == Some(stratum_fpc(strata@, sizes@, strata@[i])));
        } else {
            lemma_labels_occur(groups@, strata@, psu@);
            assert forall|h: int| 0 <= h < groups@.len() implies ((
            #[trigger] groups@[h]).fpc matches Some(size) ==> bits::finite(size) && bits::lt(
                bits::ZERO,
                size,
            ) && bits::index_of(size) >= groups@[h].n_psu) by {
                assert(strata@.contains(groups@[h].label));
                let i = choose|i: int| 0 <= i < strata@.len() && strata@[i] == groups@[h].label;
                assert(fpc_fits(
                    stratum_fpc(strata@, sizes@, strata@[i]),
                    psus_of(strata@, psu@, strata@[i]).len(),
                ));
            }
        }
    } else {
        assert forall|h: int| 0 <= h < groups@.len() implies (#[trigger] groups@[h]).fpc is None by {
            assert(groups@[h].has_size(strata@, sizes_of(fpc)));
        }
    }
}

/// A prepared design is the grouped one unless its sizes are refused, or a
/// stratum has fewer than two sampling units and that is to be refused.
pub proof fn law_design_is_prepared(
    strata: &Vec<i64>,
    psu: &Vec<i64>,
    fpc: Option<&Vec<u64>>,
    lonely_psu: LonelyPsuStrategy,
    groups: TropResult<Vec<StratumInfo>>,
    r: TropResult<Vec<StratumInfo>>,
)
    requires
        strata@.len() == psu@.len(),
        call_ensures(build_strata_structure, (strata, psu, fpc), groups),
        call_ensures(prepare_design, (strata, psu, fpc, lonely_psu), r),
    ensures
        groups is Err ==> r is Err && r->Err_0 == TropError::InvalidFpc,
        groups is Ok ==> (r is Err <==> lonely_psu == LonelyPsuStrategy::Fail && exists|h: int|
            0 <= h < groups->Ok_0@.len() && (#[trigger] groups->Ok_0@[h]).n_psu < 2),
        groups is Ok && r is Err ==> r->Err_0 == TropError::SingletonPsu,
{
    if let Ok(g) = groups {
        lemma_singletons(g@, strata@, psu@);
    }
}

/// A stratum comes after as many others as have a unit before its first one.
pub proof fn law_order_of_appearance(strata: &Vec<i64>, s: i64, r: usize, i: int)
    requires
        call_ensures(order_of_appearance, (strata, s), r),
        0 <= i < strata@.len(),
        strata@[i] == s,
        forall|j: int| 0 <= j < i ==> #[trigger] strata@[j] != s,
    ensures
        r == 1 + strata@.take(i).to_set().len(),
{
    lemma_first_exists(strata@, s, i);
    assert(strata@[first_of(strata@, s)] == s);
}

/// Sampling fractions are known of exactly the strata with a positive finite
/// population size: what more strata add does not depend on those before them.
pub proof fn law_sampled_strata(
    a: &Vec<StratumInfo>,
    b: &Vec<StratumInfo>,
    strata: &Vec<i64>,
    p: Vec<SampledStratum>,
    q: Vec<SampledStratum>,
    size: u64,
    stratum_index: usize,
)
    requires
        call_ensures(sampled_strata, (a, strata), p),
        call_ensures(sampled_strata, (b, strata), q),
        b@.len() == a@.len() + 1,
        b@.drop_last() == a@,
        call_ensures(order_of_appearance, (strata, b@.last().label), stratum_index),
    ensures
        a@.len() == 0 ==> p@.len() == 0,
        b@.last().fpc == Some(size) && bits::finite(size) && bits::lt(bits::ZERO, size) ==> q@
            == p@.push(
            SampledStratum { stratum_index, n_h: b@.last().n_psu, big_n_h: size },
        ),
        b@.last().fpc is None ==> q@ == p@,
        b@.last().fpc == Some(size) && !(bits::finite(size) && bits::lt(bits::ZERO, size)) ==> q@
            == p@,
{
}

/// The strata of which more than half was sampled are exactly those whose
/// fraction exceeds one half, in order and with their own fraction: one more
/// stratum is added or not, whatever precedes it.
pub proof fn law_high_strata(
    a: &Vec<SampledStratum>,
    b: &Vec<SampledStratum>,
    f: &Vec<u64>,
    g: &Vec<u64>,
    p: (Vec<HighFpcStratum>, u64),
    q: (Vec<HighFpcStratum>, u64),
)
    requires
        call_ensures(detect_high_fpc_strata, (a, f), p),
        call_ensures(detect_high_fpc_strata, (b, g), q),
        a@.len() == f@.len(),
        b@.len() == a@.len() + 1,
        g@.len() == b@.len(),
        b@.drop_last() == a@,
        g@.drop_last() == f@,
    ensures
        a@.len() == 0 ==> p.0@.len() == 0,
        bits::lt(bits::HALF, g@.last()) ==> q.0@ == p.0@.push(
            HighFpcStratum {
                stratum_index: b@.last().stratum_index,
                f_h: g@.last(),
                n_h: b@.last().n_h,
                big_n_h: b@.last().big_n_h,
            },
        ),
        !bits::lt(bits::HALF, g@.last()) ==> q.0@ == p.0@,
{
}

/// The largest sampling fraction is one of the fractions and is not below any;
/// it is undefined exactly where no fraction lies above negative infinity.
pub proof fn law_largest_fraction(
    sampled: &Vec<SampledStratum>,
    fractions: &Vec<u64>,
    r: (Vec<HighFpcStratum>, u64),
)
    requires
        call_ensures(detect_high_fpc_strata, (sampled, fractions), r),
    ensures
        (forall|k: int|
            0 <= k < fractions@.len() ==> !bits::lt(
                0xFFF0_0000_0000_0000,
                #[trigger] fractions@[k],
            )) ==> r.1 == bits::NAN,
        (exists|k: int|
            0 <= k < fractions@.len() && bits::lt(0xFFF0_0000_0000_0000, #[trigger] fractions@[k]))
            ==> fractions@.contains(r.1) && forall|k: int|
            0 <= k < fractions@.len() ==> !bits::lt(r.1, #[trigger] fractions@[k]),
{
    let top = largest_of(fractions@);
    assert forall|k: int| 0 <= k < fractions@.len() implies !bits::lt(
        top,
        #[trigger] fractions@[k],
    ) && (top == NEG_INFINITY || fractions@.contains(top)) by {
        law_largest_bounds(fractions@, k);
    }
    lemma_largest_above(fractions@);
    if top != NEG_INFINITY && fractions@.len() > 0 {
        law_largest_bounds(fractions@, 0);
        let k = choose|k: int| 0 <= k < fractions@.len() && fractions@[k] == top;
        assert(bits::lt(NEG_INFINITY, fractions@[k]));
    }
}

proof fn lemma_largest_above(fractions: Seq<u64>)
    ensures
        largest_of(fractions) == NEG_INFINITY || bits::lt(NEG_INFINITY, largest_of(fractions)),
    decreases fractions.len(),
{
    if fractions.len() > 0 {
        lemma_largest_above(fractions.drop_last());
    }
}

/// The strategies are numbered: one centres, two fails, and any other skips.
pub proof fn law_strategy_of_a_code(code: i32, r: LonelyPsuStrategy)
    requires
        call_ensures(LonelyPsuStrategy::from_code, (code,), r),
    ensures
        r == LonelyPsuStrategy::Centered <==> code == 1,
        r == LonelyPsuStrategy::Fail <==> code == 2,
        r == LonelyPsuStrategy::Skip <==> code != 1 && code != 2,
{
}

/// A design effect runs over every positive finite weight; it is undefined without
/// one and fixed with a single one.
pub proof fn law_design_effect_takes_every_weight(weights: &Vec<u64>, r: DesignEffect)
    requires
        call_ensures(kish_plan, (weights,), r),
    ensures
        ({
            let carrying = weights@.filter(|w: u64| bits::finite(w) && bits::lt(bits::ZERO, w));
            &&& r is Undefined <==> carrying.len() == 0
            &&& r is Unit <==> carrying.len() == 1
            &&& r matches DesignEffect::Ratio(kept) ==> kept@ == carrying
        }),
{
    assert((|w: u64| bits::finite(w) && bits::lt(bits::ZERO, w)) =~= (|w: u64|
        bits::positive_finite(w)));
}

/// A design effect is raised to one exactly where it is less.
pub proof fn law_design_effect_is_at_least_one(effect: u64, r: u64)
    requires
        call_ensures(at_least_one, (effect,), r),
    ensures
        bits::lt(effect, bits::ONE) ==> r == bits::ONE,
        !bits::lt(effect, bits::ONE) ==> r == effect,
        !bits::lt(r, bits::ONE),
{
}

/// Diagnostics report every stratum of which more than half was sampled and count
/// them.
pub proof fn law_diagnostics_report_every_high_stratum(
    deff_weights: u64,
    sampled: &Vec<SampledStratum>,
    fractions: &Vec<u64>,
    r: SurveyDiagnostics,
    high: (Vec<HighFpcStratum>, u64),
)
    requires
        call_ensures(collect_diagnostics, (deff_weights, sampled, fractions), r),
        call_ensures(detect_high_fpc_strata, (sampled, fractions), high),
    ensures
        r.deff_weights == deff_weights,
        r.high_fpc_strata@ == high.0@,
        r.n_high_fpc == high.0@.len(),
        r.max_fh == high.1,
{
}

} // verus!
