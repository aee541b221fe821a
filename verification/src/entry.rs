//! What the C entry points decide: argument checks, status codes and the
//! values written back.
use crate::bits;
use crate::error::{TropError, TropResult};
use vstd::prelude::*;

verus! {

/// Version of the C interface.
pub const ABI_VERSION: i32 = 2;

/// Entry points of the C interface.
#[derive(Debug, Clone, Copy, PartialEq, Eq, Structural)]
pub enum EntryPoint {
    LoocvGridSearch,
    LoocvGridSearchExhaustive,
    EstimateTwostep,
    BootstrapTwostep,
    LoocvCyclingSearchJoint,
    LoocvGridSearchJoint,
    EstimateJoint,
    BootstrapJoint,
    EstimateTwostepWeighted,
    BootstrapTwostepWeighted,
    EstimateJointWeighted,
    BootstrapJointWeighted,
    BootstrapRaoWu,
    BootstrapRaoWuJoint,
    UnitDistanceMatrix,
    TwostepWeightVectors,
    JointWeightVectors,
    LoocvGridSearchWithCovariates,
    LoocvGridSearchExhaustiveWithCovariates,
    EstimateTwostepWithCovariates,
    BootstrapTwostepWithCovariates,
    EstimateJointWithCovariates,
    BootstrapJointWithCovariates,
    SurveyDiagnostics,
}

impl EntryPoint {
    /// The entry point refuses dimensions that are not positive.
    pub open spec fn checks_dimensions(self) -> bool {
        match self {
            EntryPoint::LoocvGridSearch
            | EntryPoint::EstimateTwostep
            | EntryPoint::BootstrapTwostep
            | EntryPoint::LoocvGridSearchJoint
            | EntryPoint::EstimateJoint
            | EntryPoint::BootstrapJoint => true,
            _ => false,
        }
    }

    /// The entry point refuses a covariate count without covariates.
    pub open spec fn requires_covariates(self) -> bool {
        match self {
            EntryPoint::LoocvGridSearchWithCovariates
            | EntryPoint::LoocvGridSearchExhaustiveWithCovariates
            | EntryPoint::EstimateTwostepWithCovariates
            | EntryPoint::BootstrapTwostepWithCovariates
            | EntryPoint::EstimateJointWithCovariates
            | EntryPoint::BootstrapJointWithCovariates => true,
            _ => false,
        }
    }

    /// The entry point refuses a panel whose treatment is not adopted
    /// simultaneously.
    pub open spec fn requires_adoption(self) -> bool {
        match self {
            EntryPoint::LoocvCyclingSearchJoint
            | EntryPoint::LoocvGridSearchJoint
            | EntryPoint::EstimateJoint
            | EntryPoint::BootstrapJoint
            | EntryPoint::EstimateJointWeighted
            | EntryPoint::BootstrapJointWeighted
            | EntryPoint::BootstrapRaoWuJoint
            | EntryPoint::JointWeightVectors
            | EntryPoint::EstimateJointWithCovariates
            | EntryPoint::BootstrapJointWithCovariates => true,
            _ => false,
        }
    }

    /// Whether the entry point checks the dimensions.
    pub fn is_dimension_checked(self) -> (r: bool)
        ensures
            r == self.checks_dimensions(),
    {
        match self {
            EntryPoint::LoocvGridSearch
            | EntryPoint::EstimateTwostep
            | EntryPoint::BootstrapTwostep
            | EntryPoint::LoocvGridSearchJoint
            | EntryPoint::EstimateJoint
            | EntryPoint::BootstrapJoint => true,
            _ => false,
        }
    }

    /// Whether the entry point takes covariates for granted.
    pub fn is_covariate_checked(self) -> (r: bool)
        ensures
            r == self.requires_covariates(),
    {
        match self {
            EntryPoint::LoocvGridSearchWithCovariates
            | EntryPoint::LoocvGridSearchExhaustiveWithCovariates
            | EntryPoint::EstimateTwostepWithCovariates
            | EntryPoint::BootstrapTwostepWithCovariates
            | EntryPoint::EstimateJointWithCovariates
            | EntryPoint::BootstrapJointWithCovariates => true,
            _ => false,
        }
    }

    /// Whether the entry point requires simultaneous adoption.
    pub fn is_joint(self) -> (r: bool)
        ensures
            r == self.requires_adoption(),
    {
        match self {
            EntryPoint::LoocvCyclingSearchJoint
            | EntryPoint::LoocvGridSearchJoint
            | EntryPoint::EstimateJoint
            | EntryPoint::BootstrapJoint
            | EntryPoint::EstimateJointWeighted
            | EntryPoint::BootstrapJointWeighted
            | EntryPoint::BootstrapRaoWuJoint
            | EntryPoint::JointWeightVectors
            | EntryPoint::EstimateJointWithCovariates
            | EntryPoint::BootstrapJointWithCovariates => true,
            _ => false,
        }
    }
}

/// Arguments that an entry point checks.
#[derive(Debug, Clone, Copy, PartialEq, Eq, Structural)]
pub struct EntryArgs {
    /// Every pointer that must not be null is not null.
    pub pointers_present: bool,
    pub n_periods: i32,
    pub n_units: i32,
    /// The covariate pointer is not null.
    pub covariates_present: bool,
    pub n_covariates: i32,
}

/// Status of the checks of an entry point: null pointers first, then missing
/// covariates, then dimensions.
pub open spec fn admission(entry: EntryPoint, args: EntryArgs) -> TropError {
    if !args.pointers_present {
        TropError::NullPointer
    } else if entry.requires_covariates() && args.n_covariates > 0 && !args.covariates_present {
        TropError::NullPointer
    } else if entry.checks_dimensions() && (args.n_periods <= 0 || args.n_units <= 0) {
        TropError::InvalidDimension
    } else {
        TropError::Success
    }
}

/// Checks the arguments of an entry point.
pub fn check_entry(entry: EntryPoint, args: EntryArgs) -> (r: TropError)
    ensures
        r == admission(entry, args),
{
    if !args.pointers_present {
        return TropError::NullPointer;
    }
    if entry.is_covariate_checked() && args.n_covariates > 0 && !args.covariates_present {
        return TropError::NullPointer;
    }
    if entry.is_dimension_checked() && (args.n_periods <= 0 || args.n_units <= 0) {
        return TropError::InvalidDimension;
    }
    TropError::Success
}

/// A null pointer is reported as such by every entry point, whatever the other
/// arguments.
pub proof fn law_null_pointer_first(entry: EntryPoint, args: EntryArgs)
    ensures
        !args.pointers_present ==> admission(entry, args) == TropError::NullPointer,
        admission(entry, args) == TropError::Success ==> args.pointers_present,
{
}

/// Whether covariates take part.
pub fn uses_covariates(n_covariates: i32, covariates_present: bool) -> (r: bool)
    ensures
        r <==> n_covariates > 0 && covariates_present,
{
    n_covariates > 0 && covariates_present
}

/// Cell as the two numbers written back, both `-1` where there is none.
pub fn encode_cell(cell: Option<(usize, usize)>) -> (r: (i32, i32))
    requires
        cell matches Some((t, i)) ==> t <= i32::MAX && i <= i32::MAX,
    ensures
        match cell {
            Some((t, i)) => r.0 == t && r.1 == i,
            None => r == (-1i32, -1i32),
        },
{
    match cell {
        Some((t, i)) => (t as i32, i as i32),
        None => (-1, -1),
    }
}

/// How the fit of one treated cell went.
#[derive(Debug, Clone, Copy, PartialEq, Eq, Structural)]
pub struct CellFit {
    pub n_iters: usize,
    pub converged: bool,
}

/// How the fits of all treated cells went.
#[derive(Debug)]
pub struct FitSummary {
    /// Fits that succeeded.
    pub n_successful: usize,
    /// Most iterations of a successful fit.
    pub max_iters: usize,
    /// Every successful fit settled.
    pub all_converged: bool,
    /// For each cell: 1 if its fit settled, 0 if it did not, -1 if it failed.
    pub converged_by_obs: Vec<i32>,
    /// For each cell: the iterations of its fit, -1 if it failed.
    pub n_iters_by_obs: Vec<i32>,
}

pub open spec fn successful_of(fits: Seq<Option<CellFit>>) -> int
    decreases fits.len(),
{
    if fits.len() == 0 {
        0
    } else {
        successful_of(fits.drop_last()) + if fits.last() is Some {
            1int
        } else {
            0
        }
    }
}

pub open spec fn max_iters_of(fits: Seq<Option<CellFit>>) -> usize
    decreases fits.len(),
{
    if fits.len() == 0 {
        0
    } else {
        let rest = max_iters_of(fits.drop_last());
        match fits.last() {
            Some(fit) => if fit.n_iters > rest {
                fit.n_iters
            } else {
                rest
            },
            None => rest,
        }
    }
}

pub open spec fn convergence_code(fit: Option<CellFit>) -> i32 {
    match fit {
        Some(f) => if f.converged {
            1i32
        } else {
            0i32
        },
        None => -1i32,
    }
}

pub open spec fn iteration_code(fit: Option<CellFit>) -> int {
    match fit {
        Some(f) => f.n_iters as int,
        None => -1,
    }
}

impl FitSummary {
    /// This summarises the given fits.
    pub open spec fn summarizes(&self, fits: Seq<Option<CellFit>>) -> bool {
        &&& self.n_successful == successful_of(fits)
        &&& self.max_iters == max_iters_of(fits)
        &&& self.all_converged <==> forall|k: int|
            0 <= k < fits.len() ==> (#[trigger] fits[k] matches Some(f) ==> f.converged)
        &&& self.converged_by_obs@ == fits.map_values(|f: Option<CellFit>| convergence_code(f))
        &&& self.n_iters_by_obs@.len() == fits.len()
        &&& forall|k: int|
            0 <= k < fits.len() ==> #[trigger] self.n_iters_by_obs@[k] == iteration_code(fits[k])
    }
}

/// Summarises the fits of all treated cells, in the order of the cells.
pub fn summarize_fits(fits: &Vec<Option<CellFit>>) -> (r: FitSummary)
    requires
        forall|k: int|
            0 <= k < fits@.len() ==> (#[trigger] fits@[k] matches Some(f) ==> f.n_iters
                <= i32::MAX),
    ensures
        r.summarizes(fits@),
{
    let mut n_successful: usize = 0;
    let mut max_iters: usize = 0;
    let mut all_converged: bool = true;
    let mut converged_by_obs: Vec<i32> = Vec::new();
    let mut n_iters_by_obs: Vec<i32> = Vec::new();
    let mut k: usize = 0;
    while k < fits.len()
        invariant
            k <= fits@.len(),
            forall|k: int|
                0 <= k < fits@.len() ==> (#[trigger] fits@[k] matches Some(f) ==> f.n_iters
                    <= i32::MAX),
            n_successful <= k,
            n_successful == successful_of(fits@.take(k as int)),
            max_iters == max_iters_of(fits@.take(k as int)),
            all_converged <==> forall|j: int|
                0 <= j < k ==> (#[trigger] fits@[j] matches Some(f) ==> f.converged),
            converged_by_obs@ == fits@.map_values(
                |f: Option<CellFit>| convergence_code(f),
            ).take(k as int),
            n_iters_by_obs@.len() == k,
            forall|j: int|
                0 <= j < k ==> #[trigger] n_iters_by_obs@[j] == iteration_code(fits@[j]),
        decreases fits@.len() - k,
    {
        proof {
            assert(fits@.take(k + 1).drop_last() =~= fits@.take(k as int));
        }
        match fits[k] {
            Some(fit) => {
                assert(fits@[k as int] matches Some(f) ==> f.n_iters <= i32::MAX);
                n_successful = n_successful + 1;
                if fit.n_iters > max_iters {
                    max_iters = fit.n_iters;
                }
                if fit.converged {
                    converged_by_obs.push(1);
                } else {
                    all_converged = false;
                    converged_by_obs.push(0);
                }
                n_iters_by_obs.push(fit.n_iters as i32);
            },
            None => {
                converged_by_obs.push(-1);
                n_iters_by_obs.push(-1);
            },
        }
        k = k + 1;
    }
    proof {
        assert(fits@.take(k as int) =~= fits@);
        assert(converged_by_obs@ =~= fits@.map_values(|f: Option<CellFit>| convergence_code(f)));
    }
    FitSummary { n_successful, max_iters, all_converged, converged_by_obs, n_iters_by_obs }
}

/// Status of a twostep estimation: there must be a treated cell, and the fit
/// of at least one must succeed.
pub fn twostep_status(fits: &Vec<Option<CellFit>>) -> (r: TropResult<FitSummary>)
    requires
        forall|k: int|
            0 <= k < fits@.len() ==> (#[trigger] fits@[k] matches Some(f) ==> f.n_iters
                <= i32::MAX),
    ensures
        r is Err <==> successful_of(fits@) == 0,
        r is Err ==> r->Err_0 == if fits@.len() == 0 {
            TropError::NoTreated
        } else {
            TropError::Convergence
        },
        r is Ok ==> r->Ok_0.summarizes(fits@),
{
    if fits.len() == 0 {
        return Err(TropError::NoTreated);
    }
    let summary: FitSummary = summarize_fits(fits);
    if summary.n_successful == 0 {
        Err(TropError::Convergence)
    } else {
        Ok(summary)
    }
}

/// The diagnostics of a twostep estimation are aligned with the treated cells,
/// and a cell is marked -1 exactly when its fit failed.
pub proof fn law_diagnostics_aligned(summary: &FitSummary, fits: Seq<Option<CellFit>>, k: int)
    requires
        summary.summarizes(fits),
        0 <= k < fits.len(),
    ensures
        summary.converged_by_obs@.len() == fits.len(),
        summary.converged_by_obs@[k] == -1 <==> fits[k] is None,
        summary.n_iters_by_obs@[k] == -1 <==> fits[k] is None,
        fits[k] matches Some(f) ==> f.n_iters <= summary.max_iters,
    decreases fits.len(),
{
    lemma_max_iters(fits, k);
}

proof fn lemma_max_iters(fits: Seq<Option<CellFit>>, k: int)
    requires
        0 <= k < fits.len(),
    ensures
        fits[k] matches Some(f) ==> f.n_iters <= max_iters_of(fits),
    decreases fits.len(),
{
    let init = fits.drop_last();
    if k < init.len() {
        lemma_max_iters(init, k);
        assert(init[k] == fits[k]);
    }
}

/// Covariate coefficients written back: the fitted ones, zeros where there are
/// none.
pub fn gamma_output(gamma: Option<&Vec<u64>>, n_covariates: usize) -> (r: Vec<u64>)
    requires
        gamma is Some ==> gamma->0@.len() == n_covariates,
    ensures
        r@.len() == n_covariates,
        gamma is Some ==> r@ == gamma->0@,
        gamma is None ==> forall|k: int| 0 <= k < n_covariates ==> #[trigger] r@[k] == bits::ZERO,
{
    let mut r: Vec<u64> = Vec::new();
    let mut k: usize = 0;
    while k < n_covariates
        invariant
            k <= n_covariates,
            r@.len() == k,
            gamma is Some ==> gamma->0@.len() == n_covariates,
            gamma is Some ==> r@ == gamma->0@.take(k as int),
            gamma is None ==> forall|j: int| 0 <= j < k ==> #[trigger] r@[j] == bits::ZERO,
        decreases n_covariates - k,
    {
        match gamma {
            Some(g) => {
                r.push(g[k]);
            },
            None => {
                r.push(bits::ZERO);
            },
        }
        k = k + 1;
    }
    r
}

/// Number of bytes of a message that fit in a buffer beside the terminator.
pub open spec fn copied(message: int, buf_len: i32) -> int {
    if buf_len <= 0 {
        0
    } else if message <= buf_len - 1 {
        message
    } else {
        buf_len - 1
    }
}

/// Bytes written to a buffer of `buf_len` bytes for a message: as much of it
/// as fits, and a terminating zero; nothing where the buffer is empty.
pub fn message_bytes(message: &Vec<u8>, buf_len: i32) -> (r: Vec<u8>)
    ensures
        buf_len <= 0 ==> r@.len() == 0,
        buf_len > 0 ==> r@ == message@.take(copied(message@.len() as int, buf_len)).push(0u8)
            && r@.len() <= buf_len,
{
    let mut r: Vec<u8> = Vec::new();
    if buf_len <= 0 {
        return r;
    }
    let room: usize = (buf_len - 1) as usize;
    let n: usize = if message.len() <= room {
        message.len()
    } else {
        room
    };
    let mut k: usize = 0;
    while k < n
        invariant
            k <= n,
            n <= message@.len(),
            r@ == message@.take(k as int),
        decreases n - k,
    {
        r.push(message[k]);
        k = k + 1;
    }
    r.push(0);
    r
}

/// Number of values written to a buffer with room for `room`.
pub fn written(available: usize, room: i32) -> (r: usize)
    ensures
        r == if room <= 0 {
            0
        } else if available <= room {
            available as int
        } else {
            room as int
        },
{
    if room <= 0 {
        0
    } else if available <= room as usize {
        available
    } else {
        room as usize
    }
}

/// An entry point refuses its arguments for a null pointer where a required one is
/// missing, or where covariates are announced, taken for granted and missing; for a
/// dimension where one is not positive and it looks at them; and for nothing else.
pub proof fn law_admission(entry: EntryPoint, args: EntryArgs, r: TropError)
    requires
        call_ensures(check_entry, (entry, args), r),
    ensures
        ({
            let with_covariates = entry == EntryPoint::LoocvGridSearchWithCovariates || entry
                == EntryPoint::LoocvGridSearchExhaustiveWithCovariates || entry
                == EntryPoint::EstimateTwostepWithCovariates || entry
                == EntryPoint::BootstrapTwostepWithCovariates || entry
                == EntryPoint::EstimateJointWithCovariates || entry
                == EntryPoint::BootstrapJointWithCovariates;
            let with_dimensions = entry == EntryPoint::LoocvGridSearch || entry
                == EntryPoint::EstimateTwostep || entry == EntryPoint::BootstrapTwostep || entry
                == EntryPoint::LoocvGridSearchJoint || entry == EntryPoint::EstimateJoint || entry
                == EntryPoint::BootstrapJoint;
            let missing = !args.pointers_present || with_covariates && args.n_covariates > 0
                && !args.covariates_present;
            let empty = with_dimensions && (args.n_periods <= 0 || args.n_units <= 0);
            &&& r == TropError::NullPointer <==> missing
            &&& r == TropError::InvalidDimension <==> !missing && empty
            &&& r == TropError::Success <==> !missing && !empty
        }),
{
}

/// The fits of the treated cells are summarised cell by cell, all of them: one more
/// fit is counted and enters the most iterations where it succeeded, and every cell
/// has its own two codes.
pub proof fn law_every_fit_is_summarised(
    fits: &Vec<Option<CellFit>>,
    more: &Vec<Option<CellFit>>,
    r: FitSummary,
    s: FitSummary,
    k: int,
)
    requires
        call_ensures(summarize_fits, (fits,), r),
        call_ensures(summarize_fits, (more,), s),
        more@.len() == fits@.len() + 1,
        more@.drop_last() == fits@,
        0 <= k < more@.len(),
    ensures
        fits@.len() == 0 ==> r.n_successful == 0 && r.max_iters == 0,
        more@.last() is None ==> s.n_successful == r.n_successful && s.max_iters == r.max_iters,
        more@.last() matches Some(f) ==> s.n_successful == r.n_successful + 1 && s.max_iters
            == if f.n_iters > r.max_iters {
            f.n_iters
        } else {
            r.max_iters
        },
        s.converged_by_obs@.len() == more@.len(),
        s.n_iters_by_obs@.len() == more@.len(),
        more@[k] is None ==> s.converged_by_obs@[k] == -1 && s.n_iters_by_obs@[k] == -1,
        more@[k] matches Some(f) ==> s.n_iters_by_obs@[k] == f.n_iters
            && s.converged_by_obs@[k] == if f.converged {
            1i32
        } else {
            0i32
        },
        s.all_converged <==> forall|j: int|
            0 <= j < more@.len() ==> (#[trigger] more@[j] matches Some(f) ==> f.converged),
{
}

/// A twostep estimation succeeds exactly where the fit of some treated cell,
/// whichever, did; it fails for want of treated cells exactly where there is none.
pub proof fn law_twostep_status(
    fits: &Vec<Option<CellFit>>,
    r: TropResult<FitSummary>,
)
    requires
        call_ensures(twostep_status, (fits,), r),
    ensures
        r is Ok <==> exists|k: int| 0 <= k < fits@.len() && (#[trigger] fits@[k]) is Some,
        r is Err && fits@.len() == 0 ==> r->Err_0 == TropError::NoTreated,
        r is Err && fits@.len() > 0 ==> r->Err_0 == TropError::Convergence,
{
    lemma_successes_counted(fits@);
}

proof fn lemma_successes_counted(fits: Seq<Option<CellFit>>)
    ensures
        successful_of(fits) >= 0,
        successful_of(fits) > 0 <==> exists|k: int|
            0 <= k < fits.len() && (#[trigger] fits[k]) is Some,
    decreases fits.len(),
{
    if fits.len() > 0 {
        let init = fits.drop_last();
        lemma_successes_counted(init);
        assert(fits[fits.len() - 1] == fits.last());
        if exists|k: int| 0 <= k < fits.len() && (#[trigger] fits[k]) is Some {
            let k = choose|k: int| 0 <= k < fits.len() && (#[trigger] fits[k]) is Some;
            if k < init.len() {
                assert(init[k] is Some);
            }
        }
        if exists|k: int| 0 <= k < init.len() && (#[trigger] init[k]) is Some {
            let k = choose|k: int| 0 <= k < init.len() && (#[trigger] init[k]) is Some;
            assert(fits[k] is Some);
        }
    }
}

/// A message is written as far as it fits beside a terminating zero, whatever its
/// length, and nothing is written without room.
pub proof fn law_message_fits_its_buffer(message: &Vec<u8>, buf_len: i32, r: Vec<u8>)
    requires
        call_ensures(message_bytes, (message, buf_len), r),
    ensures
        buf_len <= 0 ==> r@.len() == 0,
        buf_len > 0 ==> {
            &&& r@.len() > 0 && r@.last() == 0
            &&& r@.len() == buf_len || r@.len() == message@.len() + 1
            &&& r@.len() <= buf_len && r@.len() <= message@.len() + 1
            &&& forall|k: int| 0 <= k < r@.len() - 1 ==> #[trigger] r@[k] == message@[k]
        },
{
}

/// The entry points of the joint method, and no others, require simultaneous
/// adoption.
pub proof fn law_joint_entry_points(entry: EntryPoint, r: bool)
    requires
        call_ensures(EntryPoint::is_joint, (entry,), r),
    ensures
        r <==> entry == EntryPoint::LoocvCyclingSearchJoint || entry
            == EntryPoint::LoocvGridSearchJoint || entry == EntryPoint::EstimateJoint || entry
            == EntryPoint::BootstrapJoint || entry == EntryPoint::EstimateJointWeighted || entry
            == EntryPoint::BootstrapJointWeighted || entry == EntryPoint::BootstrapRaoWuJoint
            || entry == EntryPoint::JointWeightVectors || entry
            == EntryPoint::EstimateJointWithCovariates || entry
            == EntryPoint::BootstrapJointWithCovariates,
{
}

/// What is written back: a cell as its two numbers, coefficients as they are or as
/// zeros, and as many values as there are and as fit.
pub proof fn law_outputs(
    cell: Option<(usize, usize)>,
    code: (i32, i32),
    gamma: Option<&Vec<u64>>,
    n_covariates: usize,
    coefficients: Vec<u64>,
    available: usize,
    room: i32,
    n: usize,
    covariates_present: bool,
    n_given: i32,
    used: bool,
)
    requires
        call_ensures(encode_cell, (cell,), code),
        call_ensures(gamma_output, (gamma, n_covariates), coefficients),
        call_ensures(written, (available, room), n),
        call_ensures(uses_covariates, (n_given, covariates_present), used),
    ensures
        cell matches Some((t, i)) ==> code.0 == t && code.1 == i,
        cell is None ==> code.0 == -1 && code.1 == -1,
        coefficients@.len() == n_covariates,
        gamma matches Some(g) ==> coefficients@ == g@,
        gamma is None ==> forall|k: int|
            0 <= k < n_covariates ==> #[trigger] coefficients@[k] == bits::ZERO,
        n <= available,
        room <= 0 ==> n == 0,
        room > 0 ==> n <= room && (n == available || n == room),
        used <==> n_given > 0 && covariates_present,
{
}

} // verus!
