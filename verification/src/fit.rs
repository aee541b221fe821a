//! The order of steps of the iterative fits.
//!
//! A fit is driven by asking it for its phase, carrying out that phase in
//! floating point, and recording what came of it.
use crate::bits;
use crate::estimation::{
    after_proximal_step, joint_inner_cap, largest_change, small_penalty, twostep_low_rank_step,
    Changes, Iterations, LowRankStep, StepOutcome, MAX_INNER_ITER, MAX_INNER_ITER_HIGH,
    MAX_JOINT_INNER_ITER, MAX_JOINT_INNER_ITER_HIGH,
};
use vstd::prelude::*;

verus! {

/// What stays the same over a fit.
#[derive(Debug, Clone, Copy, PartialEq, Eq, Structural)]
pub struct FitSettings {
    pub lambda_nn: u64,
    pub max_iter: usize,
    pub tol: u64,
    /// There are covariates.
    pub covariates: bool,
}

/// What came of a phase.
#[derive(Debug, Clone, Copy, PartialEq, Eq, Structural)]
pub enum FitEvent {
    /// A block of parameters was updated.
    Updated,
    /// A proximal step was made: its inner product with the momentum, and the
    /// largest change of the component.
    Stepped(u64, u64),
    /// The largest changes of the blocks over the iteration.
    Compared(Changes),
    /// The phase could not be carried out.
    Failed,
}

/// Phase of the twostep fit.
#[derive(Debug, Clone, Copy, PartialEq, Eq, Structural)]
pub enum TwostepPhase {
    /// Unit effects, given the period effects.
    Alpha,
    /// Period effects, given the new unit effects.
    Beta,
    /// Covariate coefficients, given both.
    Gamma,
    /// The low-rank component takes over the residuals.
    ClosedForm,
    /// One proximal step of the low-rank component.
    Proximal,
    /// Comparison with the previous iteration.
    Compare,
    Done,
    Failed,
}

/// Alternating fit of the twostep method.
#[derive(Debug, Clone, Copy, PartialEq, Eq, Structural)]
pub struct TwostepFit {
    pub phase: TwostepPhase,
    pub iterations: Iterations,
    /// Proximal steps left in this iteration, the current one included.
    pub inner_left: usize,
    /// The next proximal step starts without momentum.
    pub fresh: bool,
}

/// Proximal steps of one iteration of the twostep fit, zero where the update
/// has a closed form.
pub open spec fn twostep_cap(lambda_nn: u64) -> int {
    if bits::le(lambda_nn, bits::ZERO) {
        0
    } else if small_penalty(lambda_nn) {
        MAX_INNER_ITER_HIGH as int
    } else {
        MAX_INNER_ITER as int
    }
}

/// The fit enters the update of the low-rank component.
pub open spec fn enter_low_rank(f: TwostepFit, s: FitSettings) -> TwostepFit {
    if twostep_cap(s.lambda_nn) == 0 {
        TwostepFit { phase: TwostepPhase::ClosedForm, ..f }
    } else {
        TwostepFit {
            phase: TwostepPhase::Proximal,
            inner_left: twostep_cap(s.lambda_nn) as usize,
            fresh: true,
            ..f
        }
    }
}

/// Iterations after one whose blocks changed by `changes`.
pub open spec fn iterated(it: Iterations, changes: Changes, tol: u64) -> Iterations {
    Iterations {
        done: (it.done + 1) as usize,
        converged: bits::lt(largest_change(changes), tol),
    }
}

/// The twostep fit after an event.
pub open spec fn twostep_advanced(f: TwostepFit, s: FitSettings, event: FitEvent) -> TwostepFit {
    match (f.phase, event) {
        (TwostepPhase::Alpha, FitEvent::Updated) => TwostepFit { phase: TwostepPhase::Beta, ..f },
        (TwostepPhase::Beta, FitEvent::Updated) => if s.covariates {
            TwostepFit { phase: TwostepPhase::Gamma, ..f }
        } else {
            enter_low_rank(f, s)
        },
        (TwostepPhase::Gamma, FitEvent::Updated) => enter_low_rank(f, s),
        (TwostepPhase::ClosedForm, FitEvent::Updated) => TwostepFit {
            phase: TwostepPhase::Compare,
            ..f
        },
        (TwostepPhase::Proximal, FitEvent::Stepped(overlap, change)) => TwostepFit {
            phase: if bits::lt(change, s.tol) || f.inner_left == 1 {
                TwostepPhase::Compare
            } else {
                TwostepPhase::Proximal
            },
            inner_left: (f.inner_left - 1) as usize,
            fresh: bits::lt(bits::ZERO, overlap),
            ..f
        },
        (TwostepPhase::Compare, FitEvent::Compared(changes)) => {
            let iterations = iterated(f.iterations, changes, s.tol);
            TwostepFit {
                phase: if iterations.due(s.max_iter) {
                    TwostepPhase::Alpha
                } else {
                    TwostepPhase::Done
                },
                iterations,
                ..f
            }
        },
        _ => TwostepFit { phase: TwostepPhase::Failed, ..f },
    }
}

/// A twostep fit about to start; done at once where no iteration is allowed.
pub open spec fn twostep_new(s: FitSettings) -> TwostepFit {
    TwostepFit {
        phase: if s.max_iter == 0 {
            TwostepPhase::Done
        } else {
            TwostepPhase::Alpha
        },
        iterations: Iterations { done: 0, converged: false },
        inner_left: 0,
        fresh: true,
    }
}

impl TwostepFit {
    /// The counters are consistent with the phase.
    pub open spec fn wf(&self, s: FitSettings) -> bool {
        match self.phase {
            TwostepPhase::Done => self.iterations.done <= s.max_iter,
            TwostepPhase::Failed => true,
            TwostepPhase::Proximal => self.iterations.due(s.max_iter) && 1 <= self.inner_left
                <= twostep_cap(s.lambda_nn),
            _ => self.iterations.due(s.max_iter),
        }
    }

    /// A fit about to start; done at once where no iteration is allowed.
    pub fn new(s: FitSettings) -> (r: TwostepFit)
        ensures
            r.wf(s),
            r == twostep_new(s),
    {
        TwostepFit {
            phase: if s.max_iter == 0 {
                TwostepPhase::Done
            } else {
                TwostepPhase::Alpha
            },
            iterations: Iterations::new(),
            inner_left: 0,
            fresh: true,
        }
    }

    fn start_low_rank(&mut self, s: FitSettings)
        ensures
            *final(self) == enter_low_rank(*old(self), s),
    {
        match twostep_low_rank_step(s.lambda_nn) {
            LowRankStep::ClosedForm => {
                self.phase = TwostepPhase::ClosedForm;
            },
            LowRankStep::Proximal(cap) => {
                self.phase = TwostepPhase::Proximal;
                self.inner_left = cap;
                self.fresh = true;
            },
        }
    }

    /// Takes in what came of the phase.
    pub fn record(&mut self, s: FitSettings, event: FitEvent)
        requires
            old(self).wf(s),
            old(self).phase != TwostepPhase::Done,
        ensures
            final(self).wf(s),
            *final(self) == twostep_advanced(*old(self), s, event),
    {
        match (self.phase, event) {
            (TwostepPhase::Alpha, FitEvent::Updated) => {
                self.phase = TwostepPhase::Beta;
            },
            (TwostepPhase::Beta, FitEvent::Updated) => {
                if s.covariates {
                    self.phase = TwostepPhase::Gamma;
                } else {
                    self.start_low_rank(s);
                }
            },
            (TwostepPhase::Gamma, FitEvent::Updated) => {
                self.start_low_rank(s);
            },
            (TwostepPhase::ClosedForm, FitEvent::Updated) => {
                self.phase = TwostepPhase::Compare;
            },
            (TwostepPhase::Proximal, FitEvent::Stepped(overlap, change)) => {
                let outcome: StepOutcome = after_proximal_step(overlap, change, s.tol);
                if outcome.settled || self.inner_left == 1 {
                    self.phase = TwostepPhase::Compare;
                }
                self.inner_left = self.inner_left - 1;
                self.fresh = outcome.restart;
            },
            (TwostepPhase::Compare, FitEvent::Compared(changes)) => {
                self.iterations.record(changes, s.tol);
                self.phase = if self.iterations.continues(s.max_iter) {
                    TwostepPhase::Alpha
                } else {
                    TwostepPhase::Done
                };
            },
            _ => {
                self.phase = TwostepPhase::Failed;
            },
        }
    }
}

/// Phases left in the current iteration of a twostep fit, at most.
pub open spec fn twostep_rank(f: TwostepFit, s: FitSettings) -> int {
    let cap = twostep_cap(s.lambda_nn);
    match f.phase {
        TwostepPhase::Alpha => cap + 5,
        TwostepPhase::Beta => cap + 4,
        TwostepPhase::Gamma => cap + 3,
        TwostepPhase::ClosedForm => 2,
        TwostepPhase::Proximal => f.inner_left + 1,
        TwostepPhase::Compare => 1,
        TwostepPhase::Done | TwostepPhase::Failed => 0,
    }
}

/// A twostep fit ends: every phase brings it closer to the end of its
/// iteration, or completes one of at most `max_iter` iterations.
pub proof fn law_twostep_fit_ends(f: TwostepFit, s: FitSettings, event: FitEvent)
    requires
        f.wf(s),
        f.phase != TwostepPhase::Done,
        f.phase != TwostepPhase::Failed,
    ensures
        ({
            let next = twostep_advanced(f, s, event);
            &&& next.iterations.done <= s.max_iter
            &&& twostep_rank(f, s) > 0
            &&& next.iterations.done == f.iterations.done && twostep_rank(next, s) < twostep_rank(
                f,
                s,
            ) || next.iterations.done == f.iterations.done + 1
        }),
{
}

/// A twostep fit that is done either used up its iterations or settled in the
/// last one.
pub proof fn law_twostep_fit_done(f: TwostepFit, s: FitSettings, event: FitEvent)
    requires
        f.wf(s),
        f.phase != TwostepPhase::Done,
        twostep_advanced(f, s, event).phase == TwostepPhase::Done,
    ensures
        ({
            let next = twostep_advanced(f, s, event);
            &&& event matches FitEvent::Compared(changes) && (next.iterations.converged
                <==> bits::lt(largest_change(changes), s.tol))
            &&& next.iterations.converged || next.iterations.done == s.max_iter
        }),
{
}

/// Phase of the joint fit with a low-rank component.
#[derive(Debug, Clone, Copy, PartialEq, Eq, Structural)]
pub enum JointPhase {
    /// Least squares for the fixed effects, given the low-rank component.
    Solve,
    /// One proximal step of the low-rank component.
    Proximal,
    /// Comparison with the previous iteration.
    Compare,
    /// Least squares given the final low-rank component.
    FinalSolve,
    Done,
    Failed,
}

/// Alternating fit of the joint method.
#[derive(Debug, Clone, Copy, PartialEq, Eq, Structural)]
pub struct JointFit {
    pub phase: JointPhase,
    pub iterations: Iterations,
    /// Proximal steps left in this iteration, the current one included.
    pub inner_left: usize,
    /// The next proximal step starts without momentum.
    pub fresh: bool,
}

/// Proximal steps of one iteration of the joint fit.
pub open spec fn joint_cap(lambda_nn: u64) -> int {
    if small_penalty(lambda_nn) {
        MAX_JOINT_INNER_ITER_HIGH as int
    } else {
        MAX_JOINT_INNER_ITER as int
    }
}

/// Phase in which an iteration starts, or the final solve where none is due.
pub open spec fn joint_start(it: Iterations, max_iter: usize) -> JointPhase {
    if it.due(max_iter) {
        JointPhase::Solve
    } else {
        JointPhase::FinalSolve
    }
}

/// The joint fit after an event.
pub open spec fn joint_advanced(f: JointFit, s: FitSettings, event: FitEvent) -> JointFit {
    match (f.phase, event) {
        (JointPhase::Solve, FitEvent::Updated) => JointFit {
            phase: JointPhase::Proximal,
            inner_left: joint_cap(s.lambda_nn) as usize,
            fresh: true,
            ..f
        },
        (JointPhase::Proximal, FitEvent::Stepped(overlap, change)) => JointFit {
            phase: if bits::lt(change, s.tol) || f.inner_left == 1 {
                JointPhase::Compare
            } else {
                JointPhase::Proximal
            },
            inner_left: (f.inner_left - 1) as usize,
            fresh: bits::lt(bits::ZERO, overlap),
            ..f
        },
        (JointPhase::Compare, FitEvent::Compared(changes)) => {
            let iterations = iterated(f.iterations, changes, s.tol);
            JointFit { phase: joint_start(iterations, s.max_iter), iterations, ..f }
        },
        (JointPhase::FinalSolve, FitEvent::Updated) => JointFit { phase: JointPhase::Done, ..f },
        _ => JointFit { phase: JointPhase::Failed, ..f },
    }
}

/// A joint fit about to start.
pub open spec fn joint_new(s: FitSettings) -> JointFit {
    JointFit {
        phase: joint_start(Iterations { done: 0, converged: false }, s.max_iter),
        iterations: Iterations { done: 0, converged: false },
        inner_left: 0,
        fresh: true,
    }
}

impl JointFit {
    /// The counters are consistent with the phase.
    pub open spec fn wf(&self, s: FitSettings) -> bool {
        match self.phase {
            JointPhase::Done | JointPhase::FinalSolve => self.iterations.done <= s.max_iter
                && !self.iterations.due(s.max_iter),
            JointPhase::Failed => true,
            JointPhase::Proximal => self.iterations.due(s.max_iter) && 1 <= self.inner_left
                <= joint_cap(s.lambda_nn),
            _ => self.iterations.due(s.max_iter),
        }
    }

    /// A fit about to start.
    pub fn new(s: FitSettings) -> (r: JointFit)
        ensures
            r.wf(s),
            r == joint_new(s),
    {
        let iterations: Iterations = Iterations::new();
        JointFit {
            phase: if iterations.continues(s.max_iter) {
                JointPhase::Solve
            } else {
                JointPhase::FinalSolve
            },
            iterations,
            inner_left: 0,
            fresh: true,
        }
    }

    /// Takes in what came of the phase.
    pub fn record(&mut self, s: FitSettings, event: FitEvent)
        requires
            old(self).wf(s),
            old(self).phase != JointPhase::Done,
        ensures
            final(self).wf(s),
            *final(self) == joint_advanced(*old(self), s, event),
    {
        match (self.phase, event) {
            (JointPhase::Solve, FitEvent::Updated) => {
                self.phase = JointPhase::Proximal;
                self.inner_left = joint_inner_cap(s.lambda_nn);
                self.fresh = true;
            },
            (JointPhase::Proximal, FitEvent::Stepped(overlap, change)) => {
                let outcome: StepOutcome = after_proximal_step(overlap, change, s.tol);
                if outcome.settled || self.inner_left == 1 {
                    self.phase = JointPhase::Compare;
                }
                self.inner_left = self.inner_left - 1;
                self.fresh = outcome.restart;
            },
            (JointPhase::Compare, FitEvent::Compared(changes)) => {
                self.iterations.record(changes, s.tol);
                self.phase = if self.iterations.continues(s.max_iter) {
                    JointPhase::Solve
                } else {
                    JointPhase::FinalSolve
                };
            },
            (JointPhase::FinalSolve, FitEvent::Updated) => {
                self.phase = JointPhase::Done;
            },
            _ => {
                self.phase = JointPhase::Failed;
            },
        }
    }
}

/// Phases left in the current iteration of a joint fit, at most.
pub open spec fn joint_rank(f: JointFit, s: FitSettings) -> int {
    match f.phase {
        JointPhase::Solve => joint_cap(s.lambda_nn) + 3,
        JointPhase::Proximal => f.inner_left + 2,
        JointPhase::Compare => 2,
        JointPhase::FinalSolve => 1,
        JointPhase::Done | JointPhase::Failed => 0,
    }
}

/// A joint fit ends: every phase brings it closer to the end of its iteration,
/// or completes one of at most `max_iter` iterations.
pub proof fn law_joint_fit_ends(f: JointFit, s: FitSettings, event: FitEvent)
    requires
        f.wf(s),
        f.phase != JointPhase::Done,
        f.phase != JointPhase::Failed,
    ensures
        ({
            let next = joint_advanced(f, s, event);
            &&& next.iterations.done <= s.max_iter
            &&& joint_rank(f, s) > 0
            &&& next.iterations.done == f.iterations.done && joint_rank(next, s) < joint_rank(f, s)
                || next.iterations.done == f.iterations.done + 1
        }),
{
}

/// A joint fit is done only after a final solve, so the fixed effects that it
/// returns belong to the low-rank component that it returns.
pub proof fn law_joint_fit_done(f: JointFit, s: FitSettings, event: FitEvent)
    requires
        f.wf(s),
        f.phase != JointPhase::Done,
        joint_advanced(f, s, event).phase == JointPhase::Done,
    ensures
        f.phase == JointPhase::FinalSolve,
        event == FitEvent::Updated,
        f.iterations.converged || f.iterations.done == s.max_iter,
{
}

/// The phases of the twostep fit follow each other: unit effects, period effects,
/// covariates where there are any, and the low-rank component, in closed form
/// exactly under a penalty that is zero or negative, and otherwise from a first
/// proximal step without momentum, up to fifty of them under a positive penalty
/// below `0.1` and up to ten under any other.
pub proof fn law_twostep_phases_follow(f: TwostepFit, s: FitSettings)
    ensures
        ({
            let next = twostep_advanced(f, s, FitEvent::Updated);
            let low_rank = f.phase == TwostepPhase::Gamma || f.phase == TwostepPhase::Beta
                && !s.covariates;
            &&& next.iterations == f.iterations
            &&& f.phase == TwostepPhase::Alpha ==> next.phase == TwostepPhase::Beta
            &&& f.phase == TwostepPhase::Beta && s.covariates ==> next.phase == TwostepPhase::Gamma
            &&& low_rank && bits::le(s.lambda_nn, bits::ZERO) ==> next.phase
                == TwostepPhase::ClosedForm
            &&& low_rank && !bits::le(s.lambda_nn, bits::ZERO) ==> {
                &&& next.phase == TwostepPhase::Proximal
                &&& next.fresh
                &&& bits::lt(s.lambda_nn, 0x3FB9_9999_9999_999A) ==> next.inner_left == 50
                &&& !bits::lt(s.lambda_nn, 0x3FB9_9999_9999_999A) ==> next.inner_left == 10
            }
            &&& f.phase == TwostepPhase::ClosedForm ==> next.phase == TwostepPhase::Compare
        }),
{
}

/// A proximal step of the twostep fit is followed by another one exactly where
/// the component still changed by the tolerance or more and a step is left; that
/// one starts without momentum exactly where the step turned against it.
pub proof fn law_twostep_steps_follow(f: TwostepFit, s: FitSettings, overlap: u64, change: u64)
    requires
        f.wf(s),
        f.phase == TwostepPhase::Proximal,
    ensures
        ({
            let next = twostep_advanced(f, s, FitEvent::Stepped(overlap, change));
            &&& next.iterations == f.iterations
            &&& next.inner_left + 1 == f.inner_left
            &&& next.phase == TwostepPhase::Proximal <==> !bits::lt(change, s.tol)
                && f.inner_left > 1
            &&& next.phase == TwostepPhase::Proximal || next.phase == TwostepPhase::Compare
            &&& next.fresh <==> bits::lt(bits::ZERO, overlap)
        }),
{
}

/// An iteration of the twostep fit counts once, and is the last exactly where
/// every block changed by less than the tolerance or the limit is reached.
pub proof fn law_twostep_iterations_follow(f: TwostepFit, s: FitSettings, c: Changes)
    requires
        f.wf(s),
        f.phase == TwostepPhase::Compare,
    ensures
        ({
            let next = twostep_advanced(f, s, FitEvent::Compared(c));
            let settled = (bits::nan(c.alpha) || bits::lt(c.alpha, s.tol)) && (bits::nan(c.beta)
                || bits::lt(c.beta, s.tol)) && (bits::nan(c.low_rank) || bits::lt(
                c.low_rank,
                s.tol,
            )) && (bits::nan(c.gamma) || bits::lt(c.gamma, s.tol)) && !(bits::nan(c.alpha)
                && bits::nan(c.beta) && bits::nan(c.low_rank) && bits::nan(c.gamma));
            &&& next.iterations.done == f.iterations.done + 1
            &&& next.iterations.converged <==> settled
            &&& next.phase == TwostepPhase::Done <==> settled || f.iterations.done + 1
                == s.max_iter
            &&& next.phase == TwostepPhase::Done || next.phase == TwostepPhase::Alpha
        }),
{
    crate::estimation::law_settling_looks_at_every_block(c, s.tol);
}

/// A twostep fit starts with the unit effects, unless no iteration is allowed, and
/// a phase that could not be carried out ends it.
pub proof fn law_twostep_start_and_failure(s: FitSettings, r: TwostepFit, f: TwostepFit)
    requires
        call_ensures(TwostepFit::new, (s,), r),
    ensures
        r.phase == TwostepPhase::Done <==> s.max_iter == 0,
        r.phase == TwostepPhase::Alpha <==> s.max_iter > 0,
        r.iterations.done == 0,
        !r.iterations.converged,
        twostep_advanced(f, s, FitEvent::Failed).phase == TwostepPhase::Failed,
{
}

/// A least-squares phase of the joint fit is followed by proximal steps, the first
/// without momentum, up to a hundred under a positive penalty below `0.1` and up
/// to twenty under any other; the final one ends the fit.
pub proof fn law_joint_phases_follow(f: JointFit, s: FitSettings)
    ensures
        ({
            let next = joint_advanced(f, s, FitEvent::Updated);
            &&& next.iterations == f.iterations
            &&& f.phase == JointPhase::Solve ==> {
                &&& next.phase == JointPhase::Proximal
                &&& next.fresh
                &&& bits::lt(bits::ZERO, s.lambda_nn) && bits::lt(
                    s.lambda_nn,
                    0x3FB9_9999_9999_999A,
                ) ==> next.inner_left == 100
                &&& !(bits::lt(bits::ZERO, s.lambda_nn) && bits::lt(
                    s.lambda_nn,
                    0x3FB9_9999_9999_999A,
                )) ==> next.inner_left == 20
            }
            &&& f.phase == JointPhase::FinalSolve ==> next.phase == JointPhase::Done
            &&& joint_advanced(f, s, FitEvent::Failed).phase == JointPhase::Failed
        }),
{
}

/// A proximal step of the joint fit is followed by another one exactly where the
/// component still changed by the tolerance or more and a step is left.
pub proof fn law_joint_steps_follow(f: JointFit, s: FitSettings, overlap: u64, change: u64)
    requires
        f.wf(s),
        f.phase == JointPhase::Proximal,
    ensures
        ({
            let next = joint_advanced(f, s, FitEvent::Stepped(overlap, change));
            &&& next.iterations == f.iterations
            &&& next.inner_left + 1 == f.inner_left
            &&& next.phase == JointPhase::Proximal <==> !bits::lt(change, s.tol) && f.inner_left
                > 1
            &&& next.phase == JointPhase::Proximal || next.phase == JointPhase::Compare
            &&& next.fresh <==> bits::lt(bits::ZERO, overlap)
        }),
{
}

/// An iteration of the joint fit counts once, and is the last exactly where every
/// block changed by less than the tolerance or the limit is reached; the final
/// solve follows the last, and comes first where none is allowed.
pub proof fn law_joint_iterations_follow(f: JointFit, s: FitSettings, c: Changes, r: JointFit)
    requires
        f.wf(s),
        f.phase == JointPhase::Compare,
        call_ensures(JointFit::new, (s,), r),
    ensures
        ({
            let next = joint_advanced(f, s, FitEvent::Compared(c));
            let settled = (bits::nan(c.alpha) || bits::lt(c.alpha, s.tol)) && (bits::nan(c.beta)
                || bits::lt(c.beta, s.tol)) && (bits::nan(c.low_rank) || bits::lt(
                c.low_rank,
                s.tol,
            )) && (bits::nan(c.gamma) || bits::lt(c.gamma, s.tol)) && !(bits::nan(c.alpha)
                && bits::nan(c.beta) && bits::nan(c.low_rank) && bits::nan(c.gamma));
            &&& next.iterations.done == f.iterations.done + 1
            &&& next.iterations.converged <==> settled
            &&& next.phase == JointPhase::FinalSolve <==> settled || f.iterations.done + 1
                == s.max_iter
            &&& next.phase == JointPhase::FinalSolve || next.phase == JointPhase::Solve
        }),
        r.phase == JointPhase::FinalSolve <==> s.max_iter == 0,
        r.phase == JointPhase::Solve <==> s.max_iter > 0,
        r.iterations.done == 0,
        !r.iterations.converged,
{
    crate::estimation::law_settling_looks_at_every_block(c, s.tol);
}

} // verus!
