use vstd::prelude::*;
use crate::error::GenError;
use crate::gfi::{ArgDiff, GenFn, Trace};
use crate::trie::AddrMap;

verus! {

/// The acceptance rule: a move with log acceptance ratio
/// `model_weight - fwd_weight + bwd_weight` is accepted at the log uniform
/// draw `log_u` exactly when `log_u` lies strictly below that ratio.
pub open spec fn accepts_spec(
    log_u: int,
    model_weight: int,
    fwd_weight: int,
    bwd_weight: int,
) -> bool {
    log_u < model_weight - fwd_weight + bwd_weight
}

/// Decides acceptance of a move from its three log weights. The ratio is
/// formed without overflow, whatever the weights.
pub fn accepts(log_u: i64, model_weight: i64, fwd_weight: i64, bwd_weight: i64) -> (accepted: bool)
    ensures
        accepted == accepts_spec(
            log_u as int,
            model_weight as int,
            fwd_weight as int,
            bwd_weight as int,
        ),
{
    let alpha: i128 = model_weight as i128 - fwd_weight as i128 + bwd_weight as i128;
    (log_u as i128) < alpha
}

/// What one step with a custom proposal returns, in terms of what the
/// proposal and the model returned during it.
///
/// The proposal proposed `fwd_choices` with log density `fwd_weight` while
/// reading the current trace; the model moved the trace to these choices
/// at unchanged arguments, giving `moved`, the choices it `discard`ed and
/// its log weight; the proposal assessed the discarded choices while
/// reading `moved`. The step is accepted by the acceptance rule on these
/// three weights. An accepted step returns `moved`, a rejected step a copy
/// of the trace it was given.
pub open spec fn mh_step<Args: Clone, Data: Clone, Ret: Clone, ProposalArgs: Clone, M, P>(
    model: &M,
    trace: Trace<Args, Data, Ret>,
    proposal: &P,
    proposal_args: ProposalArgs,
    log_u: i64,
    out: (Trace<Args, Data, Ret>, bool),
) -> bool where
    M: GenFn<Args, Data, Ret>,
    P: for <'a>GenFn<(&'a Trace<Args, Data, Ret>, ProposalArgs), Data, ()>,
 {
    exists|
        fwd_args: ProposalArgs,
        fwd_choices: Data,
        fwd_weight: i64,
        args: Args,
        moved: Trace<Args, Data, Ret>,
        discard: Data,
        model_weight: i64,
        bwd_weight: i64,
    |
        {
            &&& cloned(proposal_args, fwd_args)
            &&& #[trigger] P::propose.ensures(
                (proposal, (&trace, fwd_args)),
                (fwd_choices, fwd_weight),
            )
            &&& cloned(trace.args, args)
            &&& #[trigger] M::update.ensures(
                (model, trace, args, ArgDiff::NoChange, fwd_choices),
                (moved, discard, model_weight),
            )
            &&& #[trigger] P::assess.ensures(
                (proposal, (&moved, proposal_args), discard),
                bwd_weight,
            )
            &&& out.1 == accepts_spec(
                log_u as int,
                model_weight as int,
                fwd_weight as int,
                bwd_weight as int,
            )
            &&& out.1 ==> out.0 == moved
            &&& !out.1 ==> out.0.is_copy_of(trace)
        }
}

/// One step of Metropolis-Hastings on `trace` under `model`, with
/// `proposal` proposing new values for some of the choices. `log_u` is the
/// logarithm of a uniform draw from the unit interval, in the unit of the
/// log weights.
///
/// The proposal reads the current trace through a shared borrow that ends
/// with each call, so the trace is never changed while the proposal looks
/// at it.
pub fn metropolis_hastings<Args: Clone, Data: Clone, Ret: Clone, ProposalArgs: Clone, M, P>(
    model: &M,
    trace: Trace<Args, Data, Ret>,
    proposal: &P,
    proposal_args: ProposalArgs,
    log_u: i64,
) -> (out: (Trace<Args, Data, Ret>, bool)) where
    M: GenFn<Args, Data, Ret>,
    P: for <'a>GenFn<(&'a Trace<Args, Data, Ret>, ProposalArgs), Data, ()>,

    ensures
        mh_step(model, trace, proposal, proposal_args, log_u, out),
        trace.retv is Some ==> out.0.retv is Some,
{
    let prev_trace = trace.clone();

    let (fwd_choices, fwd_weight) = proposal.propose((&trace, proposal_args.clone()));

    let args = trace.args.clone();
    let (trace, discard, weight) = model.update(trace, args, ArgDiff::NoChange, fwd_choices);

    let bwd_weight = proposal.assess((&trace, proposal_args), discard);

    if accepts(log_u, weight, fwd_weight, bwd_weight) {
        (trace, true)
    } else {
        (prev_trace, false)
    }
}

/// Alias for `metropolis_hastings`.
pub fn mh<Args: Clone, Data: Clone, Ret: Clone, ProposalArgs: Clone, M, P>(
    model: &M,
    trace: Trace<Args, Data, Ret>,
    proposal: &P,
    proposal_args: ProposalArgs,
    log_u: i64,
) -> (out: (Trace<Args, Data, Ret>, bool)) where
    M: GenFn<Args, Data, Ret>,
    P: for <'a>GenFn<(&'a Trace<Args, Data, Ret>, ProposalArgs), Data, ()>,

    ensures
        mh_step(model, trace, proposal, proposal_args, log_u, out),
        trace.retv is Some ==> out.0.retv is Some,
{
    metropolis_hastings(model, trace, proposal, proposal_args, log_u)
}

/// What one regenerative step returns, in terms of what the model
/// returned during it.
///
/// Where the model failed to regenerate, the step fails in the same way.
/// Where it gave `moved` with its log weight, the step is accepted exactly
/// when `log_u` lies strictly below that weight. An accepted step returns
/// `moved`, a rejected step a copy of the trace it was given.
pub open spec fn regen_step<Args: Clone, Data: Clone, Ret: Clone, M>(
    model: &M,
    trace: Trace<Args, Data, Ret>,
    mask: &AddrMap,
    log_u: i64,
    out: Result<(Trace<Args, Data, Ret>, bool), GenError>,
) -> bool where M: GenFn<Args, Data, Ret> {
    exists|args: Args, regenerated: Result<(Trace<Args, Data, Ret>, i64), GenError>|
        {
            &&& cloned(trace.args, args)
            &&& #[trigger] M::regenerate.ensures(
                (model, trace, args, ArgDiff::NoChange, mask),
                regenerated,
            )
            &&& match regenerated {
                Ok((moved, weight)) => {
                    &&& out matches Ok(step)
                    &&& step.1 == accepts_spec(log_u as int, weight as int, 0, 0)
                    &&& step.1 ==> step.0 == moved
                    &&& !step.1 ==> step.0.is_copy_of(trace)
                },
                Err(e) => out == Err::<(Trace<Args, Data, Ret>, bool), GenError>(e),
            }
        }
}

/// One step of Metropolis-Hastings on `trace` under `model`, with the
/// model itself proposing new values for the choices that `mask` selects.
/// `log_u` is the logarithm of a uniform draw from the unit interval, in
/// the unit of the log weights. The weight that the model returns holds
/// the densities of the move in both directions already, so it is the log
/// acceptance ratio by itself.
pub fn regenerative_metropolis_hastings<Args: Clone, Data: Clone, Ret: Clone, M>(
    model: &M,
    trace: Trace<Args, Data, Ret>,
    mask: &AddrMap,
    log_u: i64,
) -> (out: Result<(Trace<Args, Data, Ret>, bool), GenError>) where M: GenFn<Args, Data, Ret>
    ensures
        regen_step(model, trace, mask, log_u, out),
        trace.retv is Some ==> (out matches Ok(step) ==> step.0.retv is Some),
{
    let prev_trace = trace.clone();
    let args = trace.args.clone();
    match model.regenerate(trace, args, ArgDiff::NoChange, mask) {
        Ok((trace, weight)) => {
            if accepts(log_u, weight, 0, 0) {
                Ok((trace, true))
            } else {
                Ok((prev_trace, false))
            }
        },
        Err(e) => Err(e),
    }
}

/// Alias for `regenerative_metropolis_hastings`.
pub fn regen_mh<Args: Clone, Data: Clone, Ret: Clone, M>(
    model: &M,
    trace: Trace<Args, Data, Ret>,
    mask: &AddrMap,
    log_u: i64,
) -> (out: Result<(Trace<Args, Data, Ret>, bool), GenError>) where M: GenFn<Args, Data, Ret>
    ensures
        regen_step(model, trace, mask, log_u, out),
        trace.retv is Some ==> (out matches Ok(step) ==> step.0.retv is Some),
{
    regenerative_metropolis_hastings(model, trace, mask, log_u)
}

} // verus!
