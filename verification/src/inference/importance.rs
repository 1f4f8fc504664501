use vstd::prelude::*;
use crate::gfi::{GenFn, Trace};

verus! {

/// Whether `trace` with `weight` is what `model` may generate at a copy of
/// `args` under a copy of `constraints`.
pub open spec fn generated<Args: Clone, Data: Clone, Ret, M>(
    model: &M,
    args: Args,
    constraints: Data,
    trace: Trace<Args, Data, Ret>,
    weight: i64,
) -> bool where M: GenFn<Args, Data, Ret> {
    exists|at: Args, under: Data|
        {
            &&& cloned(args, at)
            &&& cloned(constraints, under)
            &&& #[trigger] M::generate.ensures((model, at, under), (trace, weight))
        }
}

/// The sampling part of importance sampling: `num_samples` executions of
/// `model` at `args` under `constraints`, each with its log importance
/// weight. The weights are not normalized.
pub fn importance_sampling<Args: Clone, Data: Clone, Ret, M>(
    model: &M,
    args: Args,
    constraints: Data,
    num_samples: usize,
) -> (out: (Vec<Trace<Args, Data, Ret>>, Vec<i64>)) where M: GenFn<Args, Data, Ret>
    ensures
        out.0.len() == num_samples,
        out.1.len() == num_samples,
        forall|i: int|
            0 <= i < num_samples ==> generated(
                model,
                args,
                constraints,
                #[trigger] out.0[i],
                out.1[i],
            ),
{
    let mut traces: Vec<Trace<Args, Data, Ret>> = Vec::new();
    let mut weights: Vec<i64> = Vec::new();
    let mut n: usize = 0;
    while n < num_samples
        invariant
            n <= num_samples,
            traces.len() == n,
            weights.len() == n,
            forall|i: int|
                0 <= i < n ==> generated(model, args, constraints, #[trigger] traces[i], weights[i]),
        decreases num_samples - n,
    {
        let (trace, weight) = model.generate(args.clone(), constraints.clone());
        traces.push(trace);
        weights.push(weight);
        n += 1;
    }
    (traces, weights)
}

} // verus!
