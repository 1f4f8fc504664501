use vstd::prelude::*;
use crate::error::GenError;
use crate::trie::AddrMap;

verus! {

/// How the arguments of a generative function changed between two
/// successive executions. The tag is advisory: it permits shortcuts and
/// never changes what an update computes.
#[derive(Debug, Clone, Copy, PartialEq, Eq)]
pub enum ArgDiff {
    /// The arguments are the same as before.
    NoChange,
    /// Nothing is known about how the arguments changed.
    Unknown,
    /// A sequence-valued argument grew at its end.
    Extend,
}

/// The record of one execution of a generative function.
#[derive(Debug, PartialEq)]
pub struct Trace<Args, Data, Ret> {
    /// The arguments the function was executed with.
    pub args: Args,
    /// The random choices made during the execution.
    pub data: Data,
    /// The value returned. Present in every trace that a generative
    /// function hands out.
    pub retv: Option<Ret>,
    /// The log joint density of `data` under the function at `args`.
    pub logjp: i64,
}

impl<Args, Data, Ret> Trace<Args, Data, Ret> {
    /// A trace whose return value is present.
    pub fn new(args: Args, data: Data, retv: Ret, logjp: i64) -> (trace: Self)
        ensures
            trace == (Trace { args, data, retv: Some(retv), logjp }),
    {
        Trace { args, data, retv: Some(retv), logjp }
    }

    /// Replaces the return value by `v`; nothing else changes.
    pub fn set_retv(&mut self, v: Ret)
        ensures
            final(self).retv == Some(v),
            final(self).args == old(self).args,
            final(self).data == old(self).data,
            final(self).logjp == old(self).logjp,
    {
        self.retv = Some(v);
    }

    /// Whether `self` is what cloning `source` field by field may give.
    pub open spec fn is_copy_of(self, source: Self) -> bool where
        Args: Clone,
        Data: Clone,
        Ret: Clone,
     {
        &&& cloned(source.args, self.args)
        &&& cloned(source.data, self.data)
        &&& source.retv is Some <==> self.retv is Some
        &&& source.retv is Some ==> cloned(source.retv->0, self.retv->0)
        &&& self.logjp == source.logjp
    }
}

impl<Args: Clone, Data: Clone, Ret: Clone> Clone for Trace<Args, Data, Ret> {
    fn clone(&self) -> (copy: Self)
        ensures
            copy.is_copy_of(*self),
    {
        Trace {
            args: self.args.clone(),
            data: self.data.clone(),
            retv: self.retv.clone(),
            logjp: self.logjp,
        }
    }
}

/// What a generative function offers to inference: a randomized procedure
/// that makes choices of type `Data` at arguments of type `Args` and
/// returns a `Ret`.
///
/// Inference targets the right distribution only where the log weights
/// are the ones described at each method. The contracts ask one thing of
/// every implementation: that each trace handed out holds its return
/// value. Of `assess` they ask also that it agrees with `generate`. The
/// methods with a body are derived from `simulate` and `generate`, which is
/// valid where the function samples each choice from its prior.
pub trait GenFn<Args, Data, Ret> {
    /// Executes the function at `args`, sampling every choice. The trace
    /// holds all choices made, and as `logjp` their log joint density.
    fn simulate(&self, args: Args) -> (trace: Trace<Args, Data, Ret>)
        ensures
            trace.retv is Some,
    ;

    /// Executes the function at `args` with the choices in `constraints`
    /// forced and the others sampled. Returns the trace, and as weight the
    /// log density of the forced choices less the log density with which
    /// the others were sampled given them. The trace holds as `logjp` the
    /// log joint density of all its choices.
    fn generate(&self, args: Args, constraints: Data) -> (out: (Trace<Args, Data, Ret>, i64))
        ensures
            out.0.retv is Some,
    ;

    /// Moves `trace` to `args` and `constraints`: the choices in
    /// `constraints` take the values given, the others stay where they are
    /// still made, and those newly needed are sampled. Returns the new
    /// trace, the former values of the choices that were overwritten or
    /// dropped, and the weight: the new `logjp` less the old, less the log
    /// density of what was sampled, plus that of what was discarded.
    fn update(
        &self,
        trace: Trace<Args, Data, Ret>,
        args: Args,
        diff: ArgDiff,
        constraints: Data,
    ) -> (out: (Trace<Args, Data, Ret>, Data, i64))
        ensures
            out.0.retv is Some,
    ;

    /// Samples anew the choices of `trace` that `mask` selects, at `args`,
    /// and keeps the others. Returns the new trace and the log weight of
    /// the move. A generative function that does not offer this fails
    /// with `Unsupported`.
    #[allow(unused_variables)]
    fn regenerate(
        &self,
        trace: Trace<Args, Data, Ret>,
        args: Args,
        diff: ArgDiff,
        mask: &AddrMap,
    ) -> (out: Result<(Trace<Args, Data, Ret>, i64), GenError>)
        ensures
            out matches Ok(moved) ==> moved.0.retv is Some,
        default_ensures
            out matches Err(GenError::Unsupported),
    {
        Err(GenError::Unsupported)
    }

    /// The value the function returns on one execution at `args`: here,
    /// the return value of one simulation.
    fn call(&self, args: Args) -> (retv: Ret)
        default_ensures
            exists|t: Trace<Args, Data, Ret>|
                Self::simulate.ensures((self, args), t) && t.retv == Some(retv),
    {
        let trace = self.simulate(args);
        trace.retv.unwrap()
    }

    /// Proposes choices at `args`, with their log density under the
    /// proposal: here, the choices and the `logjp` of one simulation.
    fn propose(&self, args: Args) -> (out: (Data, i64))
        default_ensures
            exists|t: Trace<Args, Data, Ret>|
                Self::simulate.ensures((self, args), t) && out == (t.data, t.logjp),
    {
        let trace = self.simulate(args);
        (trace.data, trace.logjp)
    }

    /// The log density of `constraints` at `args`, where `constraints`
    /// holds every choice that the function makes: a weight that `generate`
    /// returns on the same arguments.
    fn assess(&self, args: Args, constraints: Data) -> (weight: i64)
        ensures
            exists|t: Trace<Args, Data, Ret>|
                Self::generate.ensures((self, args, constraints), (t, weight)),
    {
        let (_, weight) = self.generate(args, constraints);
        weight
    }
}

} // verus!
