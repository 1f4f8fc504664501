use modppl::{
    accepts, importance_sampling, metropolis_hastings, mh, regen_mh,
    regenerative_metropolis_hastings, AddrMap, ArgDiff, GenError, GenFn, Trace,
};

// A model with one choice `x`, whose log density at `x` under the
// argument `center` is `-(x - center)^2`.
struct Parabola;

fn parabola_logp(x: i64, center: i64) -> i64 {
    -(x - center) * (x - center)
}

impl GenFn<i64, i64, i64> for Parabola {
    fn simulate(&self, center: i64) -> Trace<i64, i64, i64> {
        Trace::new(center, center, center, 0)
    }

    fn generate(&self, center: i64, x: i64) -> (Trace<i64, i64, i64>, i64) {
        let logp = parabola_logp(x, center);
        (Trace::new(center, x, x, logp), logp)
    }

    fn update(
        &self,
        trace: Trace<i64, i64, i64>,
        center: i64,
        _: ArgDiff,
        x: i64,
    ) -> (Trace<i64, i64, i64>, i64, i64) {
        let logp = parabola_logp(x, center);
        let weight = logp - trace.logjp;
        (Trace::new(center, x, x, logp), trace.data, weight)
    }
}

// A proposal that moves `x` by a fixed step. Its log density of a move by
// `d` is `-3 * |d - step|`, so that the forward and the backward move have
// different densities.
struct Step;

type StepArgs<'a> = (&'a Trace<i64, i64, i64>, i64);

impl<'a> GenFn<StepArgs<'a>, i64, ()> for Step {
    fn simulate(&self, args: StepArgs<'a>) -> Trace<StepArgs<'a>, i64, ()> {
        let x = args.0.data + args.1;
        Trace::new(args, x, (), 0)
    }

    fn generate(&self, args: StepArgs<'a>, x: i64) -> (Trace<StepArgs<'a>, i64, ()>, i64) {
        let logq = -3 * (x - args.0.data - args.1).abs();
        (Trace::new(args, x, (), logq), logq)
    }

    fn update(
        &self,
        trace: Trace<StepArgs<'a>, i64, ()>,
        _: StepArgs<'a>,
        _: ArgDiff,
        x: i64,
    ) -> (Trace<StepArgs<'a>, i64, ()>, i64, i64) {
        (trace, x, 0)
    }
}

#[test]
fn acceptance_is_strict_comparison_with_the_ratio() {
    // ratio = 5 - (-1) + (-2) = 4
    assert!(accepts(3, 5, -1, -2));
    assert!(!accepts(4, 5, -1, -2));
    assert!(!accepts(5, 5, -1, -2));
    assert!(accepts(-1, 0, 0, 0));
    assert!(!accepts(0, 0, 0, 0));
}

#[test]
fn acceptance_ratio_does_not_overflow() {
    assert!(accepts(i64::MAX, i64::MAX, i64::MIN, i64::MAX));
    assert!(!accepts(i64::MIN, i64::MIN, i64::MAX, i64::MIN));
    assert!(!accepts(i64::MAX, i64::MAX, i64::MAX, i64::MIN));
    assert!(accepts(i64::MAX - 1, i64::MAX, 0, 0));
    assert!(!accepts(i64::MAX, i64::MAX, 0, 0));
}

#[test]
fn a_step_is_accepted_exactly_below_its_ratio() {
    // From x = 3 under center 0 (logjp -9), the proposal moves by -1 to
    // x = 2 (logjp -4): the model's weight is 5, the forward density 0,
    // the backward density of the move from 2 to 3 is -3 * |1 - (-1)| = -6.
    // The log acceptance ratio is 5 - 0 - 6 = -1.
    let (start, _) = Parabola.generate(0, 3);
    assert_eq!(start.logjp, -9);

    let (next, accepted) = metropolis_hastings(&Parabola, start.clone(), &Step, -1, -2);
    assert!(accepted);
    assert_eq!(next, Trace::new(0, 2, 2, -4));

    let (next, accepted) = metropolis_hastings(&Parabola, start.clone(), &Step, -1, -1);
    assert!(!accepted);
    assert_eq!(next, start);

    let (next, accepted) = mh(&Parabola, start.clone(), &Step, -1, -2);
    assert!(accepted);
    assert_eq!(next, Trace::new(0, 2, 2, -4));

    let (next, accepted) = mh(&Parabola, start.clone(), &Step, -1, 0);
    assert!(!accepted);
    assert_eq!(next, start);
}

#[test]
fn a_chain_of_steps_walks_to_the_mode() {
    let (mut trace, _) = Parabola.generate(0, 5);
    let mut moves = 0;
    for _ in 0..20 {
        let (next, accepted) = mh(&Parabola, trace, &Step, -1, -7);
        trace = next;
        if accepted {
            moves += 1;
        }
    }
    // Each step towards 0 has ratio (2x - 1) - 6 with x the current value:
    // 3, 1, -1, -3, -5 from 5 down to 1, and -7 from 0. At log_u = -7 the
    // five steps down to 0 are accepted and the step below 0 is not.
    assert_eq!(moves, 5);
    assert_eq!(trace, Trace::new(0, 0, 0, 0));
}

// A model with a latent and an observed choice. Regenerating the latent
// moves it one closer to the observation where the mask selects it.
struct Pair;

fn pair_logp(data: (i64, i64)) -> i64 {
    -(data.0 - data.1).abs()
}

impl GenFn<(), (i64, i64), ()> for Pair {
    fn simulate(&self, _: ()) -> Trace<(), (i64, i64), ()> {
        Trace::new((), (0, 0), (), 0)
    }

    fn generate(&self, _: (), data: (i64, i64)) -> (Trace<(), (i64, i64), ()>, i64) {
        (Trace::new((), data, (), pair_logp(data)), pair_logp(data))
    }

    fn update(
        &self,
        trace: Trace<(), (i64, i64), ()>,
        _: (),
        _: ArgDiff,
        data: (i64, i64),
    ) -> (Trace<(), (i64, i64), ()>, (i64, i64), i64) {
        let weight = pair_logp(data) - trace.logjp;
        (Trace::new((), data, (), pair_logp(data)), trace.data, weight)
    }

    fn regenerate(
        &self,
        trace: Trace<(), (i64, i64), ()>,
        _: (),
        _: ArgDiff,
        mask: &AddrMap,
    ) -> Result<(Trace<(), (i64, i64), ()>, i64), GenError> {
        if mask.selects("obs") {
            return Err(GenError::AddressMissing);
        }
        if mask.selects("nothing") {
            return Err(GenError::DistributionDomain);
        }
        let (latent, obs) = trace.data;
        let latent = if mask.selects("latent") { latent + (obs - latent).signum() } else { latent };
        let data = (latent, obs);
        let weight = pair_logp(data) - trace.logjp;
        Ok((Trace::new((), data, (), pair_logp(data)), weight))
    }
}

#[test]
fn regenerative_step_accepts_below_the_weight() {
    let mut mask = AddrMap::new();
    mask.observe("latent", true, 0).unwrap();
    let (start, _) = Pair.generate((), (2, 5));
    assert_eq!(start.logjp, -3);

    // the move to (3, 5) has weight -2 - (-3) = 1
    let out = regenerative_metropolis_hastings(&Pair, start.clone(), &mask, 0);
    assert_eq!(out, Ok((Trace::new((), (3, 5), (), -2), true)));
    let out = regenerative_metropolis_hastings(&Pair, start.clone(), &mask, 1);
    assert_eq!(out, Ok((start.clone(), false)));
    let out = regen_mh(&Pair, start.clone(), &mask, 0);
    assert_eq!(out, Ok((Trace::new((), (3, 5), (), -2), true)));
    let out = regen_mh(&Pair, start.clone(), &mask, 2);
    assert_eq!(out, Ok((start.clone(), false)));
}

#[test]
fn regenerating_the_latent_leaves_the_observation() {
    let mut mask = AddrMap::new();
    mask.observe("latent", true, 0).unwrap();
    let (mut trace, _) = Pair.generate((), (-4, 3));
    for log_u in [-5, 0, 3, -1, 1, -2, 0, -9, 7, -1, -1, -1] {
        let (next, _) = regen_mh(&Pair, trace, &mask, log_u).unwrap();
        assert_eq!(next.data.1, 3);
        trace = next;
    }
    assert_eq!(trace.data, (3, 3));
}

#[test]
fn regenerative_step_hands_on_the_failure_of_the_model() {
    let mask = AddrMap::new();
    let trace = Parabola.simulate(0);
    assert_eq!(regen_mh(&Parabola, trace.clone(), &mask, -1), Err(GenError::Unsupported));
    assert_eq!(
        regenerative_metropolis_hastings(&Parabola, trace, &mask, -1),
        Err(GenError::Unsupported)
    );

    let mut mask = AddrMap::new();
    mask.observe("obs", true, 0).unwrap();
    let trace = Pair.simulate(());
    assert_eq!(regen_mh(&Pair, trace, &mask, -1), Err(GenError::AddressMissing));

    let mut mask = AddrMap::new();
    mask.observe("nothing", true, 0).unwrap();
    let trace = Pair.simulate(());
    assert_eq!(regen_mh(&Pair, trace, &mask, -1), Err(GenError::DistributionDomain));
}

#[test]
fn importance_sampling_runs_generate_for_each_sample() {
    let (traces, weights) = importance_sampling(&Parabola, 1, 4, 10);
    assert_eq!(traces.len(), 10);
    assert_eq!(weights, vec![-9; 10]);
    for trace in &traces {
        assert_eq!(*trace, Trace::new(1, 4, 4, -9));
    }

    let (traces, weights) = importance_sampling(&Parabola, 1, 4, 0);
    assert!(traces.is_empty());
    assert!(weights.is_empty());
}
