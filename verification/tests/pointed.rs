use modppl::{importance_sampling, mh, regen_mh, AddrMap, ArgDiff, GenError, GenFn, Trace};
use rand::rngs::StdRng;
use rand::{Rng, SeedableRng};
use rand_distr::{Distribution, Normal};
use std::cell::RefCell;

// Log densities are computed in nats and handed to the library in units
// of 2^-30 nat.
const UNITS_PER_NAT: f64 = 1_073_741_824.0;

fn to_weight(nats: f64) -> i64 {
    (nats * UNITS_PER_NAT).round() as i64
}

fn from_weight(units: i64) -> f64 {
    units as f64 / UNITS_PER_NAT
}

#[derive(Debug, Clone, Copy, PartialEq)]
struct Point {
    x: f64,
    y: f64,
}

#[derive(Debug, Clone, Copy, PartialEq)]
struct Bounds {
    xmin: f64,
    xmax: f64,
    ymin: f64,
    ymax: f64,
}

const UNIT_SQUARE: Bounds = Bounds { xmin: -1., xmax: 1., ymin: -1., ymax: 1. };

// The latent point and the observed point, each present or absent.
type Choices = (Option<Point>, Option<Point>);

fn uniform_logpdf(p: &Point, b: &Bounds) -> f64 {
    if b.xmin <= p.x && p.x <= b.xmax && b.ymin <= p.y && p.y <= b.ymax {
        -((b.xmax - b.xmin) * (b.ymax - b.ymin)).ln()
    } else {
        f64::NEG_INFINITY
    }
}

fn normal_logpdf(x: f64, mean: f64, std: f64) -> f64 {
    let z = (x - mean) / std;
    -0.5 * (2. * std::f64::consts::PI).ln() - std.ln() - 0.5 * z * z
}

fn point_logpdf(p: &Point, mean: &Point, std: f64) -> f64 {
    normal_logpdf(p.x, mean.x, std) + normal_logpdf(p.y, mean.y, std)
}

fn normal_point(rng: &mut StdRng, mean: &Point, std: f64) -> Point {
    Point {
        x: Normal::new(mean.x, std).unwrap().sample(rng),
        y: Normal::new(mean.y, std).unwrap().sample(rng),
    }
}

fn uniform_point(rng: &mut StdRng, b: &Bounds) -> Point {
    Point { x: rng.gen_range(b.xmin..b.xmax), y: rng.gen_range(b.ymin..b.ymax) }
}

// latent ~ Uniform2D(bounds), obs.x ~ Normal(latent.x, obs_std),
// obs.y ~ Normal(latent.y, obs_std); returns the latent point.
struct PointedModel {
    obs_std: f64,
    rng: RefCell<StdRng>,
}

impl PointedModel {
    fn seeded(seed: u64) -> Self {
        PointedModel { obs_std: 0.25, rng: RefCell::new(StdRng::seed_from_u64(seed)) }
    }

    fn logjp(&self, latent: &Point, obs: &Point, bounds: &Bounds) -> f64 {
        uniform_logpdf(latent, bounds) + point_logpdf(obs, latent, self.obs_std)
    }
}

type PointedTrace = Trace<Bounds, Choices, Point>;

impl GenFn<Bounds, Choices, Point> for PointedModel {
    fn simulate(&self, bounds: Bounds) -> PointedTrace {
        let rng = &mut *self.rng.borrow_mut();
        let latent = uniform_point(rng, &bounds);
        let obs = normal_point(rng, &latent, self.obs_std);
        let logjp = self.logjp(&latent, &obs, &bounds);
        Trace::new(bounds, (Some(latent), Some(obs)), latent, to_weight(logjp))
    }

    fn generate(&self, bounds: Bounds, constraints: Choices) -> (PointedTrace, i64) {
        let rng = &mut *self.rng.borrow_mut();
        let mut weight = 0.;
        let latent = match constraints.0 {
            Some(latent) => {
                weight += uniform_logpdf(&latent, &bounds);
                latent
            }
            None => uniform_point(rng, &bounds),
        };
        let obs = match constraints.1 {
            Some(obs) => {
                weight += point_logpdf(&obs, &latent, self.obs_std);
                obs
            }
            None => normal_point(rng, &latent, self.obs_std),
        };
        let logjp = self.logjp(&latent, &obs, &bounds);
        (Trace::new(bounds, (Some(latent), Some(obs)), latent, to_weight(logjp)), to_weight(weight))
    }

    fn update(
        &self,
        trace: PointedTrace,
        bounds: Bounds,
        _: ArgDiff,
        constraints: Choices,
    ) -> (PointedTrace, Choices, i64) {
        let mut discard = (None, None);
        let mut latent = trace.data.0.unwrap();
        if let Some(forced) = constraints.0 {
            discard.0 = Some(latent);
            latent = forced;
        }
        let mut obs = trace.data.1.unwrap();
        if let Some(forced) = constraints.1 {
            discard.1 = Some(obs);
            obs = forced;
        }
        let logjp = to_weight(self.logjp(&latent, &obs, &bounds));
        let weight = logjp - trace.logjp;
        (Trace::new(bounds, (Some(latent), Some(obs)), latent, logjp), discard, weight)
    }

    fn regenerate(
        &self,
        trace: PointedTrace,
        bounds: Bounds,
        _: ArgDiff,
        mask: &AddrMap,
    ) -> Result<(PointedTrace, i64), GenError> {
        let rng = &mut *self.rng.borrow_mut();
        let old_latent = trace.data.0.unwrap();
        let old_obs = trace.data.1.unwrap();
        let latent =
            if mask.selects("latent") { uniform_point(rng, &bounds) } else { old_latent };
        let obs = if mask.selects("obs") {
            normal_point(rng, &latent, self.obs_std)
        } else {
            old_obs
        };
        // what is sampled anew is sampled from the prior, so of the joint
        // density only the part of the retained choices stays in the weight
        let weight = if mask.selects("obs") {
            0.
        } else {
            point_logpdf(&obs, &latent, self.obs_std)
                - point_logpdf(&old_obs, &old_latent, self.obs_std)
        };
        let logjp = self.logjp(&latent, &obs, &bounds);
        Ok((Trace::new(bounds, (Some(latent), Some(obs)), latent, to_weight(logjp)), to_weight(weight)))
    }
}

// latent' ~ Normal(latent, drift_std) in each coordinate, around the
// latent point of the trace that the proposal reads.
struct DriftProposal {
    drift_std: f64,
    rng: RefCell<StdRng>,
}

type DriftArgs<'a> = (&'a PointedTrace, ());

impl<'a> GenFn<DriftArgs<'a>, Choices, ()> for DriftProposal {
    fn simulate(&self, args: DriftArgs<'a>) -> Trace<DriftArgs<'a>, Choices, ()> {
        let rng = &mut *self.rng.borrow_mut();
        let center = args.0.data.0.unwrap();
        let latent = normal_point(rng, &center, self.drift_std);
        let logp = point_logpdf(&latent, &center, self.drift_std);
        Trace::new(args, (Some(latent), None), (), to_weight(logp))
    }

    fn generate(
        &self,
        args: DriftArgs<'a>,
        constraints: Choices,
    ) -> (Trace<DriftArgs<'a>, Choices, ()>, i64) {
        let center = args.0.data.0.unwrap();
        match constraints.0 {
            Some(latent) => {
                let logp = to_weight(point_logpdf(&latent, &center, self.drift_std));
                (Trace::new(args, (Some(latent), None), (), logp), logp)
            }
            None => (self.simulate(args), 0),
        }
    }

    fn update(
        &self,
        trace: Trace<DriftArgs<'a>, Choices, ()>,
        _: DriftArgs<'a>,
        _: ArgDiff,
        constraints: Choices,
    ) -> (Trace<DriftArgs<'a>, Choices, ()>, Choices, i64) {
        (trace, constraints, 0)
    }
}

const ORIGIN: Point = Point { x: 0., y: 0. };

#[test]
fn simulated_trace_scores_its_own_choices() {
    let model = PointedModel::seeded(1);
    for _ in 0..100 {
        let trace = model.simulate(UNIT_SQUARE);
        let latent = trace.data.0.unwrap();
        let obs = trace.data.1.unwrap();
        let expected = uniform_logpdf(&latent, &UNIT_SQUARE)
            + normal_logpdf(obs.x, latent.x, 0.25)
            + normal_logpdf(obs.y, latent.y, 0.25);
        assert!((from_weight(trace.logjp) - expected).abs() < 1e-8);
        assert_eq!(trace.retv, Some(latent));
        assert_eq!(trace.args, UNIT_SQUARE);
    }
}

#[test]
fn equal_seeds_give_equal_traces() {
    let one = PointedModel::seeded(42);
    let two = PointedModel::seeded(42);
    for _ in 0..10 {
        assert_eq!(one.simulate(UNIT_SQUARE), two.simulate(UNIT_SQUARE));
    }
    let other = PointedModel::seeded(43);
    assert_ne!(one.simulate(UNIT_SQUARE), other.simulate(UNIT_SQUARE));
}

#[test]
fn generate_with_all_choices_given_returns_the_joint_density() {
    let model = PointedModel::seeded(2);
    let latent = Point { x: 0.5, y: -0.25 };
    let obs = Point { x: 0.25, y: 0. };
    let (trace, weight) = model.generate(UNIT_SQUARE, (Some(latent), Some(obs)));
    let expected = uniform_logpdf(&latent, &UNIT_SQUARE)
        + normal_logpdf(obs.x, latent.x, 0.25)
        + normal_logpdf(obs.y, latent.y, 0.25);
    // -ln 4 + 2 * (-0.5 ln(2 pi) - ln 0.25) - 0.5 - 0.5
    assert!((expected - (-1.4515827052894549)).abs() < 1e-12);
    assert_eq!(weight, to_weight(expected));
    assert_eq!(trace.logjp, weight);
    assert_eq!(trace.data, (Some(latent), Some(obs)));
    assert_eq!(model.assess(UNIT_SQUARE, (Some(latent), Some(obs))), weight);
}

#[test]
fn test_importance_sampling() {
    let model = PointedModel::seeded(3);
    let num_samples = 100000;
    let (traces, weights) =
        importance_sampling(&model, UNIT_SQUARE, (None, Some(ORIGIN)), num_samples);
    assert_eq!(traces.len(), num_samples);
    assert_eq!(weights.len(), num_samples);
    for (trace, weight) in traces.iter().zip(&weights) {
        assert_eq!(trace.data.1, Some(ORIGIN));
        let latent = trace.data.0.unwrap();
        assert_eq!(*weight, to_weight(point_logpdf(&ORIGIN, &latent, 0.25)));
    }

    let log_weights: Vec<f64> = weights.iter().map(|w| from_weight(*w)).collect();
    let max = log_weights.iter().cloned().fold(f64::NEG_INFINITY, f64::max);
    let log_total = max + log_weights.iter().map(|w| (w - max).exp()).sum::<f64>().ln();
    let log_ml_estimate = log_total - (num_samples as f64).ln();
    // the marginal density of the observation at the origin is the mass
    // that the observation noise leaves inside the square, over its area
    assert!(log_ml_estimate.is_finite());
    assert!((log_ml_estimate - (-(4f64).ln())).abs() < 0.05);

    let probs: Vec<f64> = log_weights.iter().map(|w| (w - log_total).exp()).collect();
    assert!((probs.iter().sum::<f64>() - 1.).abs() < 1e-9);

    // resample a tenth as many traces, each with the probability of its weight
    let mut cumulative = Vec::with_capacity(num_samples);
    let mut total = 0.;
    for p in &probs {
        total += p;
        cumulative.push(total);
    }
    let mut rng = StdRng::seed_from_u64(9);
    let num_resampled = num_samples / 10;
    let (mut sum_x, mut sum_y) = (0., 0.);
    for _ in 0..num_resampled {
        let u = rng.gen_range(0f64..total);
        let index = cumulative.partition_point(|c| *c <= u).min(num_samples - 1);
        let latent = traces[index].data.0.unwrap();
        sum_x += latent.x;
        sum_y += latent.y;
    }
    assert!((sum_x / num_resampled as f64).abs() < 0.02);
    assert!((sum_y / num_resampled as f64).abs() < 0.02);
}

#[test]
fn test_metropolis_hastings() {
    let model = PointedModel::seeded(4);
    let proposal = DriftProposal { drift_std: 0.025, rng: RefCell::new(StdRng::seed_from_u64(5)) };
    let mut uniform = StdRng::seed_from_u64(6);
    let num_iters = 100000;

    let (mut trace, _) = model.generate(UNIT_SQUARE, (None, Some(ORIGIN)));
    let mut accepted_steps = 0;
    let (mut sum_x, mut sum_y, mut sum_xx, mut sum_yy) = (0., 0., 0., 0.);
    for _ in 0..num_iters {
        let log_u = to_weight(uniform.gen_range(0f64..1f64).ln());
        let (next, accepted) = mh(&model, trace, &proposal, (), log_u);
        trace = next;
        if accepted {
            accepted_steps += 1;
        }
        assert_eq!(trace.data.1, Some(ORIGIN));
        let latent = trace.data.0.unwrap();
        assert!(uniform_logpdf(&latent, &UNIT_SQUARE).is_finite());
        sum_x += latent.x;
        sum_y += latent.y;
        sum_xx += latent.x * latent.x;
        sum_yy += latent.y * latent.y;
    }
    let rate = accepted_steps as f64 / num_iters as f64;
    assert!(0.2 < rate && rate < 1.0);

    // the posterior of the latent point is, but for the edge of the
    // square, normal around the observation with the noise's deviation
    let n = num_iters as f64;
    let (mean_x, mean_y) = (sum_x / n, sum_y / n);
    assert!(mean_x.abs() < 0.1);
    assert!(mean_y.abs() < 0.1);
    let (var_x, var_y) = (sum_xx / n - mean_x * mean_x, sum_yy / n - mean_y * mean_y);
    assert!((var_x - 0.0625).abs() < 0.03);
    assert!((var_y - 0.0625).abs() < 0.03);
}

#[test]
fn regenerating_the_latent_point_leaves_the_observation() {
    let model = PointedModel::seeded(7);
    let mut uniform = StdRng::seed_from_u64(8);
    let mut mask = AddrMap::new();
    mask.observe("latent", true, 0).unwrap();

    let (mut trace, _) = model.generate(UNIT_SQUARE, (None, Some(ORIGIN)));
    let mut accepted_steps = 0;
    for _ in 0..2000 {
        let before = trace.clone();
        let log_u = to_weight(uniform.gen_range(0f64..1f64).ln());
        let (next, accepted) = regen_mh(&model, trace, &mask, log_u).unwrap();
        assert_eq!(next.data.1, before.data.1);
        if accepted {
            accepted_steps += 1;
            assert_ne!(next.data.0, before.data.0);
        } else {
            assert_eq!(next, before);
        }
        trace = next;
    }
    assert!(0 < accepted_steps && accepted_steps < 2000);
}
