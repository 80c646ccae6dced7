//! Distributions as objects: shapes, refusals, transforms and divergences.

use mamba3::autograd::graph::{ParamId, Session};
use mamba3::autograd::reduce::reduce_grad_to;
use mamba3::autograd::var::Var;
use mamba3::distributions::base::{Distribution, Param, Support};
use mamba3::distributions::categorical::Categorical;
use mamba3::distributions::combinator::{
    AffineTransform, ExpTransform, Independent, MixtureSameFamily, PowerTransform,
    SigmoidTransform, Step, TanhTransform, Transform, TransformedDistribution,
};
use mamba3::distributions::launches::param_row_of;
use mamba3::distributions::kl::{broadcast_shape, categorical, dirichlet, kl_divergence};
use mamba3::distributions::multivariate::{kl_multivariate_normal, MultivariateNormal};
use mamba3::distributions::scalar::Univariate;
use mamba3::distributions::simplex::{
    gumbel_noise, Dirichlet, Multinomial, OneHotCategorical, RelaxedOneHotCategorical,
};
use mamba3::distributions::univariate::{
    bound_stride, draw_plan, param_index, unit_elements, Kind,
};
use mamba3::error::Error;
use mamba3::shape::Shape;
use mamba3::tensor::{IdTensor, Tensor};
use mamba3::term::{Binary, Fused, Scalar, Special, Term, Unary};

fn held(handle: u64, dims: Vec<usize>) -> Var {
    Var::constant(Tensor::resident(handle, Shape::new(dims)))
}

fn value(handle: u64, dims: Vec<usize>) -> Param {
    Param::Value(held(handle, dims))
}

fn digamma(x: f64) -> f64 {
    let mut x = x;
    let mut shift = 0.0;
    while x < 12.0 {
        shift -= 1.0 / x;
        x += 1.0;
    }
    let i2 = 1.0 / (x * x);
    shift + x.ln() - 0.5 / x - i2 * (1.0 / 12.0 - i2 * (1.0 / 120.0 - i2 / 252.0))
}

fn lgamma(x: f64) -> f64 {
    let mut x = x;
    let mut shift = 0.0;
    while x < 12.0 {
        shift -= x.ln();
        x += 1.0;
    }
    let i = 1.0 / x;
    let i2 = i * i;
    shift + (x - 0.5) * x.ln() - x
        + 0.5 * (2.0 * std::f64::consts::PI).ln()
        + i * (1.0 / 12.0 - i2 * (1.0 / 360.0 - i2 * (1.0 / 1260.0 - i2 / 1680.0)))
}

fn scalar(s: Scalar) -> f64 {
    match s {
        Scalar::Int(n) => n as f64,
        Scalar::Frac(n, d) => n as f64 / d as f64,
        Scalar::Bits(b) => f32::from_bits(b) as f64,
        Scalar::BitsLessOne(b) => f32::from_bits(b) as f64 - 1.0,
        Scalar::BitsInverse(b) => 1.0 / f32::from_bits(b) as f64,
        Scalar::BitsLnAbs(b) => (f32::from_bits(b) as f64).abs().ln(),
        Scalar::EulerGamma => -digamma(1.0),
        Scalar::LnTwo => 2.0f64.ln(),
        Scalar::MinusOneLessEulerGamma => -1.0 + digamma(1.0),
        Scalar::Pi => std::f64::consts::PI,
        Scalar::HalfOverflow => 1e38,
        other => panic!("no value for {:?}", other),
    }
}

fn softplus(x: f64) -> f64 {
    x.max(0.0) + (-x.abs()).exp().ln_1p()
}

/// A term of single elements, each input looked up in a table.
fn eval(t: &Term, table: &[f64]) -> f64 {
    match t {
        Term::Input(h) => table[*h as usize],
        Term::Fill(s, _) => scalar(*s),
        Term::Reshape(_, a) | Term::Expand(_, a) | Term::SumAll(a) | Term::Reduce(_, _, a) => {
            eval(a, table)
        }
        Term::Unary(op, a) => {
            let x = eval(a, table);
            match op {
                Unary::Neg => -x,
                Unary::Exp => x.exp(),
                Unary::Log => x.ln(),
                Unary::Sqrt => x.sqrt(),
                Unary::Recip => 1.0 / x,
                Unary::Abs => x.abs(),
                Unary::Tanh => x.tanh(),
                Unary::Sigmoid => 1.0 / (1.0 + (-x).exp()),
                Unary::Softplus => softplus(x),
                Unary::Relu => x.max(0.0),
                Unary::AddScalar(s) => x + scalar(*s),
                Unary::MulScalar(s) => x * scalar(*s),
                Unary::RsubScalar(s) => scalar(*s) - x,
                Unary::PowfScalar(s) => x.powf(scalar(*s)),
                Unary::GtScalar(s) => f64::from(u8::from(x > scalar(*s))),
                Unary::LtScalar(s) => f64::from(u8::from(x < scalar(*s))),
                Unary::Special(Special::Lgamma) => lgamma(x),
                Unary::Special(Special::Digamma) => digamma(x),
                Unary::Special(Special::Log1p) => x.ln_1p(),
                Unary::Special(Special::LogSigmoid) => -softplus(-x),
                other => panic!("no value for {:?}", other),
            }
        }
        Term::Binary(op, a, b) => {
            let (x, y) = (eval(a, table), eval(b, table));
            match op {
                Binary::Add => x + y,
                Binary::Sub => x - y,
                Binary::Mul => x * y,
                Binary::Div => x / y,
                Binary::Maximum => x.max(y),
                Binary::Greater => f64::from(u8::from(x > y)),
                Binary::Gated => {
                    if x == 0.0 {
                        0.0
                    } else {
                        y
                    }
                }
                other => panic!("no value for {:?}", other),
            }
        }
        _ => panic!("no value"),
    }
}

fn normal(s: &mut Session, dims: Vec<usize>) -> Univariate {
    Univariate::normal(s, value(0, dims.clone()), value(1, dims)).unwrap()
}

#[test]
fn parameters_broadcast_to_a_batch() {
    let mut s = Session::new();
    let d = Univariate::normal(&mut s, value(0, vec![4, 1]), value(1, vec![3])).unwrap();
    assert_eq!(d.batch_shape().dims(), &vec![4, 3]);
    assert!(d.event_shape().dims().is_empty());
    assert_eq!(d.batch_len(), Some(12));
    assert_eq!(d.sample(&mut s, 5).unwrap().dims(), &vec![4, 3]);
    assert_eq!(d.sample_n(&mut s, 6, 5).unwrap().dims(), &vec![6, 4, 3]);
    assert_eq!(d.rsample(&mut s, 5).unwrap().dims(), &vec![4, 3]);
    assert_eq!(d.log_prob(&mut s, &held(2, vec![2, 4, 3])).unwrap().dims(), &vec![2, 4, 3]);
    assert_eq!(d.entropy(&mut s).unwrap().dims(), &vec![4, 3]);
    assert_eq!(d.mean(&mut s).unwrap().dims(), &vec![4, 3]);
    assert_eq!(d.stddev(&mut s).unwrap().dims(), &vec![4, 3]);
    assert_eq!(d.support(), Support::Real);
    assert!(matches!(d.log_prob(&mut s, &held(2, vec![3])), Err(Error::Shape(_))));
    assert!(matches!(
        Univariate::normal(&mut s, value(0, vec![4]), value(1, vec![3])),
        Err(Error::Shape(_))
    ));
    assert!(matches!(
        Univariate::new(&mut s, Kind::Normal, vec![value(0, vec![4])]),
        Err(Error::Config(_))
    ));
}

#[test]
fn scalar_parameters_leave_the_batch_alone() {
    let mut s = Session::new();
    let d = Univariate::exponential(&mut s, Param::Scalar(Scalar::Int(2))).unwrap();
    assert!(d.batch_shape().dims().is_empty());
    assert_eq!(d.kind(), Kind::Exponential);
    let d = Univariate::standard_normal(&mut s, Shape::new(vec![2, 5])).unwrap();
    assert_eq!(d.batch_shape().dims(), &vec![2, 5]);
}

#[test]
fn families_refuse_what_has_no_closed_form() {
    let mut s = Session::new();
    let d = Univariate::gamma(&mut s, value(0, vec![2]), value(1, vec![2])).unwrap();
    assert!(!d.has_rsample());
    let e = d.rsample(&mut s, 1).err().unwrap();
    assert!(e.message().starts_with("unsupported: Gamma has no path derivative"));
    let e = d.icdf(&mut s, &held(2, vec![2])).err().unwrap();
    assert!(matches!(e, Error::Unsupported(_)));
    let d = Univariate::beta(&mut s, value(0, vec![2]), value(1, vec![2])).unwrap();
    let e = d.cdf(&Tensor::resident(2, Shape::new(vec![2]))).err().unwrap();
    assert_eq!(e.message(), "unsupported: Beta has no closed-form CDF");
    let d = Univariate::poisson(&mut s, value(0, vec![2])).unwrap();
    assert!(matches!(d.entropy(&mut s), Err(Error::Unsupported(_))));
}

#[test]
fn a_score_flows_to_every_parameter() {
    let mut s = Session::new();
    let loc = Var::traced(&mut s, Tensor::resident(0, Shape::new(vec![3])));
    let scale = Var::traced(&mut s, Tensor::resident(1, Shape::new(vec![1])));
    let x = Var::traced(&mut s, Tensor::resident(2, Shape::new(vec![2, 3])));
    let d =
        Univariate::normal(&mut s, Param::Value(loc.clone()), Param::Value(scale.clone())).unwrap();
    let loss = d.log_prob(&mut s, &x).unwrap().sum(&mut s);
    let grads = loss.backward_retain(&s).unwrap();
    for v in [&loc, &scale, &x] {
        assert_eq!(grads.node(v.node().unwrap()).unwrap().dims(), v.dims());
    }
}

#[test]
fn lanes_are_drawn_four_at_a_time() {
    assert_eq!(draw_plan(Kind::Normal, 0, 10), (3, true));
    assert_eq!(draw_plan(Kind::Gamma, 0, 10).1, false);
    assert_eq!(unit_elements(2, 4, 10), (8, 10));
    assert_eq!(bound_stride(1, 6), 0);
    assert_eq!(param_index(7, &vec![4, 3], &vec![3]), 1);
    assert_eq!(param_index(7, &vec![4, 3], &vec![1]), 0);
}

#[test]
fn a_categorical_is_over_its_last_axis() {
    let mut s = Session::new();
    let c = Categorical::from_logits(held(0, vec![4, 5])).unwrap();
    assert_eq!(c.classes(), 5);
    assert_eq!(c.batch().dims(), &vec![4]);
    assert_eq!(c.probs().dims(), &vec![4, 5]);
    assert_eq!(c.sample_ids(3).shape().dims(), &vec![4]);
    assert_eq!(c.sample_ids_n(7, 3).shape().dims(), &vec![7, 4]);
    assert_eq!(c.mode_ids().shape().dims(), &vec![4]);
    let ids = IdTensor::resident(9, Shape::new(vec![4]));
    assert_eq!(c.log_prob_ids(&mut s, &ids).unwrap().dims(), &vec![4]);
    assert_eq!(c.one_hot(&ids).dims(), &vec![4, 5]);
    let wrong = IdTensor::resident(9, Shape::new(vec![3]));
    assert!(matches!(c.log_prob_ids(&mut s, &wrong), Err(Error::Shape(_))));
    assert!(matches!(c.mean(&mut s), Err(Error::Unsupported(_))));
    assert!(matches!(Categorical::from_logits(held(0, vec![])), Err(Error::Shape(_))));
    assert!(matches!(Categorical::from_logits(held(0, vec![4, 0])), Err(Error::Shape(_))));
    let p = Categorical::from_probs(&mut s, &held(1, vec![5])).unwrap();
    assert!(p.batch().dims().is_empty());
    let e = c.sample_with_log_prob((-1.0f32).to_bits(), 3).err().unwrap();
    assert!(matches!(e, Error::Config(_)));
    let (ids, score) = c.sample_with_log_prob(1.0f32.to_bits(), 3).unwrap();
    assert_eq!((ids.shape().dims(), score.dims()), (&vec![4], &vec![4]));
}

#[test]
fn independence_moves_axes_to_the_event() {
    let mut s = Session::new();
    let base = normal(&mut s, vec![2, 3, 4]);
    let d = Independent::new(base, 2).unwrap();
    assert_eq!(d.batch_shape().dims(), &vec![2]);
    assert_eq!(d.event_shape().dims(), &vec![3, 4]);
    assert_eq!(d.log_prob(&mut s, &held(2, vec![2, 3, 4])).unwrap().dims(), &vec![2]);
    assert_eq!(d.entropy(&mut s).unwrap().dims(), &vec![2]);
    let base = normal(&mut s, vec![2]);
    assert!(matches!(Independent::new(base, 2), Err(Error::Shape(_))));
}

fn inverts<T: Transform>(t: &T, x: f64) {
    let mut s = Session::new();
    let v = held(0, vec![1]);
    let y = t.forward(&mut s, &v).unwrap();
    let back = t.inverse(&mut s, &y).unwrap();
    let table = [x, 0.5, -1.5];
    assert!((eval(back.tensor().term(), &table) - x).abs() < 1e-9);
    let jac = t.log_abs_det_jacobian(&mut s, &v, &y).unwrap();
    let h = 1e-6;
    let at = |x: f64| eval(y.tensor().term(), &[x, 0.5, -1.5]);
    let slope = (at(x + h) - at(x - h)) / (2.0 * h);
    assert!((eval(jac.tensor().term(), &table) - slope.abs().ln()).abs() < 1e-6);
}

#[test]
fn transforms_invert_and_know_their_slope() {
    inverts(&ExpTransform, 0.7);
    inverts(&SigmoidTransform, 0.7);
    inverts(&TanhTransform, 0.7);
    inverts(&PowerTransform { exponent: 2.5f32.to_bits() }, 0.7);
    inverts(&AffineTransform::new(held(1, vec![1]), held(2, vec![1])), 0.7);
}

#[test]
fn a_chain_of_transforms_runs_forward() {
    let mut s = Session::new();
    let base = normal(&mut s, vec![1]);
    let steps = vec![
        Step::Affine(AffineTransform::new(held(2, vec![1]), held(3, vec![1]))),
        Step::Exp(ExpTransform),
    ];
    let d = TransformedDistribution::new(base, steps);
    let y = d.forward(&mut s, &held(4, vec![1])).unwrap();
    let table = [0.0, 1.0, 0.5, 2.0, 0.25];
    assert!((eval(y.tensor().term(), &table) - 1.0f64.exp()).abs() < 1e-12);
    assert_eq!(d.log_prob(&mut s, &held(4, vec![1])).unwrap().dims(), &vec![1]);
    assert_eq!(d.sample(&mut s, 1).unwrap().dims(), &vec![1]);
    assert!(matches!(d.mean(&mut s), Err(Error::Unsupported(_))));
}

#[test]
fn a_mixture_needs_a_component_axis() {
    let mut s = Session::new();
    let c = Categorical::from_logits(held(0, vec![4, 3])).unwrap();
    let base = normal(&mut s, vec![4, 3]);
    let d = MixtureSameFamily::new(c, base).unwrap();
    assert_eq!(d.batch_shape().dims(), &vec![4]);
    assert_eq!(d.log_prob(&mut s, &held(2, vec![4])).unwrap().dims(), &vec![4]);
    assert_eq!(d.sample(&mut s, 1).unwrap().dims(), &vec![4]);
    assert_eq!(d.mean(&mut s).unwrap().dims(), &vec![4]);
    assert_eq!(d.variance(&mut s).unwrap().dims(), &vec![4]);
    let c = Categorical::from_logits(held(0, vec![4, 3])).unwrap();
    let base = normal(&mut s, vec![4, 2]);
    assert!(matches!(MixtureSameFamily::new(c, base), Err(Error::Shape(_))));
}

#[test]
fn a_multivariate_normal_has_one_event_axis() {
    let mut s = Session::new();
    let d = MultivariateNormal::from_scale_tril(held(0, vec![2, 3]), held(1, vec![2, 3, 3])).unwrap();
    assert_eq!(d.dim(), 3);
    assert_eq!(d.batch_shape().dims(), &vec![2]);
    assert_eq!(d.event_shape().dims(), &vec![3]);
    assert_eq!(d.rsample(&mut s, 1).unwrap().dims(), &vec![2, 3]);
    assert_eq!(d.rsample_n(&mut s, 1, 1).unwrap().dims(), &vec![1, 2, 3]);
    assert_eq!(d.rsample_n(&mut s, 5, 1).unwrap().dims(), &vec![5, 2, 3]);
    assert_eq!(d.log_prob(&mut s, &held(2, vec![2, 3])).unwrap().dims(), &vec![2]);
    assert_eq!(d.entropy(&mut s).unwrap().dims(), &vec![2]);
    assert_eq!(kl_multivariate_normal(&d, &d).unwrap().dims(), &vec![2]);
    assert!(matches!(
        MultivariateNormal::from_scale_tril(held(0, vec![2, 3]), held(1, vec![2, 2, 3])),
        Err(Error::Shape(_))
    ));
    let cov = Tensor::resident(3, Shape::new(vec![2, 3, 3]));
    assert!(MultivariateNormal::from_covariance(held(0, vec![2, 3]), &cov).is_ok());
    let scale = Tensor::resident(3, Shape::new(vec![2, 3]));
    assert!(MultivariateNormal::diagonal(held(0, vec![2, 3]), &scale).is_ok());
}

#[test]
fn simplex_families_end_in_their_classes() {
    let mut s = Session::new();
    let d = Dirichlet::new(held(0, vec![2, 3])).unwrap();
    assert_eq!((d.classes(), d.support()), (3, Support::Simplex));
    assert_eq!(d.sample(&mut s, 1).unwrap().dims(), &vec![2, 3]);
    assert_eq!(d.log_prob(&mut s, &held(2, vec![2, 3])).unwrap().dims(), &vec![2]);
    assert_eq!(d.mean(&mut s).unwrap().dims(), &vec![2, 3]);
    assert!(matches!(d.log_prob(&mut s, &held(2, vec![2, 4])), Err(Error::Shape(_))));
    let o = OneHotCategorical::from_logits(held(0, vec![2, 3])).unwrap();
    assert_eq!(o.sample_one_hot(4).dims(), &vec![2, 3]);
    assert_eq!(o.sample_straight_through(&mut s, 4).unwrap().dims(), &vec![2, 3]);
    let t = 0.5f32.to_bits();
    let r = RelaxedOneHotCategorical::new(t, held(0, vec![2, 3])).unwrap();
    assert_eq!(r.temperature(), t);
    assert_eq!(r.rsample(&mut s, 4).unwrap().dims(), &vec![2, 3]);
    assert!(matches!(
        RelaxedOneHotCategorical::new(0.0f32.to_bits(), held(0, vec![2, 3])),
        Err(Error::Config(_))
    ));
    let m = Multinomial::from_logits(6, held(0, vec![2, 3])).unwrap();
    assert_eq!(m.total_count(), 6);
    assert_eq!(m.sample(&mut s, 4).unwrap().dims(), &vec![2, 3]);
    let noise = gumbel_noise(Shape::new(vec![2, 3]), 8);
    assert!(matches!(**noise.term(), Term::Fused(Fused::GumbelNoise(8), _, _)));
}

/// The divergence of two members of a family whose parameters are single numbers.
fn divergence(kind: Kind, p: &[f64], q: &[f64]) -> f64 {
    let mut s = Session::new();
    let n = p.len() as u64;
    let build = |s: &mut Session, from: u64| {
        let list = (0..n).map(|i| value(from + i, vec![1])).collect();
        Univariate::new(s, kind, list).unwrap()
    };
    let a = build(&mut s, 0);
    let b = build(&mut s, n);
    let d = kl_divergence(&mut s, &a, &b).unwrap();
    eval(d.tensor().term(), &[p, q].concat())
}

#[test]
fn divergences_have_their_closed_forms() {
    let near = |a: f64, b: f64| assert!((a - b).abs() < 1e-9, "{} and {}", a, b);
    near(
        divergence(Kind::Normal, &[1.0, 2.0], &[0.5, 3.0]),
        (1.5f64).ln() + (4.0 + 0.25) / 18.0 - 0.5,
    );
    near(divergence(Kind::Exponential, &[2.0], &[3.0]), (2.0f64 / 3.0).ln() + 1.5 - 1.0);
    near(divergence(Kind::Poisson, &[2.0], &[3.0]), 2.0 * (2.0f64 / 3.0).ln() + 1.0);
    near(divergence(Kind::Uniform, &[1.0, 2.0], &[0.0, 4.0]), 4.0f64.ln());
    near(
        divergence(Kind::Gamma, &[2.0, 3.0], &[1.5, 2.0]),
        0.5 * digamma(2.0) - lgamma(2.0) + lgamma(1.5) + 1.5 * 1.5f64.ln() + 2.0 * (2.0 - 3.0) / 3.0,
    );
    let (a, b) = (0.4f64, -0.7f64);
    let (p, q) = (1.0 / (1.0 + (-a).exp()), 1.0 / (1.0 + (-b).exp()));
    near(
        divergence(Kind::Bernoulli, &[a], &[b]),
        p * (p / q).ln() + (1.0 - p) * ((1.0 - p) / (1.0 - q)).ln(),
    );
}

#[test]
fn nothing_diverges_from_itself() {
    for (kind, p) in [
        (Kind::Normal, vec![1.0, 2.0]),
        (Kind::LogNormal, vec![1.0, 2.0]),
        (Kind::Laplace, vec![1.0, 2.0]),
        (Kind::Cauchy, vec![1.0, 2.0]),
        (Kind::Exponential, vec![2.0]),
        (Kind::Gamma, vec![2.0, 3.0]),
        (Kind::Beta, vec![2.0, 3.0]),
        (Kind::Uniform, vec![1.0, 2.0]),
        (Kind::Bernoulli, vec![0.3]),
        (Kind::Poisson, vec![2.0]),
    ] {
        let d = divergence(kind, &p, &p);
        assert!(d.abs() < 1e-9, "{:?}: {}", kind, d);
    }
}

#[test]
fn divergences_are_of_one_family() {
    let mut s = Session::new();
    let n = normal(&mut s, vec![3]);
    let e = Univariate::exponential(&mut s, value(0, vec![3])).unwrap();
    assert!(matches!(kl_divergence(&mut s, &n, &e), Err(Error::Unsupported(_))));
    let t = Univariate::student_t(&mut s, value(0, vec![1]), value(1, vec![1]), value(2, vec![1]));
    let t = t.unwrap();
    assert!(matches!(kl_divergence(&mut s, &t, &t), Err(Error::Unsupported(_))));
    let m = normal(&mut s, vec![4, 1]);
    assert_eq!(broadcast_shape(&n, &m).unwrap().dims(), &vec![4, 3]);
    let c = Categorical::from_logits(held(0, vec![4, 5])).unwrap();
    assert_eq!(categorical(&mut s, &c, &c).unwrap().dims(), &vec![4]);
    let d = Dirichlet::new(held(0, vec![2, 3])).unwrap();
    assert_eq!(dirichlet(&mut s, &d, &d).unwrap().dims(), &vec![2]);
}

#[test]
fn a_parameter_is_read_by_broadcasting() {
    // A value of two rows against a batch of two rows and one column: row by row.
    let read = |i| param_index(i, &vec![2, 2], &vec![2, 1]);
    assert_eq!((0..4).map(read).collect::<Vec<_>>(), vec![0, 0, 1, 1]);
    let read = |i| param_index(i, &vec![2, 2], &vec![1, 2]);
    assert_eq!((0..4).map(read).collect::<Vec<_>>(), vec![0, 1, 0, 1]);
    let read = |i| param_index(i, &vec![2, 2], &vec![1, 1, 1]);
    assert_eq!((0..4).map(read).collect::<Vec<_>>(), vec![0, 0, 0, 0]);
    assert_eq!(param_row_of(3, &vec![2, 2], &vec![2, 1]), 1);
    assert_eq!(param_row_of(3, &vec![4], &vec![2]), 1);
    let mut s = Session::new();
    let p = Univariate::normal(&mut s, value(0, vec![2, 1]), Param::Scalar(Scalar::Int(1))).unwrap();
    let v = p.log_prob(&mut s, &held(2, vec![2, 2])).unwrap();
    assert_eq!(v.dims(), &vec![2, 2]);
}

#[test]
fn a_divergence_has_the_shape_of_the_batches() {
    let mut s = Session::new();
    let one = |n| Param::Scalar(Scalar::Int(n));
    let p = Univariate::normal(&mut s, one(0), one(1)).unwrap();
    let q = Univariate::normal(&mut s, one(1), one(2)).unwrap();
    assert!(kl_divergence(&mut s, &p, &q).unwrap().dims().is_empty());
    let wide = Univariate::normal(&mut s, value(0, vec![4, 1]), one(2)).unwrap();
    assert_eq!(kl_divergence(&mut s, &p, &wide).unwrap().dims(), &vec![4, 1]);
    let long = Univariate::normal(&mut s, value(0, vec![3]), one(2)).unwrap();
    assert_eq!(kl_divergence(&mut s, &long, &wide).unwrap().dims(), &vec![4, 3]);
    let odd = Univariate::normal(&mut s, value(0, vec![1, 1, 1]), one(2)).unwrap();
    assert_eq!(kl_divergence(&mut s, &long, &odd).unwrap().dims(), &vec![3]);
}

/// Whether a term reads the factor through its lower triangle.
fn masked(t: &Term) -> bool {
    match t {
        Term::Reshape(_, a) | Term::Expand(_, a) | Term::Reduce(_, _, a) => masked(a),
        Term::Binary(Binary::Gated, m, l) => {
            matches!(**m, Term::Fused(Fused::Lower, _, _)) && matches!(**l, Term::Input(1))
        }
        Term::Binary(_, a, b) => masked(a) || masked(b),
        Term::Product(_, a, _) => masked(a),
        _ => false,
    }
}

#[test]
fn only_the_lower_triangle_of_a_factor_is_read() {
    let mut s = Session::new();
    let d = MultivariateNormal::from_scale_tril(held(0, vec![2]), held(1, vec![2, 2])).unwrap();
    let v = d.variance(&mut s).unwrap();
    assert_eq!(v.dims(), &vec![2]);
    assert!(masked(v.term()));
    let x = d.rsample(&mut s, 3).unwrap();
    assert!(masked(x.tensor().term()));
}

#[test]
fn divergences_are_not_negative() {
    for (kind, p, q) in [
        (Kind::Normal, vec![1.0, 2.0], vec![0.0, 3.0]),
        (Kind::Laplace, vec![1.0, 2.0], vec![0.0, 3.0]),
        (Kind::Cauchy, vec![1.0, 2.0], vec![0.0, 3.0]),
        (Kind::Exponential, vec![2.0], vec![0.5]),
        (Kind::Gamma, vec![2.0, 3.0], vec![4.0, 1.0]),
        (Kind::Beta, vec![2.0, 3.0], vec![0.5, 4.0]),
        (Kind::Bernoulli, vec![0.3], vec![-2.0]),
        (Kind::Poisson, vec![2.0], vec![7.0]),
    ] {
        assert!(divergence(kind, &p, &q) > 0.0, "{:?}", kind);
    }
}

#[test]
fn a_parameter_of_one_element_gets_its_gradient() {
    for dims in [vec![], vec![1], vec![1, 1]] {
        let mut s = Session::new();
        let leaf = |s: &mut Session, h| {
            Var::traced(s, Tensor::resident(h, Shape::new(dims.clone())))
        };
        let (loc, scale) = (leaf(&mut s, 0), leaf(&mut s, 1));
        let params = (Param::Value(loc.clone()), Param::Value(scale.clone()));
        let d = Univariate::normal(&mut s, params.0, params.1).unwrap();
        assert!(d.batch_shape().dims().is_empty());
        let entropy = d.entropy(&mut s).unwrap();
        let draw = d.rsample(&mut s, 7).unwrap();
        let score = d.log_prob(&mut s, &held(2, vec![3])).unwrap().sum(&mut s);
        let point = d.log_prob(&mut s, &held(3, vec![])).unwrap();
        for v in [&entropy, &draw, &score, &point] {
            let grads = v.backward_retain(&s).unwrap();
            for p in [&loc, &scale] {
                assert_eq!(grads.node(p.node().unwrap()).unwrap().dims(), &dims);
            }
        }
    }
}

#[test]
fn gradients_sum_down_to_their_target() {
    let sum = |from: Vec<usize>, to: Vec<usize>| {
        let g = Tensor::resident(0, Shape::new(from));
        reduce_grad_to(&g, &Shape::new(to)).map(|r| r.dims().clone())
    };
    assert_eq!(sum(vec![], vec![1]).unwrap(), vec![1]);
    assert_eq!(sum(vec![3], vec![1, 1]).unwrap(), vec![1, 1]);
    assert_eq!(sum(vec![3], vec![1, 3]).unwrap(), vec![1, 3]);
    assert_eq!(sum(vec![2, 3, 4], vec![3, 1]).unwrap(), vec![3, 1]);
    assert_eq!(sum(vec![0, 3], vec![1, 3]).unwrap(), vec![1, 3]);
    assert!(matches!(sum(vec![3], vec![2, 3]), Err(Error::Shape(_))));
}

#[test]
fn ids_are_ordered_as_their_numbers() {
    let mut s = Session::new();
    let a = ParamId::fresh(&mut s);
    let b = ParamId::fresh(&mut s);
    assert!(a < b && b > a && a != b);
    assert_eq!(a < b, a.raw() < b.raw());
    assert_eq!(a.cmp(&b), a.partial_cmp(&b).unwrap());
}
