//! Values and gradients, evaluated on small arrays in double precision.

use std::collections::HashMap;
use std::sync::Arc;

use mamba3::autograd::grad_mode::{is_enabled, no_grad, with_no_grad};
use mamba3::autograd::graph::Session;
use mamba3::autograd::ops::{cat, embedding, sum_all_vars};
use mamba3::autograd::var::Var;
use mamba3::error::Error;
use mamba3::nn::quant::{QuantConfig, QuantScheme, Quantizer};
use mamba3::nn::store::Store;
use mamba3::shape::Shape;
use mamba3::tensor::{IdTensor, Tensor};
use mamba3::term::{Binary, Product, Reduce, Scalar, Scan, Term, Terms, Unary};

#[derive(Clone, Debug, PartialEq)]
struct Arr {
    dims: Vec<usize>,
    data: Vec<f64>,
}

struct World {
    inputs: HashMap<u64, Arr>,
    ids: HashMap<u64, Vec<usize>>,
}

fn arr(dims: &[usize], data: &[f64]) -> Arr {
    assert_eq!(dims.iter().product::<usize>(), data.len());
    Arr { dims: dims.to_vec(), data: data.to_vec() }
}

/// Every index of a shape, in row-major order.
fn indices(dims: &[usize]) -> Vec<Vec<usize>> {
    let mut out = vec![vec![]];
    for d in dims {
        let mut next = Vec::new();
        for i in &out {
            for k in 0..*d {
                let mut j = i.clone();
                j.push(k);
                next.push(j);
            }
        }
        out = next;
    }
    out
}

impl Arr {
    fn at(&self, index: &[usize]) -> f64 {
        let mut flat = 0;
        for (d, i) in self.dims.iter().zip(index) {
            flat = flat * d + i;
        }
        self.data[flat]
    }

    /// The element a broadcast index reads.
    fn stretched(&self, index: &[usize]) -> f64 {
        let skip = index.len() - self.dims.len();
        let own: Vec<usize> = self
            .dims
            .iter()
            .zip(&index[skip..])
            .map(|(d, i)| if *d == 1 { 0 } else { *i })
            .collect();
        self.at(&own)
    }

    fn build(dims: Vec<usize>, f: impl Fn(&[usize]) -> f64) -> Arr {
        let data = indices(&dims).iter().map(|i| f(i)).collect();
        Arr { dims, data }
    }
}

fn broadcast(a: &[usize], b: &[usize]) -> Vec<usize> {
    let n = a.len().max(b.len());
    let pad = |x: &[usize]| [vec![1; n - x.len()], x.to_vec()].concat();
    pad(a).iter().zip(pad(b)).map(|(x, y)| if *x == 1 { y } else { *x }).collect()
}

fn scalar(s: Scalar) -> f64 {
    match s {
        Scalar::Int(n) => n as f64,
        Scalar::Frac(n, d) => n as f64 / d as f64,
        Scalar::Bits(b) => f32::from_bits(b) as f64,
        Scalar::BitsLessOne(b) => f32::from_bits(b) as f64 - 1.0,
        Scalar::Count(n) => n as f64,
        Scalar::InvSqrt(n) => 1.0 / (n as f64).sqrt(),
        Scalar::TwoInvSqrtPi => 2.0 / std::f64::consts::PI.sqrt(),
        Scalar::Pi => std::f64::consts::PI,
        other => panic!("no value for {:?}", other),
    }
}

/// The error function, by its power series.
fn erf(x: f64) -> f64 {
    let mut term = x;
    let mut sum = x;
    for n in 1..60 {
        term *= -x * x / n as f64;
        sum += term / (2 * n + 1) as f64;
    }
    sum * 2.0 / std::f64::consts::PI.sqrt()
}

fn sigmoid(x: f64) -> f64 {
    1.0 / (1.0 + (-x).exp())
}

fn truth(b: bool) -> f64 {
    if b {
        1.0
    } else {
        0.0
    }
}

fn unary(op: Unary, x: f64) -> f64 {
    match op {
        Unary::Neg => -x,
        Unary::Exp => x.exp(),
        Unary::Log => x.ln(),
        Unary::Sqrt => x.sqrt(),
        Unary::Rsqrt => 1.0 / x.sqrt(),
        Unary::Recip => 1.0 / x,
        Unary::Abs => x.abs(),
        Unary::Sign => truth(x > 0.0) - truth(x < 0.0),
        Unary::Tanh => x.tanh(),
        Unary::Sigmoid => sigmoid(x),
        Unary::Sin => x.sin(),
        Unary::Cos => x.cos(),
        Unary::Erf => erf(x),
        Unary::Relu => x.max(0.0),
        Unary::Round => x.round(),
        Unary::Silu => x * sigmoid(x),
        Unary::Softplus => (1.0 + x.exp()).ln(),
        Unary::AddScalar(a) => x + scalar(a),
        Unary::MulScalar(a) => x * scalar(a),
        Unary::RsubScalar(a) => scalar(a) - x,
        Unary::PowfScalar(a) => x.powf(scalar(a)),
        Unary::Clamp(lo, hi) => x.max(scalar(lo)).min(scalar(hi)),
        Unary::GtScalar(a) => truth(x > scalar(a)),
        Unary::LtScalar(a) => truth(x < scalar(a)),
        Unary::EqScalar(a) => truth(x == scalar(a)),
        Unary::WrapTo(a) => x - scalar(a) * (x / scalar(a)).round(),
        Unary::Special(f) => panic!("no value for {:?}", f),
    }
}

fn binary(op: Binary, x: f64, y: f64) -> f64 {
    match op {
        Binary::Add => x + y,
        Binary::Sub => x - y,
        Binary::Mul => x * y,
        Binary::Div => x / y,
        Binary::Maximum => x.max(y),
        Binary::Greater => truth(x > y),
        Binary::Gated => {
            if x == 0.0 {
                0.0
            } else {
                y
            }
        }
        Binary::SiluBackward => x * (sigmoid(y) + y * sigmoid(y) * (1.0 - sigmoid(y))),
        Binary::SoftplusBackward => x * sigmoid(y),
    }
}

fn listed(ts: &Terms) -> Vec<Arc<Term>> {
    match ts {
        Terms::Nil => vec![],
        Terms::Cons(t, rest) => {
            let mut out = vec![t.clone()];
            out.extend(listed(rest));
            out
        }
    }
}

fn id_list(t: &Term, w: &World) -> Vec<usize> {
    match t {
        Term::Ids(h) => w.ids[h].clone(),
        _ => panic!("not ids"),
    }
}

/// `index` with the entry of one axis replaced.
fn with(index: &[usize], axis: usize, k: usize) -> Vec<usize> {
    let mut out = index.to_vec();
    out[axis] = k;
    out
}

fn eval(t: &Term, w: &World) -> Arr {
    match t {
        Term::Input(h) => w.inputs[h].clone(),
        Term::Fill(s, d) => Arr::build(d.to_vec(), |_| scalar(*s)),
        Term::Unary(op, a) => {
            let a = eval(a, w);
            Arr { data: a.data.iter().map(|x| unary(*op, *x)).collect(), dims: a.dims }
        }
        Term::Binary(op, a, b) => {
            let (a, b) = (eval(a, w), eval(b, w));
            Arr::build(broadcast(&a.dims, &b.dims), |i| {
                binary(*op, a.stretched(i), b.stretched(i))
            })
        }
        Term::Product(op, a, b) => {
            let (a, b) = (eval(a, w), eval(b, w));
            let (n, m) = (a.dims.len(), b.dims.len());
            let (rows, inner) = match op {
                Product::LeftTransposed => (a.dims[n - 1], a.dims[n - 2]),
                _ => (a.dims[n - 2], a.dims[n - 1]),
            };
            let cols = match op {
                Product::RightTransposed => b.dims[m - 2],
                _ => b.dims[m - 1],
            };
            let mut dims = broadcast(&a.dims[..n - 2], &b.dims[..m - 2]);
            let batch = dims.len();
            dims.extend([rows, cols]);
            Arr::build(dims, |i| {
                let mut sum = 0.0;
                for k in 0..inner {
                    let left = match op {
                        Product::LeftTransposed => [k, i[batch]],
                        _ => [i[batch], k],
                    };
                    let right = match op {
                        Product::RightTransposed => [i[batch + 1], k],
                        _ => [k, i[batch + 1]],
                    };
                    sum += a.stretched(&[&i[..batch], &left[..]].concat())
                        * b.stretched(&[&i[..batch], &right[..]].concat());
                }
                sum
            })
        }
        Term::Reduce(op, axis, a) => {
            let a = eval(a, w);
            let n = a.dims[*axis];
            let dims = with(&a.dims, *axis, 1);
            Arr::build(dims, |i| {
                let line: Vec<f64> = (0..n).map(|k| a.at(&with(i, *axis, k))).collect();
                let sum: f64 = line.iter().sum();
                match op {
                    Reduce::Sum => sum,
                    Reduce::Mean => sum / n as f64,
                    Reduce::Max => line.iter().cloned().fold(f64::NEG_INFINITY, f64::max),
                    Reduce::Min => line.iter().cloned().fold(f64::INFINITY, f64::min),
                }
            })
        }
        Term::SumAll(a) => Arr { dims: vec![], data: vec![eval(a, w).data.iter().sum()] },
        Term::Scan(op, axis, a) => {
            let a = eval(a, w);
            let n = a.dims[*axis];
            Arr::build(a.dims.clone(), |i| {
                let k = i[*axis];
                let range = match op {
                    Scan::Inclusive => 0..k + 1,
                    Scan::Exclusive => 0..k,
                    Scan::Reverse => k..n,
                    Scan::ReverseExclusive => k + 1..n,
                };
                range.map(|k| a.at(&with(i, *axis, k))).sum()
            })
        }
        Term::Reshape(d, a) => Arr { dims: d.to_vec(), data: eval(a, w).data },
        Term::Expand(d, a) => {
            let a = eval(a, w);
            Arr::build(d.to_vec(), |i| a.stretched(i))
        }
        Term::Permute(order, a) => {
            let (order, a) = (order.to_vec(), eval(a, w));
            let dims = order.iter().map(|o| a.dims[*o]).collect();
            Arr::build(dims, |i| {
                let mut own = vec![0; order.len()];
                for (k, o) in order.iter().enumerate() {
                    own[*o] = i[k];
                }
                a.at(&own)
            })
        }
        Term::Flip(axis, a) => {
            let a = eval(a, w);
            let n = a.dims[*axis];
            Arr::build(a.dims.clone(), |i| a.at(&with(i, *axis, n - 1 - i[*axis])))
        }
        Term::Slice(axis, start, len, a) => {
            let a = eval(a, w);
            Arr::build(with(&a.dims, *axis, *len), |i| a.at(&with(i, *axis, i[*axis] + start)))
        }
        Term::Unslice(full, axis, start, a) => {
            let a = eval(a, w);
            let n = a.dims[*axis];
            Arr::build(full.to_vec(), |i| {
                let k = i[*axis];
                if k < *start || k >= start + n {
                    0.0
                } else {
                    a.at(&with(i, *axis, k - start))
                }
            })
        }
        Term::Cat(axis, parts) => {
            let parts: Vec<Arr> = listed(parts).iter().map(|p| eval(p, w)).collect();
            let total = parts.iter().map(|p| p.dims[*axis]).sum();
            Arr::build(with(&parts[0].dims, *axis, total), |i| {
                let mut k = i[*axis];
                for p in &parts {
                    if k < p.dims[*axis] {
                        return p.at(&with(i, *axis, k));
                    }
                    k -= p.dims[*axis];
                }
                unreachable!()
            })
        }
        Term::TakeAlongLast(a, ids) => {
            let (a, ids) = (eval(a, w), id_list(ids, w));
            let width = a.dims[a.dims.len() - 1];
            Arr {
                dims: a.dims[..a.dims.len() - 1].to_vec(),
                data: ids.iter().enumerate().map(|(r, id)| a.data[r * width + id]).collect(),
            }
        }
        Term::OneHot(width, ids) => {
            let ids = id_list(ids, w);
            Arr::build(vec![ids.len(), *width], |i| truth(ids[i[0]] == i[1]))
        }
        Term::GatherRows(a, ids) => {
            let (a, ids) = (eval(a, w), id_list(ids, w));
            Arr::build(vec![ids.len(), a.dims[1]], |i| a.at(&[ids[i[0]], i[1]]))
        }
        Term::ScatterAddRows(rows, a, ids) => {
            let (a, ids) = (eval(a, w), id_list(ids, w));
            Arr::build(vec![*rows, a.dims[1]], |i| {
                (0..ids.len()).filter(|k| ids[*k] == i[0]).map(|k| a.at(&[k, i[1]])).sum()
            })
        }
        Term::Ids(_) | Term::Empty(_) | Term::Fused(_, _, _) => panic!("no value"),
    }
}

fn world(inputs: &[Arr]) -> World {
    let mut w = World { inputs: HashMap::new(), ids: HashMap::new() };
    for (i, a) in inputs.iter().enumerate() {
        w.inputs.insert(i as u64, a.clone());
    }
    w.ids.insert(100, vec![2, 0, 2]);
    w
}

type Program = fn(&mut Session, &[Var]) -> Result<Var, Error>;

fn leaves(s: &mut Session, inputs: &[Arr]) -> Vec<Var> {
    inputs
        .iter()
        .enumerate()
        .map(|(i, a)| Var::traced(s, Tensor::resident(i as u64, Shape::new(a.dims.clone()))))
        .collect()
}

fn value(program: Program, inputs: &[Arr]) -> Arr {
    let mut s = Session::new();
    let vars = leaves(&mut s, inputs);
    let out = program(&mut s, &vars).unwrap();
    let a = eval(out.tensor().term(), &world(inputs));
    assert_eq!(&a.dims, out.dims());
    a
}

/// The gradients of the sum of a program's result, each weighed by its position, against
/// central differences.
fn check(program: Program, inputs: &[Arr]) {
    let weigh = |a: &Arr| -> f64 {
        a.data.iter().enumerate().map(|(i, x)| x * (0.5 + i as f64 * 0.25)).sum()
    };
    let mut s = Session::new();
    let vars = leaves(&mut s, inputs);
    let out = program(&mut s, &vars).unwrap();
    let plain = eval(out.tensor().term(), &world(inputs));
    let weights: Vec<f64> = (0..plain.data.len()).map(|i| 0.5 + i as f64 * 0.25).collect();
    let mut w = world(inputs);
    w.inputs.insert(50, Arr { dims: plain.dims.clone(), data: weights });
    let k = Var::constant(Tensor::resident(50, out.shape().clone()));
    let weighed = out.mul(&mut s, &k).unwrap();
    let loss = weighed.sum(&mut s);
    let grads = loss.backward_retain(&s).unwrap();
    for (n, v) in vars.iter().enumerate() {
        let got = match grads.node(v.node().unwrap()) {
            Some(g) => eval(g.term(), &w),
            None => Arr::build(inputs[n].dims.clone(), |_| 0.0),
        };
        assert_eq!(got.dims, inputs[n].dims);
        for i in 0..inputs[n].data.len() {
            let h = 1e-5;
            let mut up = inputs.to_vec();
            up[n].data[i] += h;
            let mut down = inputs.to_vec();
            down[n].data[i] -= h;
            let want = (weigh(&value(program, &up)) - weigh(&value(program, &down))) / (2.0 * h);
            assert!(
                (got.data[i] - want).abs() < 1e-5 * (1.0 + want.abs()),
                "input {} element {}: {} and {}",
                n,
                i,
                got.data[i],
                want
            );
        }
    }
}

fn sample() -> Arr {
    arr(&[2, 3], &[0.3, -1.2, 2.1, 0.7, 1.4, -0.6])
}

fn positive() -> Arr {
    arr(&[2, 3], &[0.3, 1.2, 2.1, 0.7, 1.4, 0.6])
}

#[test]
fn pointwise_functions_differentiate() {
    let list: &[Program] = &[
        |s, v| Ok(v[0].neg(s)),
        |s, v| Ok(v[0].exp(s)),
        |s, v| Ok(v[0].log(s)),
        |s, v| Ok(v[0].sqrt(s)),
        |s, v| Ok(v[0].rsqrt(s)),
        |s, v| Ok(v[0].recip(s)),
        |s, v| Ok(v[0].abs(s)),
        |s, v| Ok(v[0].tanh(s)),
        |s, v| Ok(v[0].sigmoid(s)),
        |s, v| Ok(v[0].sin(s)),
        |s, v| Ok(v[0].cos(s)),
        |s, v| Ok(v[0].erf(s)),
        |s, v| Ok(v[0].relu(s)),
        |s, v| Ok(v[0].add_scalar(s, Scalar::Int(3))),
        |s, v| Ok(v[0].mul_scalar(s, Scalar::Frac(-3, 2))),
        |s, v| Ok(v[0].rsub_scalar(s, Scalar::Int(3))),
        |s, v| Ok(v[0].powf_scalar(s, 2.5f32.to_bits())),
        |s, v| Ok(v[0].clamp(s, Scalar::Frac(1, 2), Scalar::Int(2))),
        |s, v| Ok(v[0].silu(s)),
        |s, v| Ok(v[0].softplus(s)),
        |s, v| Ok(v[0].wrap_to(s, Scalar::Int(1))),
        |s, v| v[0].silu_composed(s),
        |s, v| v[0].softplus_composed(s),
        |s, v| v[0].gelu(s),
    ];
    for program in list {
        check(*program, &[positive()]);
    }
    let whole: &[Program] = &[
        |s, v| Ok(v[0].abs(s)),
        |s, v| Ok(v[0].relu(s)),
        |s, v| Ok(v[0].silu(s)),
        |s, v| Ok(v[0].softplus(s)),
        |s, v| Ok(v[0].erf(s)),
        |s, v| v[0].gelu(s),
        |s, v| v[0].softplus_composed(s),
    ];
    for program in whole {
        check(*program, &[sample()]);
    }
}

#[test]
fn composed_and_fused_forms_agree() {
    let a = value(|s, v| Ok(v[0].silu(s)), &[sample()]);
    let b = value(|s, v| v[0].silu_composed(s), &[sample()]);
    let c = value(|s, v| Ok(v[0].softplus(s)), &[sample()]);
    let d = value(|s, v| v[0].softplus_composed(s), &[sample()]);
    for i in 0..a.data.len() {
        assert!((a.data[i] - b.data[i]).abs() < 1e-12);
        assert!((c.data[i] - d.data[i]).abs() < 1e-12);
    }
}

#[test]
fn broadcast_operands_differentiate() {
    let list: &[Program] = &[
        |s, v| v[0].add(s, &v[1]),
        |s, v| v[0].sub(s, &v[1]),
        |s, v| v[0].mul(s, &v[1]),
        |s, v| v[0].div(s, &v[1]),
        |s, v| v[0].maximum(s, &v[1]),
        |s, v| v[1].sub(s, &v[0]),
        |s, v| v[1].div(s, &v[0]),
    ];
    for program in list {
        check(*program, &[positive(), arr(&[3], &[0.9, 1.1, 1.9])]);
        check(*program, &[positive(), arr(&[2, 1], &[0.9, 1.1])]);
        check(*program, &[positive(), arr(&[], &[0.8])]);
        check(*program, &[positive(), arr(&[2, 2, 3], &[
            1.1, 0.2, 0.4, 0.5, 1.7, 2.2, 0.35, 1.3, 0.8, 0.9, 0.15, 2.4,
        ])]);
    }
}

#[test]
fn a_value_used_twice_gathers_both_gradients() {
    check(|s, v| v[0].mul(s, &v[0]), &[sample()]);
    check(
        |s, v| {
            let a = v[0].exp(s);
            let b = v[0].sin(s);
            let c = a.mul(s, &b)?;
            c.add(s, &v[0])
        },
        &[sample()],
    );
}

#[test]
fn products_differentiate() {
    let b = arr(&[3, 2], &[1.0, -0.5, 0.25, 2.0, -1.5, 0.75]);
    let bt = arr(&[4, 3], &[1.0, -0.5, 0.25, 2.0, -1.5, 0.75, 0.1, 0.2, 0.3, -0.4, 0.5, 0.6]);
    check(|s, v| v[0].matmul(s, &v[1]), &[sample(), b.clone()]);
    check(|s, v| v[0].matmul_nt(s, &v[1]), &[sample(), bt]);
    let a3 = arr(&[2, 1, 2, 3], &[0.3, -1.2, 2.1, 0.7, 1.4, -0.6, 0.1, 0.2, 0.9, -0.3, 0.5, 0.8]);
    let b3 = arr(&[2, 3, 1], &[1.0, -0.5, 0.25, 2.0, -1.5, 0.75]);
    check(|s, v| v[0].matmul(s, &v[1]), &[a3, b3]);
}

#[test]
fn reductions_differentiate() {
    let list: &[Program] = &[
        |s, v| v[0].sum_dim(s, 0),
        |s, v| v[0].mean_dim(s, 1),
        |s, v| v[0].max_dim(s, 1),
        |s, v| Ok(v[0].sum(s)),
        |s, v| v[0].mean(s),
        |s, v| v[0].sum_away(s, 1),
        |s, v| v[0].logsumexp(s, 1),
        |s, v| v[0].softmax(s, 1),
        |s, v| v[0].log_softmax(s, 0),
        |s, v| v[0].cumsum(s, 1),
        |s, v| v[0].cumsum_exclusive(s, 0),
    ];
    for program in list {
        check(*program, &[sample()]);
    }
}

#[test]
fn rearrangements_differentiate() {
    let list: &[Program] = &[
        |s, v| v[0].reshape(s, &Shape::new(vec![3, 2])),
        |s, v| v[0].unsqueeze(s, 1),
        |s, v| {
            let u = v[0].unsqueeze(s, 1)?;
            u.squeeze(s, 1)
        },
        |s, v| v[0].permute(s, &vec![1, 0]),
        |s, v| v[0].transpose(s),
        |s, v| v[0].swap_axes(s, 0, 1),
        |s, v| v[0].expand(s, &Shape::new(vec![4, 2, 3])),
        |s, v| v[0].flip(s, 1),
        |s, v| v[0].slice(s, 1, 1, 2),
        |s, v| v[0].shift_right(s, 1),
    ];
    for program in list {
        check(*program, &[sample()]);
    }
}

#[test]
fn split_pieces_give_the_bands_back() {
    check(
        |s, v| {
            let parts = v[0].split(s, &vec![1, 2], 1)?;
            let a = parts[0].exp(s);
            let b = parts[1].sin(s);
            b.mul(s, &a)
        },
        &[sample()],
    );
    // A piece that nobody reads leaves a zero band.
    check(
        |s, v| {
            let parts = v[0].split(s, &vec![1, 2], 1)?;
            Ok(parts[1].exp(s))
        },
        &[sample()],
    );
}

#[test]
fn concatenation_and_sums_differentiate() {
    check(
        |s, v| cat(s, &vec![v[0].clone(), v[1].clone(), v[0].clone()], 0),
        &[sample(), arr(&[1, 3], &[0.4, 0.5, 0.6])],
    );
    check(
        |s, v| {
            let a = v[0].exp(s);
            sum_all_vars(s, &vec![a, v[0].clone()])
        },
        &[sample()],
    );
}

#[test]
fn embeddings_scatter_their_gradient() {
    check(
        |s, v| embedding(s, &v[0], &IdTensor::resident(100, Shape::new(vec![3]))),
        &[arr(&[4, 2], &[0.1, 0.2, 0.3, 0.4, 0.5, 0.6, 0.7, 0.8])],
    );
}

#[test]
fn taking_along_the_last_axis_scatters_its_gradient() {
    check(
        |s, v| v[0].take_along_last(s, &IdTensor::resident(100, Shape::new(vec![3]))),
        &[arr(&[3, 3], &[0.1, 0.2, 0.3, 0.4, 0.5, 0.6, 0.7, 0.8, 0.9])],
    );
}

#[test]
fn rounding_passes_the_gradient_through() {
    let mut s = Session::new();
    let x = Var::traced(&mut s, Tensor::resident(0, Shape::new(vec![2, 3])));
    let y = x.round_ste(&mut s).sum(&mut s);
    let grads = y.backward_retain(&s).unwrap();
    let w = world(&[sample()]);
    let g = eval(grads.node(x.node().unwrap()).unwrap().term(), &w);
    assert_eq!(g.data, vec![1.0; 6]);
}

#[test]
fn permuting_twice_restores() {
    let a = arr(&[2, 3, 2], &[1., 2., 3., 4., 5., 6., 7., 8., 9., 10., 11., 12.]);
    let back = value(
        |s, v| {
            let p = v[0].permute(s, &vec![2, 0, 1])?;
            p.permute(s, &vec![1, 2, 0])
        },
        &[a.clone()],
    );
    assert_eq!(back, a);
}

#[test]
fn retaining_changes_no_gradient() {
    let mut s = Session::new();
    let x = Var::traced(&mut s, Tensor::resident(0, Shape::new(vec![2, 3])));
    let y = x.mul(&mut s, &x).unwrap().sum(&mut s);
    let first = y.backward_retain(&s).unwrap();
    let again = y.backward_retain(&s).unwrap();
    let w = world(&[sample()]);
    let id = x.node().unwrap();
    let a = eval(first.node(id).unwrap().term(), &w);
    let b = eval(again.node(id).unwrap().term(), &w);
    assert_eq!(a, b);
    let last = y.backward(&mut s).unwrap();
    assert!(last.node(id).is_none());
    match y.backward(&mut s) {
        Ok(g) => assert!(g.is_empty()),
        Err(e) => assert!(matches!(e, Error::Autodiff(_))),
    }
}

#[test]
fn a_constant_has_no_gradient() {
    let mut s = Session::new();
    let x = Var::constant(Tensor::ones(Shape::new(vec![2])));
    let y = x.exp(&mut s);
    assert!(!y.is_tracked());
    match y.backward(&mut s) {
        Err(e) => assert_eq!(
            e.message(),
            "autodiff error: backward() called on a value that is not tracked"
        ),
        Ok(_) => panic!("nothing to differentiate"),
    }
}

#[test]
fn nothing_is_recorded_while_tracking_is_off() {
    let mut s = Session::new();
    let x = Var::traced(&mut s, Tensor::ones(Shape::new(vec![2])));
    let guard = no_grad(&mut s);
    assert!(!is_enabled(&s));
    let y = x.exp(&mut s);
    assert!(!y.is_tracked());
    guard.restore(&mut s);
    assert!(is_enabled(&s));
    assert!(x.exp(&mut s).is_tracked());
    let z = with_no_grad(&mut s, |s: &mut Session| x.exp(s));
    assert!(!z.is_tracked());
    assert!(is_enabled(&s));
    assert!(!x.detach().is_tracked());
}

#[test]
fn refused_shapes_leave_the_tape_alone() {
    let mut s = Session::new();
    let x = Var::traced(&mut s, Tensor::ones(Shape::new(vec![2, 3])));
    let y = Var::traced(&mut s, Tensor::ones(Shape::new(vec![4])));
    assert!(matches!(x.add(&mut s, &y), Err(Error::Shape(_))));
    assert!(matches!(x.matmul(&mut s, &y), Err(Error::Rank { expected: 2, got: 1, .. })));
    assert!(matches!(x.matmul(&mut s, &x), Err(Error::Shape(_))));
    assert!(matches!(x.sum_dim(&mut s, 2), Err(Error::Shape(_))));
    assert!(matches!(x.reshape(&mut s, &Shape::new(vec![7])), Err(Error::Shape(_))));
    assert!(matches!(x.permute(&mut s, &vec![0, 0]), Err(Error::Shape(_))));
    assert!(matches!(x.slice(&mut s, 1, 2, 2), Err(Error::Shape(_))));
    assert!(matches!(x.split(&mut s, &vec![1, 1], 1), Err(Error::Shape(_))));
    assert!(matches!(x.expand(&mut s, &Shape::new(vec![3, 3])), Err(Error::Shape(_))));
    assert!(matches!(cat(&mut s, &vec![x.clone(), y], 0), Err(Error::Shape(_))));
    assert!(cat(&mut s, &vec![], 0).is_err());
    let next = x.exp(&mut s);
    assert_eq!(next.node().unwrap().raw(), x.node().unwrap().raw() + 2);
}

#[test]
fn an_affine_grid_covers_the_observed_range() {
    let (mut s, mut st) = (Session::new(), Store::new());
    let on = |data: &[f64], s: &mut Session, st: &mut Store| {
        let config = QuantConfig::builder().bits(2).scheme(QuantScheme::Affine).dynamic(true);
        let q = Quantizer::new(st, config.build().unwrap());
        let x = arr(&[data.len()], data);
        let v = leaves(s, &[x.clone()]).remove(0);
        let y = q.quantize(s, st, &v).unwrap();
        eval(y.tensor().term(), &world(&[x])).data
    };
    assert_eq!(on(&[2.0, 3.0, 4.0, 5.0], &mut s, &mut st), vec![2.0, 3.0, 4.0, 5.0]);
    let got = on(&[-1.5, -1.4, 1.0, 1.5], &mut s, &mut st);
    assert!((got[0] + 1.5).abs() < 1e-9);
    assert!((got[1] + 1.5).abs() < 1e-9);
    assert!((got[3] - 1.5).abs() < 1e-9);
}
