//! The row kernels, their formulas evaluated in double precision.

use std::collections::HashMap;
use std::sync::Arc;

use mamba3::distributions::kernels::row_of;
use mamba3::distributions::rows::{
    chosen_class, greedy_class, number, row_base, row_entropy, row_entropy_grad, row_log_prob,
    row_log_prob_grad, row_log_total, row_max, row_probs, row_sum, row_target, tempered, Cell,
};
use mamba3::distributions::simplex_rows::{
    dirichlet_entropy, dirichlet_entropy_grad, dirichlet_grad_conc, dirichlet_grad_value,
    dirichlet_log_prob, dirichlet_mean, dirichlet_mode, dirichlet_variance, multinomial_log_prob,
    share,
};
use mamba3::distributions::triangular::{
    cholesky, matrix_at, normal_grad_factor, normal_grad_vector, normal_kl, normal_log_prob,
    normal_solves, solve_lower, solve_upper,
};
use mamba3::term::{Binary, Fused, Scalar, Special, Term, Unary};

fn lgamma(x: f64) -> f64 {
    let mut x = x;
    let mut shift = 0.0;
    while x < 12.0 {
        shift -= x.ln();
        x += 1.0;
    }
    let i = 1.0 / x;
    let i2 = i * i;
    shift + (x - 0.5) * x.ln() - x
        + 0.5 * (2.0 * std::f64::consts::PI).ln()
        + i * (1.0 / 12.0 - i2 * (1.0 / 360.0 - i2 * (1.0 / 1260.0 - i2 / 1680.0)))
}

fn digamma(x: f64) -> f64 {
    let h = 1e-5;
    (lgamma(x + h) - lgamma(x - h)) / (2.0 * h)
}

fn trigamma(x: f64) -> f64 {
    let mut x = x;
    let mut shift = 0.0;
    while x < 12.0 {
        shift += 1.0 / (x * x);
        x += 1.0;
    }
    let i = 1.0 / x;
    let i2 = i * i;
    shift + i + 0.5 * i2 + i * i2 * (1.0 / 6.0 - i2 * (1.0 / 30.0 - i2 / 42.0))
}

fn scalar(s: Scalar) -> f64 {
    match s {
        Scalar::Int(n) => n as f64,
        Scalar::Frac(n, d) => n as f64 / d as f64,
        Scalar::Bits(b) => f32::from_bits(b) as f64,
        Scalar::Count(n) => n as f64,
        Scalar::PivotFloor => 1e-20,
        Scalar::HalfLnTwoPiTimes(n) => 0.5 * n as f64 * (2.0 * std::f64::consts::PI).ln(),
        other => panic!("no value for {:?}", other),
    }
}

fn unary(op: Unary, x: f64) -> f64 {
    match op {
        Unary::Neg => -x,
        Unary::Exp => x.exp(),
        Unary::Log => x.ln(),
        Unary::Sqrt => x.sqrt(),
        Unary::Recip => 1.0 / x,
        Unary::Abs => x.abs(),
        Unary::AddScalar(s) => x + scalar(s),
        Unary::MulScalar(s) => x * scalar(s),
        Unary::RsubScalar(s) => scalar(s) - x,
        Unary::GtScalar(s) => {
            if x > scalar(s) {
                1.0
            } else {
                0.0
            }
        }
        Unary::LtScalar(s) => {
            if x < scalar(s) {
                1.0
            } else {
                0.0
            }
        }
        Unary::EqScalar(s) => {
            if x == scalar(s) {
                1.0
            } else {
                0.0
            }
        }
        Unary::Special(Special::Lgamma) => lgamma(x),
        Unary::Special(Special::Digamma) => digamma(x),
        Unary::Special(Special::Trigamma) => trigamma(x),
        other => panic!("no value for {:?}", other),
    }
}

fn binary(op: Binary, x: f64, y: f64) -> f64 {
    match op {
        Binary::Add => x + y,
        Binary::Sub => x - y,
        Binary::Mul => x * y,
        Binary::Div => x / y,
        Binary::Maximum => x.max(y),
        Binary::Greater => {
            if x > y {
                1.0
            } else {
                0.0
            }
        }
        Binary::Gated => {
            if x == 0.0 {
                0.0
            } else {
                y
            }
        }
        other => panic!("no value for {:?}", other),
    }
}

struct Seen {
    values: HashMap<usize, (Cell, f64)>,
}

impl Seen {
    fn value(&mut self, c: &Cell) -> f64 {
        let key = Arc::as_ptr(c) as usize;
        if let Some((_, v)) = self.values.get(&key) {
            return *v;
        }
        let v = match &**c {
            Term::Fill(s, _) => scalar(*s),
            Term::Unary(op, a) => {
                let x = self.value(a);
                unary(*op, x)
            }
            Term::Binary(op, a, b) => {
                let x = self.value(a);
                let y = self.value(b);
                binary(*op, x, y)
            }
            _ => panic!("not elementwise"),
        };
        self.values.insert(key, (c.clone(), v));
        v
    }
}

fn value(c: &Cell) -> f64 {
    Seen { values: HashMap::new() }.value(c)
}

fn values(list: &[Cell]) -> Vec<f64> {
    let mut seen = Seen { values: HashMap::new() };
    list.iter().map(|c| seen.value(c)).collect()
}

/// Entries that single precision holds exactly.
fn cells(list: &[f64]) -> Vec<Cell> {
    list.iter()
        .map(|x| {
            assert_eq!((*x as f32) as f64, *x);
            number(Scalar::Bits((*x as f32).to_bits()))
        })
        .collect()
}

fn one(x: f64) -> Cell {
    cells(&[x])[0].clone()
}

const H: f64 = 1.0 / 1024.0;

fn near(a: f64, b: f64) -> bool {
    (a - b).abs() < 2e-5 * (1.0 + b.abs())
}

/// A gradient against central differences.
fn slopes(got: &[f64], at: &[f64], f: &dyn Fn(&[f64]) -> f64) {
    assert_eq!(got.len(), at.len());
    for i in 0..at.len() {
        let mut up = at.to_vec();
        up[i] += H;
        let mut down = at.to_vec();
        down[i] -= H;
        let want = (f(&up) - f(&down)) / (2.0 * H);
        assert!(near(got[i], want), "entry {}: {} and {}", i, got[i], want);
    }
}

#[test]
fn probabilities_sum_to_one() {
    let row = cells(&[0.5, -1.0, 2.0, 0.25]);
    let p = values(&row_probs(&row));
    let total: f64 = p.iter().sum();
    assert!((total - 1.0).abs() < 1e-12);
    assert!((p[2] / p[0] - 1.5f64.exp()).abs() < 1e-9);
    assert_eq!(value(&row_max(&row)), 2.0);
    assert_eq!(value(&row_sum(&row)), 1.75);
    for i in 0..4 {
        assert!((value(&row_log_prob(&row, i)) - p[i].ln()).abs() < 1e-12);
    }
    let scaled = values(&tempered(&row, Scalar::Int(2)));
    assert_eq!(scaled, vec![1.0, -2.0, 4.0, 0.5]);
    let total: f64 = [0.5f64, -1.0, 2.0, 0.25].iter().map(|x| (x - 2.0).exp()).sum();
    assert!((value(&row_log_total(&row)) - total.ln() - 2.0).abs() < 1e-12);
}

#[test]
fn a_large_row_does_not_overflow() {
    let row = cells(&[1000.0, 999.0]);
    let p = values(&row_probs(&row));
    assert!((p[0] - 1.0 / (1.0 + (-1.0f64).exp())).abs() < 1e-12);
}

#[test]
fn row_gradients_are_slopes() {
    let at = [0.5, -1.0, 2.0, 0.25];
    for class in 0..4 {
        let g = values(&row_log_prob_grad(&cells(&at), class, &one(1.0)));
        slopes(&g, &at, &|x| value(&row_log_prob(&cells(x), class)));
    }
    let g = values(&row_entropy_grad(&cells(&at), &one(1.0)));
    slopes(&g, &at, &|x| value(&row_entropy(&cells(x))));
    let uniform = value(&row_entropy(&cells(&[0.0, 0.0, 0.0, 0.0])));
    assert!((uniform - 4.0f64.ln()).abs() < 1e-12);
}

#[test]
fn a_class_is_chosen_by_its_running_sum() {
    let row = cells(&[0.0, 0.0, 0.0, 0.0]);
    for (u, want) in [(0.1, 0), (0.3, 1), (0.5, 2), (0.9, 3)] {
        let bits = Scalar::Bits((u as f32).to_bits());
        let (running, target) = row_target(&row, bits);
        let goal = value(&target);
        let held: Vec<bool> = values(&running).iter().map(|s| *s <= goal).collect();
        assert_eq!(chosen_class(&held), want);
    }
    assert_eq!(chosen_class(&vec![true, true]), 1);
    let bits = |x: f32| x.to_bits();
    assert_eq!(greedy_class(&vec![bits(0.5), bits(2.0), bits(2.0)]), 1);
    assert_eq!(row_base(5, 2, 3), 3);
}

fn covariance() -> Vec<f64> {
    vec![4.0, 2.0, 0.5, 2.0, 5.0, 1.5, 0.5, 1.5, 3.0]
}

#[test]
fn a_factor_times_its_transpose_is_the_matrix() {
    let l = cholesky(&matrix_at(&cells(&covariance()), 0, 3));
    let l: Vec<Vec<f64>> = l.iter().map(|row| values(row)).collect();
    for i in 0..3 {
        for j in 0..3 {
            let sum: f64 = (0..3).map(|k| l[i][k] * l[j][k]).sum();
            assert!((sum - covariance()[i * 3 + j]).abs() < 1e-9);
            if j > i {
                assert_eq!(l[i][j], 0.0);
            }
        }
    }
}

fn lower() -> Vec<f64> {
    vec![2.0, 0.0, 0.0, 0.5, 1.5, 0.0, -0.25, 0.75, 1.25]
}

#[test]
fn substitution_solves() {
    let l = matrix_at(&cells(&lower()), 0, 3);
    let d = [1.0, -0.5, 2.0];
    let z = values(&solve_lower(&l, &cells(&d)));
    let w = values(&solve_upper(&l, &cells(&d)));
    let l = lower();
    for i in 0..3 {
        let forward: f64 = (0..=i).map(|j| l[i * 3 + j] * z[j]).sum();
        assert!((forward - d[i]).abs() < 1e-12);
        let backward: f64 = (i..3).map(|j| l[j * 3 + i] * w[j]).sum();
        assert!((backward - d[i]).abs() < 1e-12);
    }
}

fn density(loc: &[f64], l: &[f64], x: &[f64]) -> f64 {
    value(&normal_log_prob(&cells(loc), &matrix_at(&cells(l), 0, 3), &cells(x)))
}

#[test]
fn the_normal_density_and_its_slopes() {
    let loc = [0.5, -0.25, 1.0];
    let x = [1.0, 0.75, 0.5];
    let got = density(&loc, &lower(), &x);
    let l = lower();
    let mut z = [0.0; 3];
    for i in 0..3 {
        let mut r = x[i] - loc[i];
        for j in 0..i {
            r -= l[i * 3 + j] * z[j];
        }
        z[i] = r / l[i * 3 + i];
    }
    let half: f64 = z.iter().map(|v| 0.5 * v * v).sum();
    let logdet: f64 = (0..3).map(|i| l[i * 3 + i].ln()).sum();
    let want = -half - logdet - 1.5 * (2.0 * std::f64::consts::PI).ln();
    assert!((got - want).abs() < 1e-9);

    let m = matrix_at(&cells(&lower()), 0, 3);
    let (zc, w) = normal_solves(&cells(&loc), &m, &cells(&x));
    let dx = values(&normal_grad_vector(&w, &one(1.0), true));
    slopes(&dx, &x, &|v| density(&loc, &lower(), v));
    let dloc = values(&normal_grad_vector(&w, &one(1.0), false));
    slopes(&dloc, &loc, &|v| density(v, &lower(), &x));
    let dl = normal_grad_factor(&w, &zc, &m, &one(1.0));
    for i in 0..3 {
        let row = values(&dl[i]);
        for j in 0..=i {
            let mut up = lower();
            up[i * 3 + j] += H;
            let mut down = lower();
            down[i * 3 + j] -= H;
            let want = (density(&loc, &up, &x) - density(&loc, &down, &x)) / (2.0 * H);
            assert!(near(row[j], want), "{} {}: {} and {}", i, j, row[j], want);
        }
        for entry in &row[i + 1..] {
            assert_eq!(*entry, 0.0);
        }
    }
}

#[test]
fn a_normal_does_not_diverge_from_itself() {
    let loc = [0.5, -0.25, 1.0];
    let m = matrix_at(&cells(&lower()), 0, 3);
    let same = value(&normal_kl(&cells(&loc), &m, &cells(&loc), &m));
    assert!(same.abs() < 1e-9);
    let unit = matrix_at(&cells(&[1.0, 0.0, 0.0, 0.0, 1.0, 0.0, 0.0, 0.0, 1.0]), 0, 3);
    let zero = cells(&[0.0, 0.0, 0.0]);
    let moved = value(&normal_kl(&cells(&[1.0, 2.0, 0.0]), &unit, &zero, &unit));
    assert!((moved - 2.5).abs() < 1e-9);
    let wide = matrix_at(&cells(&[2.0, 0.0, 0.0, 0.0, 2.0, 0.0, 0.0, 0.0, 2.0]), 0, 3);
    let got = value(&normal_kl(&zero, &wide, &zero, &unit));
    assert!((got - 3.0 * (0.5 * (4.0 - 1.0) - 2.0f64.ln())).abs() < 1e-9);
}

#[test]
fn the_dirichlet_density_and_its_slopes() {
    let conc = [1.5, 2.0, 0.75];
    let x = [0.25, 0.5, 0.25];
    let f = |c: &[f64], v: &[f64]| value(&dirichlet_log_prob(&cells(c), &cells(v)));
    let want = lgamma(4.25) - lgamma(1.5) - lgamma(2.0) - lgamma(0.75)
        + 0.5 * 0.25f64.ln()
        + 0.5f64.ln()
        - 0.25 * 0.25f64.ln();
    assert!((f(&conc, &x) - want).abs() < 1e-9);
    let g = values(&dirichlet_grad_conc(&cells(&conc), &cells(&x), &one(1.0)));
    slopes(&g, &conc, &|c| f(c, &x));
    let g = values(&dirichlet_grad_value(&cells(&conc), &cells(&x), &one(1.0)));
    slopes(&g, &x, &|v| f(&conc, v));
    let g = values(&dirichlet_entropy_grad(&cells(&conc), &one(1.0)));
    slopes(&g, &conc, &|c| value(&dirichlet_entropy(&cells(c))));
    let flat = value(&dirichlet_entropy(&cells(&[1.0, 1.0, 1.0])));
    assert!((flat + 2.0f64.ln()).abs() < 1e-7);
}

#[test]
fn dirichlet_moments() {
    let conc = cells(&[1.5, 2.0, 0.5]);
    assert_eq!(values(&dirichlet_mean(&conc)), vec![0.375, 0.5, 0.125]);
    let v = values(&dirichlet_variance(&conc));
    assert!((v[1] - 0.5 * 0.5 / 5.0).abs() < 1e-12);
    let m = values(&dirichlet_mode(&cells(&[2.0, 3.0, 4.0])));
    for (got, want) in m.iter().zip([1.0 / 6.0, 2.0 / 6.0, 3.0 / 6.0]) {
        assert!((got - want).abs() < 1e-12);
    }
}

#[test]
fn multinomial_masses_sum_to_one() {
    let logits = cells(&[0.5, -1.0, 0.25]);
    let mut total = 0.0;
    for i in 0..5u32 {
        for j in 0..5 - i {
            let x = [i as f64, j as f64, (4 - i - j) as f64];
            total += value(&multinomial_log_prob(4, &logits, &cells(&x))).exp();
        }
    }
    assert!((total - 1.0).abs() < 1e-9);
}

#[test]
fn shares_use_up_the_trials() {
    let drawn = [3, 2, 9];
    let mut left = 8;
    let mut taken = Vec::new();
    for i in 0..3 {
        let part = share(left, i == 2, if drawn[i] <= left { drawn[i] } else { left });
        left -= part;
        taken.push(part);
    }
    assert_eq!(taken, vec![3, 2, 3]);
    assert_eq!(left, 0);
    assert_eq!(share(0, true, 0), 0);
}

fn row(op: Fused, rows: &[&[f64]], n: usize) -> Option<Vec<f64>> {
    let given: Vec<Vec<Cell>> = rows.iter().map(|r| cells(r)).collect();
    row_of(op, &given, n).map(|r| values(&r))
}

#[test]
fn opcodes_choose_the_row_formula() {
    let ln2pi = (2.0 * std::f64::consts::PI).ln();
    // What stands above the diagonal of a factor is ignored.
    let at = row(Fused::MvnLogProb, &[&[0.0, 0.0], &[1.0, 7.0, 0.0, 1.0], &[1.0, 1.0]], 0).unwrap();
    assert_eq!(at.len(), 1);
    assert!((at[0] + 1.0 + ln2pi).abs() < 1e-9);
    let kl = |up: f64| {
        let p = [1.0, up, 0.5, 1.0];
        row(Fused::MvnKl, &[&[0.0, 0.0], &p, &[1.0, 0.0], &[2.0, up, 0.0, 1.0]], 0).unwrap()[0]
    };
    assert!((kl(0.0) - kl(5.0)).abs() < 1e-12);
    let l = row(Fused::Cholesky, &[&[4.0, 2.0, 2.0, 5.0]], 2).unwrap();
    for (got, want) in l.iter().zip([2.0, 0.0, 1.0, 2.0]) {
        assert!((got - want).abs() < 1e-9);
    }
    let logits = [1.0, 3.0, 3.0, 2.0];
    let probs = row(Fused::RowProbs, &[&logits], 0).unwrap();
    let score = row(Fused::RowLogProb, &[&logits], 2).unwrap();
    assert!((score[0] - probs[2].ln()).abs() < 1e-9);
    let drawn = row(Fused::RowDrawScore(false, Scalar::Int(2), 1, 0), &[&logits], 1).unwrap();
    let sharp: Vec<f64> = logits.iter().map(|v| 2.0 * v).collect();
    let want = row(Fused::RowLogProb, &[&sharp], 1).unwrap();
    assert!((drawn[0] - want[0]).abs() < 1e-9);
    let h = row(Fused::RowEntropy, &[&logits], 0).unwrap();
    let sum: f64 = probs.iter().map(|p| -p * p.ln()).sum();
    assert!((h[0] - sum).abs() < 1e-9);
    let mean = row(Fused::DirichletMoment(0), &[&[1.0, 3.0]], 0).unwrap();
    assert!((mean[1] - 0.75).abs() < 1e-12);
    let g = row(Fused::MvnGrad(0), &[&[0.0], &[2.0], &[1.0], &[3.0]], 0).unwrap();
    assert!((g[0] + 0.75).abs() < 1e-12);
    // Rows that do not fit, and kernels that own no row.
    assert!(row(Fused::RowLogProb, &[&logits], 4).is_none());
    assert!(row(Fused::MvnLogProb, &[&[0.0], &[1.0, 2.0], &[0.0]], 0).is_none());
    assert!(row(Fused::Eye, &[], 0).is_none());
}
