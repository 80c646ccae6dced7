//! A Gaussian with a full covariance.
//!
//! Parameterised by the lower-triangular factor of the covariance, because that is the
//! form every operation wants: the density needs a triangular solve, the entropy the
//! logarithms of the diagonal, and a draw is the mean plus the factor times noise.
//! Only the solves and the factorisation are kernels; the draw and the entropy are
//! composed, so their gradients need nothing of their own.

use vstd::prelude::*;

use super::base;
use super::base::{Distribution, Support, four, just, one_long, prefixed, three, unsupported};
use super::simplex;
use super::simplex::check_rows;
use super::univariate::Kind;
use crate::autograd::graph::{Session, Tape};
use crate::autograd::ops;
use crate::autograd::ops::{also, count_error};
use crate::autograd::rule;
use crate::autograd::rule::{Rule, RuleOf};
use crate::autograd::var;
use crate::autograd::var::{Trace, Traced, Var};
use crate::error::{Error, Fault};
use crate::shape;
use crate::shape::{Shape, copied, same_list};
use crate::tensor;
use crate::tensor::{Tensor, Value};
use crate::term::{Binary, Fused, Product, Scalar, Unary};
use crate::text::{append_bracketed, append_decimal};

verus! {

/// A multivariate normal as a mathematical value: its mean and its factor.
pub struct Gaussian {
    pub loc: Traced,
    pub tril: Traced,
}

impl Gaussian {
    pub open spec fn batch(self) -> Seq<usize> {
        self.loc.value.dims.drop_last()
    }

    pub open spec fn dim(self) -> usize {
        self.loc.value.dims.last()
    }

    pub open spec fn rows(self) -> usize {
        shape::product(self.batch()) as usize
    }

    pub open spec fn wf(self) -> bool {
        &&& 0 < self.loc.value.dims.len() < usize::MAX
        &&& self.tril.value.dims == self.loc.value.dims.push(self.dim())
        &&& shape::fits(self.loc.value.dims)
        &&& shape::fits(self.batch())
    }
}

/// A Gaussian over `d` dimensions with a full covariance.
pub struct MultivariateNormal {
    loc: Var,
    scale_tril: Var,
    batch: Shape,
    dim: usize,
    rows: usize,
    count: usize,
}

impl View for MultivariateNormal {
    type V = Gaussian;

    closed spec fn view(&self) -> Gaussian {
        Gaussian { loc: self.loc@, tril: self.scale_tril@ }
    }
}

pub open spec fn factor_message(loc: Seq<usize>, tril: Seq<usize>) -> Seq<char> {
    "a mean of "@ + crate::text::bracketed(loc) + " wants a factor of "@ + crate::text::bracketed(
        loc.push(loc.last()),
    ) + ", got "@ + crate::text::bracketed(tril)
}

/// The distribution of a mean `[..batch, d]` and a factor `[..batch, d, d]`.
pub open spec fn gaussian_of(loc: Traced, tril: Traced) -> Result<Gaussian, Fault> {
    let g = Gaussian { loc, tril };
    if loc.value.dims.len() == 0 {
        Err(Fault::Shape("a multivariate normal needs a trailing event axis"@))
    } else if tril.value.dims != loc.value.dims.push(g.dim()) {
        Err(Fault::Shape(factor_message(loc.value.dims, tril.value.dims)))
    } else if !shape::fits(loc.value.dims) || !shape::fits(g.batch()) {
        Err(Fault::Shape(ops::count_message(loc.value.dims)))
    } else {
        Ok(g)
    }
}

/// The lower-triangular factor of every trailing matrix.
pub open spec fn factored(covariance: Value) -> Value {
    tensor::fused_of(Fused::Cholesky, seq![covariance], covariance.dims)
}

/// The square identity.
pub open spec fn identity(dim: usize) -> Value {
    tensor::fused_of(Fused::Eye, Seq::empty(), seq![dim, dim])
}

/// Ones on and below the diagonal.
pub open spec fn triangle(dim: usize) -> Value {
    tensor::fused_of(Fused::Lower, Seq::empty(), seq![dim, dim])
}

/// The lower triangle of every trailing matrix, zero above the diagonal.
pub open spec fn lower_of(tril: Value, dim: usize) -> Result<Value, Fault> {
    tensor::binary_of(Binary::Gated, triangle(dim), tril)
}

/// The lower triangle of the factor, recorded: its adjoint is the triangle of the gradient.
pub open spec fn lower_op(t: Tape, g: Gaussian) -> Result<(Tape, Traced), Fault> {
    var::recorded(
        t,
        lower_of(g.tril.value, g.dim()),
        seq![g.tril.trace, None],
        RuleOf::Mul(g.tril.trace is Some, false, g.tril.value, triangle(g.dim())),
    )
}

/// A diagonal factor from a standard deviation per axis.
pub open spec fn diagonal_factor(loc: Seq<usize>, scale: Value) -> Result<Value, Fault> {
    let dim = loc.last();
    if !shape::fits(scale.dims) {
        Err(Fault::Shape(ops::count_message(scale.dims)))
    } else {
        let rows = (shape::product(scale.dims) / if dim == 0 {
            1nat
        } else {
            dim as nat
        }) as usize;
        rule::onward(
            tensor::reshape_of(scale, seq![rows, dim, 1usize]),
            |column: Value|
                rule::onward(
                    tensor::expand_of(column, seq![rows, dim, dim]),
                    |spread: Value|
                        rule::onward(
                            tensor::reshape_of(identity(dim), seq![1usize, dim, dim]),
                            |one: Value|
                                rule::onward(
                                    tensor::expand_of(one, seq![rows, dim, dim]),
                                    |eye: Value|
                                        rule::onward(
                                            tensor::binary_of(Binary::Mul, spread, eye),
                                            |v: Value| tensor::reshape_of(v, loc.push(dim)),
                                        ),
                                ),
                        ),
                ),
        )
    }
}

pub open spec fn mvn_message(loc: Seq<usize>, value: Seq<usize>) -> Seq<char> {
    "a multivariate normal over "@ + crate::text::bracketed(loc) + " cannot score a value of "@
        + crate::text::bracketed(value)
}

/// The log-density of every row of a value.
pub open spec fn mvn_log_prob_op(t: Tape, g: Gaussian, x: Traced) -> Result<
    (Tape, Traced),
    Fault,
> {
    match simplex::rows_agree(
        x.value.dims,
        g.loc.value.dims,
        mvn_message(g.loc.value.dims, x.value.dims),
    ) {
        Err(f) => Err(f),
        Ok(_) => Ok(
            var::record(
                t,
                tensor::fused_of(
                    Fused::MvnLogProb,
                    seq![g.loc.value, g.tril.value, x.value],
                    x.value.dims.drop_last(),
                ),
                seq![x.trace, g.loc.trace, g.tril.trace],
                RuleOf::MvnLogProb(
                    x.trace is Some,
                    g.loc.trace is Some,
                    g.tril.trace is Some,
                    x.value,
                    g.loc.value,
                    g.tril.value,
                ),
            ),
        ),
    }
}

/// Standard normal noise, one column per row.
pub open spec fn noise_of(rows: usize, dim: usize, seed: u64) -> Value {
    let one = tensor::fill_of(Scalar::Int(1), seq![1usize]);
    tensor::fused_of(
        Fused::Draw(Kind::Normal.code_of(), 1, seed),
        seq![tensor::fill_of(Scalar::Int(0), seq![1usize]), one, one],
        seq![rows, dim, 1usize],
    )
}

/// The mean plus a factor, one matrix per row, times noise.
pub open spec fn shifted_op(t: Tape, g: Gaussian, wide: Traced, rows: usize, seed: u64, dims: Seq<usize>) -> Result<
    (Tape, Traced),
    Fault,
> {
    ops::next(
        ops::product_op(t, Product::Plain, wide, ops::untracked(noise_of(rows, g.dim(), seed))),
        |t1: Tape, v: Traced|
            ops::next(
                ops::reshape_op(t1, v, dims),
                |t2: Tape, w: Traced| ops::binary_op(t2, Binary::Add, g.loc, w),
            ),
    )
}

/// One draw per row, shaped `[..batch, d]`.
pub open spec fn rsample_op(t: Tape, g: Gaussian, seed: u64) -> Result<(Tape, Traced), Fault> {
    let (rows, d) = (g.rows(), g.dim());
    ops::next(
        lower_op(t, g),
        |t1: Tape, lower: Traced|
            ops::next(
                ops::reshape_op(t1, lower, seq![rows, d, d]),
                |t2: Tape, tril: Traced| shifted_op(t2, g, tril, rows, seed, g.loc.value.dims),
            ),
    )
}

/// `n` draws per row, shaped `[n, ..batch, d]`: the factor is shared across the sample
/// axis.
pub open spec fn rsample_n_op(t: Tape, g: Gaussian, n: usize, seed: u64) -> Result<
    (Tape, Traced),
    Fault,
> {
    let (rows, d) = (g.rows(), g.dim());
    let dims = seq![n] + g.loc.value.dims;
    if rows * n > usize::MAX {
        Err(Fault::Shape(ops::count_message(dims)))
    } else {
        let all = (rows * n) as usize;
        ops::next(
            lower_op(t, g),
            |t0: Tape, lower: Traced|
                ops::next(
                    ops::reshape_op(t0, lower, seq![rows, d, d]),
                    |t1: Tape, tril: Traced|
                        ops::next(
                            ops::reshape_op(t1, tril, tril.value.dims.insert(0, 1usize)),
                            |t2: Tape, one: Traced|
                                ops::next(
                                    ops::expand_op(t2, one, seq![n, rows, d, d]),
                                    |t3: Tape, spread: Traced|
                                        ops::next(
                                            ops::reshape_op(t3, spread, seq![all, d, d]),
                                            |t4: Tape, wide: Traced|
                                                shifted_op(t4, g, wide, all, seed, dims),
                                        ),
                                ),
                        ),
                ),
        )
    }
}

/// The axes of an identity that broadcasts against the factor.
pub open spec fn mask_dims(batch: nat, dim: usize) -> Seq<usize> {
    Seq::new(batch, |i: int| 1usize) + seq![dim, dim]
}

/// The diagonal of the factor, `[..batch, d]`.
pub open spec fn diag_op(t: Tape, g: Gaussian) -> Result<(Tape, Traced), Fault> {
    match tensor::reshape_of(identity(g.dim()), mask_dims(g.batch().len(), g.dim())) {
        Err(f) => Err(f),
        Ok(mask) => ops::next(
            ops::binary_op(t, Binary::Mul, g.tril, ops::untracked(mask)),
            |u: Tape, v: Traced| ops::sum_away_op(u, v, (g.tril.value.dims.len() - 1) as usize),
        ),
    }
}

/// The logarithms of the diagonal summed, plus the entropy of a standard normal.
pub open spec fn entropy_op(t: Tape, g: Gaussian) -> Result<(Tape, Traced), Fault> {
    ops::next(
        diag_op(t, g),
        |t1: Tape, d: Traced|
            {
                let (t2, a) = ops::pointwise_op(t1, Unary::Abs, d);
                let (t3, l) = ops::pointwise_op(t2, Unary::Log, a);
                ops::next(
                    ops::sum_away_op(t3, l, (d.value.dims.len() - 1) as usize),
                    |t4: Tape, v: Traced|
                        Ok(
                            ops::pointwise_op(
                                t4,
                                Unary::AddScalar(Scalar::NormalEntropy(g.dim() as u64)),
                                v,
                            ),
                        ),
                )
            },
    )
}

/// The diagonal of the covariance: the squares of the lower triangle summed along its rows.
pub open spec fn variance_of_factor(tril: Value, dim: usize) -> Result<Value, Fault> {
    rule::onward(
        lower_of(tril, dim),
        |l: Value|
            rule::onward(
                tensor::binary_of(Binary::Mul, l, l),
                |v: Value| tensor::sum_away_of(v, (v.dims.len() - 1) as usize),
            ),
    )
}

pub open spec fn debug_text(g: Gaussian) -> Seq<char> {
    "MultivariateNormal("@ + crate::text::bracketed(g.batch()) + " over "@ + crate::text::decimal(
        g.dim() as nat,
    ) + ")"@
}

pub open spec fn compare_message(p: Gaussian, q: Gaussian) -> Seq<char> {
    "cannot compare "@ + debug_text(p) + " with "@ + debug_text(q) + ": the shapes differ"@
}

/// The divergence of every pair of rows.
pub open spec fn divergence(p: Gaussian, q: Gaussian) -> Result<Value, Fault> {
    if p.dim() != q.dim() || p.batch() != q.batch() {
        Err(Fault::Shape(compare_message(p, q)))
    } else {
        Ok(
            tensor::fused_of(
                Fused::MvnKl,
                seq![p.loc.value, p.tril.value, q.loc.value, q.tril.value],
                p.batch(),
            ),
        )
    }
}

fn factor_error(loc: &Vec<usize>, want: &Vec<usize>, got: &Vec<usize>) -> (e: Error)
    requires
        loc@.len() > 0,
        want@ == loc@.push(loc@.last()),
    ensures
        e@ == Fault::Shape(factor_message(loc@, got@)),
{
    let mut text = String::new();
    text.append("a mean of ");
    append_bracketed(&mut text, loc);
    text.append(" wants a factor of ");
    append_bracketed(&mut text, want);
    text.append(", got ");
    append_bracketed(&mut text, got);
    proof {
        assert(text@ =~= factor_message(loc@, got@));
    }
    Error::Shape(text)
}

fn mvn_text(loc: &Vec<usize>, value: &Vec<usize>) -> (r: String)
    ensures
        r@ == mvn_message(loc@, value@),
{
    let mut text = String::new();
    text.append("a multivariate normal over ");
    append_bracketed(&mut text, loc);
    text.append(" cannot score a value of ");
    append_bracketed(&mut text, value);
    proof {
        assert(text@ =~= mvn_message(loc@, value@));
    }
    text
}

fn eye(dim: usize) -> (r: Tensor)
    ensures
        r@ == identity(dim),
{
    let none: Vec<Tensor> = Vec::new();
    proof {
        assert(tensor::values(none@) =~= Seq::<Value>::empty());
    }
    Tensor::fused(Fused::Eye, &none, square(dim))
}

fn lower_ones(dim: usize) -> (r: Tensor)
    ensures
        r@ == triangle(dim),
{
    let none: Vec<Tensor> = Vec::new();
    proof {
        assert(tensor::values(none@) =~= Seq::<Value>::empty());
    }
    Tensor::fused(Fused::Lower, &none, square(dim))
}

fn square(dim: usize) -> (r: Shape)
    ensures
        r@ == seq![dim, dim],
{
    let mut dims: Vec<usize> = Vec::new();
    dims.push(dim);
    dims.push(dim);
    proof {
        assert(dims@ =~= seq![dim, dim]);
    }
    Shape::new(dims)
}

fn cube(a: usize, b: usize, c: usize) -> (r: Shape)
    ensures
        r@ == seq![a, b, c],
{
    let mut dims: Vec<usize> = Vec::new();
    dims.push(a);
    dims.push(b);
    dims.push(c);
    proof {
        assert(dims@ =~= seq![a, b, c]);
    }
    Shape::new(dims)
}

fn noise(rows: usize, dim: usize, seed: u64) -> (r: Tensor)
    ensures
        r@ == noise_of(rows, dim, seed),
{
    let zero = Tensor::zeros(one_long());
    let one = Tensor::ones(one_long());
    Tensor::fused(
        Fused::Draw(Kind::Normal.code(), 1, seed),
        &three(&zero, &one, &one),
        cube(rows, dim, 1),
    )
}

impl MultivariateNormal {
    #[verifier::type_invariant]
    closed spec fn inv(self) -> bool {
        &&& self@.wf()
        &&& self.batch@ == self@.batch()
        &&& self.dim == self@.dim()
        &&& self.rows == shape::product(self.batch@)
        &&& self.count == shape::product(self.loc@.value.dims)
    }

    /// From a mean `[..batch, d]` and the lower-triangular factor of the covariance,
    /// `[..batch, d, d]`. Only the lower triangle is read: whatever is above the diagonal
    /// is ignored rather than checked.
    pub fn from_scale_tril(loc: Var, scale_tril: Var) -> (r: Result<Self, Error>)
        ensures
            crate::error::agrees(r, gaussian_of(loc@, scale_tril@)),
    {
        let rank: usize = loc.rank();
        if rank == 0 {
            return Err(Error::shape("a multivariate normal needs a trailing event axis"));
        }
        let dim: usize = loc.shape().dim_from_end(0);
        let batch = loc.shape().without(rank - 1);
        proof {
            assert(batch@ =~= loc@.value.dims.drop_last());
        }
        let mut want = copied(loc.dims());
        want.push(dim);
        if !same_list(scale_tril.dims(), &want) {
            return Err(factor_error(loc.dims(), &want, scale_tril.dims()));
        }
        proof {
            assert(want.len() == loc@.value.dims.len() + 1);
        }
        match (loc.shape().checked_elements(), batch.checked_elements()) {
            (Some(count), Some(rows)) => Ok(
                MultivariateNormal { loc, scale_tril, batch, dim, rows, count },
            ),
            _ => Err(count_error(loc.dims())),
        }
    }

    /// From a mean and a covariance matrix, factored here.
    ///
    /// The factorisation floors a pivot that is not positive rather than failing, so a
    /// covariance that is not positive definite gives a distribution whose densities
    /// mean nothing.
    pub fn from_covariance(loc: Var, covariance: &Tensor) -> (r: Result<Self, Error>)
        ensures
            crate::error::agrees(
                r,
                gaussian_of(loc@, ops::untracked(factored(covariance@))),
            ),
    {
        let out = Tensor::fused(
            Fused::Cholesky,
            &just(covariance),
            covariance.shape().clone(),
        );
        MultivariateNormal::from_scale_tril(loc, Var::constant(out))
    }

    /// A Gaussian with a diagonal covariance, given its standard deviation per axis.
    pub fn diagonal(loc: Var, scale: &Tensor) -> (r: Result<Self, Error>)
        ensures
            crate::error::agrees(
                r,
                if loc@.value.dims.len() == 0 {
                    Err(Fault::Shape("a multivariate normal needs a trailing event axis"@))
                } else {
                    match diagonal_factor(loc@.value.dims, scale@) {
                        Err(f) => Err(f),
                        Ok(tril) => gaussian_of(loc@, ops::untracked(tril)),
                    }
                },
            ),
    {
        if loc.rank() == 0 {
            return Err(Error::shape("a multivariate normal needs a trailing event axis"));
        }
        let dim: usize = loc.shape().dim_from_end(0);
        let len: usize = match scale.shape().checked_elements() {
            Some(n) => n,
            None => {
                return Err(count_error(scale.dims()));
            },
        };
        let rows: usize = len / if dim == 0 {
            1
        } else {
            dim
        };
        let full = cube(rows, dim, dim);
        let column = scale.reshape(&cube(rows, dim, 1))?;
        let spread = column.expand(&full)?;
        let one = eye(dim).reshape(&cube(1, dim, dim))?;
        let wide = one.expand(&full)?;
        let product = Tensor::binary(Binary::Mul, &spread, &wide)?;
        let mut dims = copied(loc.dims());
        dims.push(dim);
        let tril = product.reshape(&Shape::new(dims))?;
        MultivariateNormal::from_scale_tril(loc, Var::constant(tril))
    }

    /// The mean, as given.
    pub fn loc(&self) -> (r: &Var)
        ensures
            r@ == self@.loc,
    {
        &self.loc
    }

    /// The factor, as given.
    pub fn scale_tril(&self) -> (r: &Var)
        ensures
            r@ == self@.tril,
    {
        &self.scale_tril
    }

    /// The event dimension.
    pub fn dim(&self) -> (r: usize)
        ensures
            r == self@.dim(),
    {
        proof {
            use_type_invariant(self);
        }
        self.dim
    }

    /// The lower triangle of the factor.
    fn lower(&self, s: &mut Session) -> (r: Result<Var, Error>)
        ensures
            ops::same_value(r, final(s)@, lower_op(old(s)@, self@)),
    {
        proof {
            use_type_invariant(self);
        }
        let mask = lower_ones(self.dim);
        let out = Tensor::binary(Binary::Gated, &mask, self.scale_tril.tensor())?;
        let rule: Rule = RuleOf::Mul(
            self.scale_tril.is_tracked(),
            false,
            self.scale_tril.tensor().clone(),
            mask.clone(),
        );
        let mut at: Vec<Option<Trace>> = Vec::new();
        also(&mut at, &self.scale_tril);
        also(&mut at, &Var::constant(mask));
        proof {
            assert(var::places(at@) =~= seq![self@.tril.trace, None]);
        }
        Ok(Var::record(s, out, &at, rule))
    }

    fn shifted(&self, s: &mut Session, wide: &Var, rows: usize, seed: u64, shape: &Shape) -> (r: Result<
        Var,
        Error,
    >)
        ensures
            ops::same_value(
                r,
                final(s)@,
                shifted_op(old(s)@, self@, wide@, rows, seed, shape@),
            ),
    {
        proof {
            use_type_invariant(self);
        }
        let v = wide.matmul(s, &Var::constant(noise(rows, self.dim, seed)))?;
        let w = v.reshape(s, shape)?;
        self.loc.add(s, &w)
    }

    /// `n` reparameterised draws in one pass, shaped `[n, ..batch, d]`.
    ///
    /// The noise does not depend on either parameter, so the whole expression is
    /// differentiable in both.
    pub fn rsample_n(&self, s: &mut Session, n: usize, seed: u64) -> (r: Result<Var, Error>)
        ensures
            ops::same_value(r, final(s)@, rsample_n_op(old(s)@, self@, n, seed)),
    {
        proof {
            use_type_invariant(self);
        }
        let target = prefixed(n, self.loc.dims());
        let (rows, d) = (self.rows, self.dim);
        let all: usize = match rows.checked_mul(n) {
            Some(k) => k,
            None => {
                return Err(count_error(target.dims()));
            },
        };
        let lower = self.lower(s)?;
        let tril = lower.reshape(s, &cube(rows, d, d))?;
        let one = tril.unsqueeze(s, 0)?;
        let full = prefixed(n, cube(rows, d, d).dims());
        proof {
            assert(full@ =~= seq![n, rows, d, d]);
        }
        let spread = one.expand(s, &full)?;
        let wide = spread.reshape(s, &cube(all, d, d))?;
        self.shifted(s, &wide, all, seed, &target)
    }

    /// The diagonal of the factor, `[..batch, d]`.
    fn diag(&self, s: &mut Session) -> (r: Result<Var, Error>)
        ensures
            ops::same_value(r, final(s)@, diag_op(old(s)@, self@)),
    {
        proof {
            use_type_invariant(self);
        }
        let leading: usize = self.batch.rank();
        let mut dims: Vec<usize> = Vec::new();
        let mut i: usize = 0;
        while i < leading
            invariant
                i <= leading,
                dims@ == Seq::new(i as nat, |k: int| 1usize),
            decreases leading - i,
        {
            dims.push(1);
            i += 1;
            proof {
                assert(dims@ =~= Seq::new(i as nat, |k: int| 1usize));
            }
        }
        dims.push(self.dim);
        dims.push(self.dim);
        proof {
            assert(dims@ =~= mask_dims(self@.batch().len(), self@.dim()));
        }
        let mask = eye(self.dim).reshape(&Shape::new(dims))?;
        let v = self.scale_tril.mul(s, &Var::constant(mask))?;
        v.sum_away(s, self.scale_tril.rank() - 1)
    }
}

impl Distribution for MultivariateNormal {
    open spec fn batch(&self) -> Seq<usize> {
        self@.batch()
    }

    open spec fn event(&self) -> Seq<usize> {
        seq![self@.dim()]
    }

    open spec fn support_of(&self) -> Support {
        Support::Real
    }

    open spec fn reparameterises(&self) -> bool {
        true
    }

    open spec fn sample_of(&self, t: Tape, seed: u64) -> Result<(Tape, Value), Fault> {
        base::value_of(rsample_op(t, self@, seed))
    }

    open spec fn sample_n_of(&self, t: Tape, n: usize, seed: u64) -> Result<(Tape, Value), Fault> {
        base::value_of(rsample_n_op(t, self@, n, seed))
    }

    open spec fn rsample_of(&self, t: Tape, seed: u64) -> Result<(Tape, Traced), Fault> {
        rsample_op(t, self@, seed)
    }

    open spec fn log_prob_of(&self, t: Tape, value: Traced) -> Result<(Tape, Traced), Fault> {
        mvn_log_prob_op(t, self@, value)
    }

    open spec fn cdf_of(&self, value: Value) -> Result<Value, Fault> {
        Err(Fault::Unsupported("a multivariate normal has no elementary CDF"@))
    }

    open spec fn icdf_of(&self, t: Tape, q: Traced) -> Result<(Tape, Traced), Fault> {
        Err(Fault::Unsupported("a multivariate normal has no elementary quantile"@))
    }

    open spec fn entropy_of(&self, t: Tape) -> Result<(Tape, Traced), Fault> {
        entropy_op(t, self@)
    }

    open spec fn mean_of(&self, t: Tape) -> Result<(Tape, Value), Fault> {
        Ok((t, self@.loc.value))
    }

    open spec fn variance_of(&self, t: Tape) -> Result<(Tape, Value), Fault> {
        base::still(t, variance_of_factor(self@.tril.value, self@.dim()))
    }

    open spec fn mode_of(&self, t: Tape) -> Result<(Tape, Value), Fault> {
        Ok((t, self@.loc.value))
    }

    fn batch_shape(&self) -> (r: Shape) {
        proof {
            use_type_invariant(self);
        }
        self.batch.clone()
    }

    fn event_shape(&self) -> (r: Shape) {
        proof {
            use_type_invariant(self);
        }
        let mut dims: Vec<usize> = Vec::new();
        dims.push(self.dim);
        proof {
            assert(dims@ =~= seq![self@.dim()]);
        }
        Shape::new(dims)
    }

    fn support(&self) -> (r: Support) {
        Support::Real
    }

    fn has_rsample(&self) -> (r: bool) {
        true
    }

    fn sample(&self, s: &mut Session, seed: u64) -> (r: Result<Tensor, Error>) {
        let v = self.rsample(s, seed)?;
        Ok(v.into_tensor())
    }

    fn sample_n(&self, s: &mut Session, n: usize, seed: u64) -> (r: Result<Tensor, Error>) {
        let v = self.rsample_n(s, n, seed)?;
        Ok(v.into_tensor())
    }

    fn rsample(&self, s: &mut Session, seed: u64) -> (r: Result<Var, Error>) {
        proof {
            use_type_invariant(self);
        }
        let lower = self.lower(s)?;
        let tril = lower.reshape(s, &cube(self.rows, self.dim, self.dim))?;
        self.shifted(s, &tril, self.rows, seed, self.loc.shape())
    }

    fn log_prob(&self, s: &mut Session, value: &Var) -> (r: Result<Var, Error>) {
        proof {
            use_type_invariant(self);
        }
        check_rows(
            value.shape(),
            self.loc.shape(),
            self.count,
            mvn_text(self.loc.dims(), value.dims()),
        )?;
        let out_shape = value.shape().without(value.rank() - 1);
        proof {
            assert(out_shape@ =~= value@.value.dims.drop_last());
        }
        let out = Tensor::fused(
            Fused::MvnLogProb,
            &three(self.loc.tensor(), self.scale_tril.tensor(), value.tensor()),
            out_shape,
        );
        let rule: Rule = RuleOf::MvnLogProb(
            value.is_tracked(),
            self.loc.is_tracked(),
            self.scale_tril.is_tracked(),
            value.tensor().clone(),
            self.loc.tensor().clone(),
            self.scale_tril.tensor().clone(),
        );
        let mut at: Vec<Option<Trace>> = Vec::new();
        also(&mut at, value);
        also(&mut at, &self.loc);
        also(&mut at, &self.scale_tril);
        proof {
            assert(var::places(at@) =~= seq![value@.trace, self@.loc.trace, self@.tril.trace]);
        }
        Ok(Var::record(s, out, &at, rule))
    }

    fn cdf(&self, value: &Tensor) -> (r: Result<Tensor, Error>) {
        Err(unsupported("a multivariate normal has no elementary CDF"))
    }

    fn icdf(&self, s: &mut Session, q: &Var) -> (r: Result<Var, Error>) {
        Err(unsupported("a multivariate normal has no elementary quantile"))
    }

    fn entropy(&self, s: &mut Session) -> (r: Result<Var, Error>) {
        broadcast use var::lemma_record_value;

        proof {
            use_type_invariant(self);
        }
        let d = self.diag(s)?;
        let a = d.abs(s);
        let l = a.log(s);
        let v = l.sum_away(s, d.rank() - 1)?;
        Ok(v.add_scalar(s, Scalar::NormalEntropy(self.dim as u64)))
    }

    fn mean(&self, s: &mut Session) -> (r: Result<Tensor, Error>) {
        Ok(self.loc.tensor().clone())
    }

    fn variance(&self, s: &mut Session) -> (r: Result<Tensor, Error>) {
        proof {
            use_type_invariant(self);
        }
        let l = Tensor::binary(Binary::Gated, &lower_ones(self.dim), self.scale_tril.tensor())?;
        let v = Tensor::binary(Binary::Mul, &l, &l)?;
        v.sum_away(v.rank() - 1)
    }

    fn mode(&self, s: &mut Session) -> (r: Result<Tensor, Error>) {
        Ok(self.loc.tensor().clone())
    }
}

fn append_debug(text: &mut String, g: &MultivariateNormal)
    ensures
        final(text)@ == old(text)@ + debug_text(g@),
{
    proof {
        use_type_invariant(g);
    }
    let ghost before = text@;
    text.append("MultivariateNormal(");
    append_bracketed(text, g.batch.dims());
    text.append(" over ");
    append_decimal(text, g.dim as u64);
    text.append(")");
    proof {
        assert(text@ =~= before + debug_text(g@));
    }
}

/// The divergence of one multivariate normal from another of the same shape, as a
/// plain tensor.
pub fn kl_multivariate_normal(p: &MultivariateNormal, q: &MultivariateNormal) -> (r: Result<
    Tensor,
    Error,
>)
    ensures
        crate::error::agrees(r, divergence(p@, q@)),
{
    proof {
        use_type_invariant(p);
        use_type_invariant(q);
    }
    if p.dim != q.dim || !p.batch.same(&q.batch) {
        let mut text = String::new();
        text.append("cannot compare ");
        append_debug(&mut text, p);
        text.append(" with ");
        append_debug(&mut text, q);
        text.append(": the shapes differ");
        proof {
            assert(text@ =~= compare_message(p@, q@));
        }
        return Err(Error::Shape(text));
    }
    Ok(
        Tensor::fused(
            Fused::MvnKl,
            &four(p.loc.tensor(), p.scale_tril.tensor(), q.loc.tensor(), q.scale_tril.tensor()),
            p.batch.clone(),
        ),
    )
}

} // verus!
