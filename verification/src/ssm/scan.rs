//! The state-space scan.
//!
//! The scan is a kernel of its executor, like the other fused kernels. What stands here
//! is what it is given, the shapes of what it gives back, and how each result is put on
//! the tape.

use vstd::prelude::*;

use crate::autograd::fused;
use crate::autograd::graph::{Session, Tape};
use crate::autograd::ops;
use crate::autograd::ops::also;
use crate::autograd::rule;
use crate::autograd::rule::{Rule, RuleOf, ScanOf, extras_of, scan_inputs};
use crate::autograd::var;
use crate::autograd::var::{Place, Trace, Traced, Var};
use crate::nn::init::{block, four};
use crate::shape::Shape;
use crate::tensor;
use crate::tensor::{Tensor, Value};
use crate::term::{Fused, Scalar};

verus! {

/// The state a scan hands to the next window.
pub struct SsmState {
    /// `[batch, heads, head_dim, d_state]`.
    pub hidden: Var,
    /// `[batch, heads, d_state / 2]`, where the state rotates.
    pub angle: Option<Var>,
}

/// A state as a mathematical value.
pub struct Carried {
    pub hidden: Traced,
    pub angle: Option<Traced>,
}

pub open spec fn traced_opt(v: Option<Var>) -> Option<Traced> {
    match v {
        Some(x) => Some(x@),
        None => None,
    }
}

impl View for SsmState {
    type V = Carried;

    open spec fn view(&self) -> Carried {
        Carried { hidden: self.hidden@, angle: traced_opt(self.angle) }
    }
}

pub(crate) fn copied_var(v: &Option<Var>) -> (r: Option<Var>)
    ensures
        traced_opt(r) == traced_opt(*v),
{
    match v {
        Some(x) => Some(x.clone()),
        None => None,
    }
}

pub(crate) fn detached_var(v: &Option<Var>) -> (r: Option<Var>)
    ensures
        traced_opt(r) == detached_opt(traced_opt(*v)),
{
    match v {
        Some(x) => Some(x.detach()),
        None => None,
    }
}

/// A value without its tape.
pub open spec fn detached(v: Traced) -> Traced {
    ops::untracked(v.value)
}

pub open spec fn detached_opt(v: Option<Traced>) -> Option<Traced> {
    match v {
        Some(x) => Some(detached(x)),
        None => None,
    }
}

impl Clone for SsmState {
    fn clone(&self) -> (r: Self)
        ensures
            r@ == self@,
    {
        SsmState { hidden: self.hidden.clone(), angle: copied_var(&self.angle) }
    }
}

/// A zero state.
pub open spec fn zeros_of(batch: usize, heads: usize, head_dim: usize, d_state: usize, rotates: bool) -> Carried {
    Carried {
        hidden: ops::untracked(
            tensor::fill_of(Scalar::Int(0), seq![batch, heads, head_dim, d_state]),
        ),
        angle: if rotates {
            Some(
                ops::untracked(
                    tensor::fill_of(
                        Scalar::Int(0),
                        seq![batch, heads, (d_state / 2) as usize],
                    ),
                ),
            )
        } else {
            None
        },
    }
}

/// The number of elements of a value that may be missing.
pub open spec fn elements(v: Option<Traced>) -> nat {
    match v {
        Some(x) => crate::shape::product(x.value.dims),
        None => 0,
    }
}

/// Count the elements of a value that may be missing.
pub(crate) fn count_opt(v: &Option<Var>) -> (r: Option<usize>)
    ensures
        match r {
            Some(n) => n == elements(traced_opt(*v)),
            None => elements(traced_opt(*v)) > usize::MAX,
        },
{
    match v {
        Some(x) => x.shape().checked_elements(),
        None => Some(0),
    }
}

impl SsmState {
    /// A zero state for `batch` sequences.
    pub fn zeros(batch: usize, heads: usize, head_dim: usize, d_state: usize, rotates: bool) -> (r:
        Self)
        ensures
            r@ == zeros_of(batch, heads, head_dim, d_state, rotates),
    {
        let angle = if rotates {
            Some(Var::constant(Tensor::zeros(block(batch, heads, d_state / 2))))
        } else {
            None
        };
        SsmState {
            hidden: Var::constant(Tensor::zeros(four(batch, heads, head_dim, d_state))),
            angle,
        }
    }

    /// Drop every tape link.
    pub fn detach(&self) -> (r: Self)
        ensures
            r@ == (Carried {
                hidden: detached(self@.hidden),
                angle: detached_opt(self@.angle),
            }),
    {
        SsmState { hidden: self.hidden.detach(), angle: detached_var(&self.angle) }
    }

    /// Elements held by this state; `None` when the count does not fit a machine word.
    pub fn num_elements(&self) -> (r: Option<usize>)
        ensures
            match r {
                Some(n) => n == crate::shape::product(self@.hidden.value.dims) + elements(
                    self@.angle,
                ),
                None => crate::shape::product(self@.hidden.value.dims) + elements(self@.angle)
                    > usize::MAX,
            },
    {
        let h: usize = self.hidden.shape().checked_elements()?;
        let a: usize = count_opt(&self.angle)?;
        h.checked_add(a)
    }
}

/// What a scan is given.
pub struct ScanInputs {
    pub x: Var,
    pub b: Var,
    pub c: Var,
    pub dt: Var,
    pub a_log: Var,
    pub lambda: Var,
    pub theta: Option<Var>,
    pub skip: Option<Var>,
    pub state: Option<SsmState>,
}

/// What a scan is given, as a mathematical value.
pub struct Given {
    pub x: Traced,
    pub b: Traced,
    pub c: Traced,
    pub dt: Traced,
    pub a_log: Traced,
    pub lambda: Traced,
    pub theta: Option<Traced>,
    pub skip: Option<Traced>,
    pub state: Option<Carried>,
}

impl View for ScanInputs {
    type V = Given;

    open spec fn view(&self) -> Given {
        Given {
            x: self.x@,
            b: self.b@,
            c: self.c@,
            dt: self.dt@,
            a_log: self.a_log@,
            lambda: self.lambda@,
            theta: traced_opt(self.theta),
            skip: traced_opt(self.skip),
            state: match self.state {
                Some(c) => Some(c@),
                None => None,
            },
        }
    }
}

pub open spec fn hidden_of(g: Given) -> Option<Traced> {
    match g.state {
        Some(c) => Some(c.hidden),
        None => None,
    }
}

pub open spec fn angle_of(g: Given) -> Option<Traced> {
    match g.state {
        Some(c) => c.angle,
        None => None,
    }
}

/// The operands of a scan.
pub open spec fn operands(g: Given) -> ScanOf<Value> {
    ScanOf {
        x: g.x.value,
        b: g.b.value,
        c: g.c.value,
        dt: g.dt.value,
        a_log: g.a_log.value,
        lambda: g.lambda.value,
        theta: fused::opt_value(g.theta),
        skip: fused::opt_value(g.skip),
        state: fused::opt_value(hidden_of(g)),
        angle: fused::opt_value(angle_of(g)),
    }
}

/// Where the operands of a scan sit.
pub open spec fn seats_of(g: Given) -> Seq<Option<Place>> {
    fused::with_place(
        fused::with_place(
            fused::with_place(
                fused::with_place(
                    seq![
                        g.x.trace,
                        g.b.trace,
                        g.c.trace,
                        g.dt.trace,
                        g.a_log.trace,
                        g.lambda.trace,
                    ],
                    g.theta,
                ),
                g.skip,
            ),
            hidden_of(g),
        ),
        angle_of(g),
    )
}

/// One result of a scan, recorded.
pub open spec fn part_op(t: Tape, g: Given, chunk: u64, part: u8, dims: Seq<usize>) -> (Tape, Traced) {
    let o = operands(g);
    var::record(
        t,
        tensor::fused_of(
            Fused::SsmScan(chunk, part, rule::scan_extras(o)),
            rule::scan_args(o),
            dims,
        ),
        seats_of(g),
        RuleOf::SsmScan(chunk, part, o),
    )
}

/// The state after a scan: the hidden state, and the angle where the state rotates.
pub open spec fn state_op(t: Tape, g: Given, chunk: u64, hidden: Seq<usize>, angle: Seq<usize>) -> (
    Tape,
    Carried,
) {
    let (t1, h) = part_op(t, g, chunk, 1, hidden);
    if g.theta is Some {
        let (t2, a) = part_op(t1, g, chunk, 2, angle);
        (t2, Carried { hidden: h, angle: Some(a) })
    } else {
        (t1, Carried { hidden: h, angle: None })
    }
}

/// The output of a scan, shaped like its input.
pub open spec fn scan_op(t: Tape, g: Given, chunk: u64) -> (Tape, Traced) {
    part_op(t, g, chunk, 0, g.x.value.dims)
}

fn keep(v: &Option<Var>) -> (r: Option<Tensor>)
    ensures
        rule::opt(r) == fused::opt_value(traced_opt(*v)),
{
    match v {
        Some(x) => Some(x.tensor().clone()),
        None => None,
    }
}

fn seat(list: &mut Vec<Option<Trace>>, v: &Option<Var>)
    ensures
        var::places(final(list)@) == fused::with_place(
            var::places(old(list)@),
            traced_opt(*v),
        ),
{
    if let Some(x) = v {
        also(list, x);
    }
}

impl ScanInputs {
    fn hidden(&self) -> (r: Option<Var>)
        ensures
            traced_opt(r) == hidden_of(self@),
    {
        match &self.state {
            Some(c) => Some(c.hidden.clone()),
            None => None,
        }
    }

    fn angle(&self) -> (r: Option<Var>)
        ensures
            traced_opt(r) == angle_of(self@),
    {
        match &self.state {
            Some(c) => copied_var(&c.angle),
            None => None,
        }
    }

    fn operands(&self) -> (r: ScanOf<Tensor>)
        ensures
            rule::scan_values(r) == operands(self@),
    {
        ScanOf {
            x: self.x.tensor().clone(),
            b: self.b.tensor().clone(),
            c: self.c.tensor().clone(),
            dt: self.dt.tensor().clone(),
            a_log: self.a_log.tensor().clone(),
            lambda: self.lambda.tensor().clone(),
            theta: keep(&self.theta),
            skip: keep(&self.skip),
            state: keep(&self.hidden()),
            angle: keep(&self.angle()),
        }
    }

    fn seats(&self) -> (r: Vec<Option<Trace>>)
        ensures
            var::places(r@) == seats_of(self@),
    {
        let mut at: Vec<Option<Trace>> = Vec::new();
        also(&mut at, &self.x);
        also(&mut at, &self.b);
        also(&mut at, &self.c);
        also(&mut at, &self.dt);
        also(&mut at, &self.a_log);
        also(&mut at, &self.lambda);
        proof {
            assert(var::places(at@) =~= seq![
                self@.x.trace,
                self@.b.trace,
                self@.c.trace,
                self@.dt.trace,
                self@.a_log.trace,
                self@.lambda.trace,
            ]);
        }
        seat(&mut at, &self.theta);
        seat(&mut at, &self.skip);
        seat(&mut at, &self.hidden());
        seat(&mut at, &self.angle());
        at
    }

    fn part(&self, s: &mut Session, chunk: u64, part: u8, shape: Shape) -> (r: Var)
        ensures
            (final(s)@, r@) == part_op(old(s)@, self@, chunk, part, shape@),
    {
        let o = self.operands();
        let args = scan_inputs(&o);
        let value = Tensor::fused(Fused::SsmScan(chunk, part, extras_of(&o)), &args, shape);
        let rule: Rule = RuleOf::SsmScan(chunk, part, o);
        Var::record(s, value, &self.seats(), rule)
    }
}

/// Run the scan over a window: its output.
pub fn mamba3_scan(s: &mut Session, inputs: &ScanInputs, chunk: u64) -> (r: Var)
    ensures
        (final(s)@, r@) == scan_op(old(s)@, inputs@, chunk),
{
    inputs.part(s, chunk, 0, inputs.x.shape().clone())
}

/// The state to carry past a window.
pub fn mamba3_state(s: &mut Session, inputs: &ScanInputs, chunk: u64, hidden: Shape, angle: Shape) -> (r:
    SsmState)
    ensures
        (final(s)@, r@) == state_op(old(s)@, inputs@, chunk, hidden@, angle@),
{
    let h = inputs.part(s, chunk, 1, hidden);
    let a = if inputs.theta.is_some() {
        Some(inputs.part(s, chunk, 2, angle))
    } else {
        None
    };
    SsmState { hidden: h, angle: a }
}

} // verus!
