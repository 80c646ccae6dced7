//! What a mixer makes of its input before and after its scan, over the real numbers.

use vstd::prelude::*;

use super::mamba3;
use super::mamba3::{Kept, Mamba3Block, Mamba3Mixer, Pieces, Prepared};
use super::mixer_laws;
use super::mixer_laws::{finishes, gated};
use super::vision;
use super::vision::VisionBlock;
use crate::autograd::graph::Tape;
use crate::autograd::ops;
use crate::autograd::rule;
use crate::autograd::rule::RuleOf;
use crate::autograd::var;
use crate::autograd::var::Traced;
use crate::buffer;
use crate::buffer::Reader;
use crate::error::Fault;
use crate::meaning;
use crate::nn::flow;
use crate::nn::flow::World;
use crate::nn::layer_laws;
use crate::nn::layer_laws::{plain, projected, widened};
use crate::nn::linear;
use crate::nn::norm;
use crate::nn::param;
use crate::nn::value_readings::{
    entry_or, heights, inside, lemma_each, lemma_entry, lemma_pair, lemma_reshaped, lemma_var, row,
    stored, stored_opt, weight,
};
use crate::shape;
use crate::ssm::scan;
use crate::ssm::scan::Given;
use crate::tensor;
use crate::tensor::Value;
use crate::term;
use crate::term::{Binary, Scalar, Unary};

verus! {

// -- splits --------------------------------------------------------------------------------

proof fn lemma_pieces(t: Tape, sink: Traced, values: Seq<Value>, k: nat)
    requires
        k <= values.len(),
    ensures
        ops::pieces_op(t, sink, values, k).1.len() == k,
        forall|i: int|
            0 <= i < k ==> (#[trigger] ops::pieces_op(t, sink, values, k).1[i]).value == values[i],
    decreases k,
{
    broadcast use var::lemma_record_value;

    if k > 0 {
        lemma_pieces(t, sink, values, (k - 1) as nat);
    }
}

/// The pieces of a split are the slices that its sizes name.
proof fn lemma_split(t: Tape, a: Traced, sizes: Seq<usize>, axis: usize, k: int)
    requires
        ops::split_op(t, a, sizes, axis) is Ok,
        sizes.len() > 1,
        0 <= k < sizes.len(),
    ensures
        ops::split_op(t, a, sizes, axis)->Ok_0.1.len() == sizes.len(),
        ops::split_op(t, a, sizes, axis)->Ok_0.1[k].value == tensor::piece(a.value, sizes, axis, k),
        tensor::tiles(a.value.dims, sizes, axis),
{
    let values = tensor::split_of(a.value, sizes, axis)->Ok_0;
    if !(a.trace is None || !t.enabled) {
        let (u, sink) = var::record(
            t,
            rule::token(),
            seq![a.trace],
            RuleOf::SplitSink(a.value.dims, sizes, axis),
        );
        lemma_pieces(u, sink, values, values.len());
    }
}

/// A band of the last of three axes.
#[verifier::spinoff_prover]
proof fn lemma_band(w: Reader, a: Value, sizes: Seq<usize>, k: int, r: int, j: int)
    requires
        a.dims.len() == 3,
        w.fits(a),
        tensor::tiles(a.dims, sizes, 2),
        0 <= k < sizes.len(),
        0 <= r,
        0 <= j < sizes[k],
    ensures
        ({
            let v = tensor::piece(a, sizes, 2, k);
            &&& v.dims == seq![a.dims[0], a.dims[1], sizes[k]]
            &&& w.fits(v)
            &&& w.at(v, r * sizes[k] + j) == w.at(a, r * a.dims[2] + tensor::offset(sizes, k) + j)
        }),
{
    let v = tensor::piece(a, sizes, 2, k);
    let (n, len, at) = (a.dims[2] as int, sizes[k] as int, tensor::offset(sizes, k) as int);
    assert(v.dims =~= seq![a.dims[0], a.dims[1], sizes[k]]);
    assert(a.dims.skip(3) =~= Seq::<usize>::empty());
    let u = buffer::inner(a.dims, 2);
    assert(u == 1);
    let i = r * len + j;
    lemma_offset(sizes, k);
    assert(w.at(v, i) == w.at(a, buffer::sliced(a.dims, 2, at, len, i)));
    vstd::arithmetic::div_mod::lemma_fundamental_div_mod_converse(i, len, r, j);
    assert(len * 1 == len && (r * n + at) * 1 == r * n + at) by (nonlinear_arith);
}

proof fn lemma_offset(sizes: Seq<usize>, k: int)
    requires
        0 <= k <= sizes.len(),
    ensures
        tensor::offset(sizes, k) <= tensor::total(sizes),
    decreases sizes.len(),
{
    if k < sizes.len() {
        lemma_offset(sizes.drop_last(), k);
        assert(sizes.drop_last().take(k) =~= sizes.take(k));
    } else {
        assert(sizes.take(k) =~= sizes);
    }
}

// -- the pieces of the projection ----------------------------------------------------------

/// A mixer that runs forward in time, with the parameters of its input projection.
pub open spec fn projects(w: Reader, g: World, m: Mamba3Mixer, input: Traced, total: usize) -> bool {
    &&& !m.bidirectional
    &&& total > 0
    &&& input.value.dims.len() == 3
    &&& w.fits(input.value)
    &&& plain(w, g, m.in_proj, input.value.dims[2], total)
    &&& m.in_proj.lora matches Some(a) ==> weight(g, a.a).dims[1] > 0
    &&& tensor::total(mamba3::piece_widths(m.widths)) == total
    &&& m.widths.conv == m.widths.inner + m.widths.maps + m.widths.maps
}

/// Column `j` of the input projection of row `r` of an input.
pub open spec fn column(w: Reader, g: World, m: Mamba3Mixer, input: Value, total: usize, r: int, j: int) -> real {
    projected(w, g, m.in_proj, row(w, input, r, input.dims[2] as int), total as int, j)
}

/// The input projection.
#[verifier::spinoff_prover]
proof fn lemma_whole(w: Reader, g: World, m: Mamba3Mixer, input: Traced, total: usize, r: int, j: int)
    requires
        projects(w, g, m, input, total),
        0 <= r < heights(input.value.dims),
        0 <= j < total,
    ensures
        ({
            let y = mamba3::fused_op(g, m, input);
            &&& y is Ok
            &&& y->Ok_0.0.store == g.store
            &&& y->Ok_0.1.value.dims == seq![input.value.dims[0], input.value.dims[1], total]
            &&& w.fits(y->Ok_0.1.value)
            &&& w.at(y->Ok_0.1.value, r * total + j) == column(w, g, m, input.value, total, r, j)
        }),
{
    reveal(mamba3::fused_op);
    layer_laws::law_projection_is_affine(w, g, m.in_proj, input, total, r, j);
    assert(widened(input.value.dims, total) =~= seq![
        input.value.dims[0],
        input.value.dims[1],
        total,
    ]);
}

/// A mixer cuts its projection into what gates it, what is convolved, the step sizes, and the
/// mixing coefficients where it has them, in this order. Returns the projection, and what is
/// convolved with what comes of it.
#[verifier::spinoff_prover]
pub proof fn law_a_mixer_cuts_its_projection(
    w: Reader,
    g: World,
    m: Mamba3Mixer,
    input: Traced,
    slot: Option<Option<Traced>>,
    total: usize,
    r: int,
    j: int,
) -> (made: (World, Traced, Traced))
    requires
        projects(w, g, m, input, total),
        mamba3::pieces_op(g, m, input, slot) is Ok,
        0 <= r < heights(input.value.dims),
        0 <= j,
    ensures
        ({
            let p = mamba3::pieces_op(g, m, input, slot)->Ok_0.1;
            let (inner, conv, heads) = (m.widths.inner, m.widths.conv, m.widths.heads);
            let rest = inner + conv + heads;
            &&& w.fits(p.z.value)
            &&& p.z.value.dims == seq![input.value.dims[0], input.value.dims[1], inner]
            &&& j < inner ==> w.at(p.z.value, r * inner + j) == column(
                w,
                g,
                m,
                input.value,
                total,
                r,
                j,
            )
            &&& j < conv ==> w.at(made.1.value, r * conv + j) == column(
                w,
                g,
                m,
                input.value,
                total,
                r,
                inner + j,
            )
            &&& w.fits(p.dt.value)
            &&& p.dt.value.dims == seq![input.value.dims[0], input.value.dims[1], heads]
            &&& j < heads ==> w.at(p.dt.value, r * heads + j) == column(
                w,
                g,
                m,
                input.value,
                total,
                r,
                inner + conv + j,
            )
            &&& p.lambda is Some <==> m.widths.lambda > 0
            &&& p.lambda matches Some(l) ==> w.fits(l.value) && (j < m.widths.lambda ==> w.at(
                l.value,
                r * m.widths.lambda + j,
            ) == column(w, g, m, input.value, total, r, rest + j))
            &&& p.theta is Some <==> m.widths.theta > 0
            &&& p.theta matches Some(l) ==> (j < m.widths.theta ==> w.at(
                l.value,
                r * m.widths.theta + j,
            ) == column(w, g, m, input.value, total, r, rest + m.widths.lambda + j))
            // What is convolved is then activated, and cut into the scan's input and its maps.
            &&& mamba3::convolved_op(made.0, m, made.1, input.value.dims[0], slot) matches Ok(c)
                && c.1 == made.2
            &&& made.0.store == g.store
            &&& made.2.value.dims == seq![input.value.dims[0], input.value.dims[1], conv]
                && w.fits(made.2.value) ==> {
                let f = |i: int| w.at(made.2.value, i) * (w.m.f.sigmoid)(w.at(made.2.value, i));
                &&& j < inner ==> w.at(p.x.value, r * inner + j) == f(r * conv + j)
                &&& j < m.widths.maps ==> w.at(p.b.value, r * m.widths.maps + j) == f(
                    r * conv + inner + j,
                )
                &&& j < m.widths.maps ==> w.at(p.c.value, r * m.widths.maps + j) == f(
                    r * conv + inner + m.widths.maps + j,
                )
            }
        }),
{
    broadcast use var::lemma_record_value;

    reveal(mamba3::pieces_op);
    let ws = m.widths;
    let (inner, conv, heads) = (ws.inner, ws.conv, ws.heads);
    let sizes = mamba3::piece_widths(ws);
    let d = input.value.dims;
    let rest = inner + conv + heads;
    lemma_sizes(m);
    let (w1, whole) = mamba3::fused_op(g, m, input)->Ok_0;
    let (t2, p) = ops::split_op(w1.tape, whole, sizes, 2)->Ok_0;
    lemma_whole(w, g, m, input, total, r, 0);
    lemma_split(w1.tape, whole, sizes, 2, 0);
    lemma_split(w1.tape, whole, sizes, 2, 1);
    lemma_split(w1.tape, whole, sizes, 2, 2);
    lemma_shape(w, g, m, input, total);
    lemma_piece(w, g, m, input, total, sizes, 0, r, j);
    lemma_piece(w, g, m, input, total, sizes, 1, r, j);
    lemma_piece(w, g, m, input, total, sizes, 2, r, j);
    if ws.lambda > 0 {
        lemma_split(w1.tape, whole, sizes, 2, 3);
        lemma_piece(w, g, m, input, total, sizes, 3, r, j);
    }
    if ws.theta > 0 {
        lemma_split(w1.tape, whole, sizes, 2, sizes.len() - 1);
        lemma_piece(w, g, m, input, total, sizes, sizes.len() - 1, r, j);
    }
    let g2 = World { tape: t2, ..w1 };
    let (w3, xbc, next) = mamba3::convolved_op(g2, m, p[1], d[0], slot)->Ok_0;
    let (t4, active) = ops::pointwise_op(w3.tape, Unary::Silu, xbc);
    let cuts = seq![inner, ws.maps, ws.maps];
    lemma_split(t4, active, cuts, 2, 0);
    lemma_split(t4, active, cuts, 2, 1);
    lemma_split(t4, active, cuts, 2, 2);
    if xbc.value.dims == seq![d[0], d[1], conv] && w.fits(xbc.value) {
        lemma_activated(w, xbc.value, cuts, 0, r, j);
        lemma_activated(w, xbc.value, cuts, 1, r, j);
        lemma_activated(w, xbc.value, cuts, 2, r, j);
        assert(cuts.take(0) =~= Seq::<usize>::empty());
        assert(cuts.take(1) =~= seq![inner]);
        assert(cuts.take(2) =~= seq![inner, ws.maps]);
        assert(seq![inner].drop_last() =~= Seq::<usize>::empty());
        assert(seq![inner, ws.maps].drop_last() =~= seq![inner]);
        reveal_with_fuel(tensor::total, 3);
    }
    (g2, p[1], xbc)
}

proof fn lemma_shape(w: Reader, g: World, m: Mamba3Mixer, input: Traced, total: usize)
    requires
        projects(w, g, m, input, total),
        mamba3::fused_op(g, m, input) is Ok,
        0 < heights(input.value.dims),
    ensures
        mamba3::fused_op(g, m, input)->Ok_0.0.store == g.store,
        mamba3::fused_op(g, m, input)->Ok_0.1.value.dims == seq![
            input.value.dims[0],
            input.value.dims[1],
            total,
        ],
        w.fits(mamba3::fused_op(g, m, input)->Ok_0.1.value),
{
    lemma_whole(w, g, m, input, total, 0, 0);
}

/// Where the pieces of a projection begin.
proof fn lemma_sizes(m: Mamba3Mixer)
    ensures
        ({
            let ws = m.widths;
            let s = mamba3::piece_widths(ws);
            let rest = ws.inner + ws.conv + ws.heads;
            &&& s.len() >= 3
            &&& s[0] == ws.inner && tensor::offset(s, 0) == 0
            &&& s[1] == ws.conv && tensor::offset(s, 1) == ws.inner
            &&& s[2] == ws.heads && tensor::offset(s, 2) == ws.inner + ws.conv
            &&& ws.lambda > 0 ==> s.len() >= 4 && s[3] == ws.lambda && tensor::offset(s, 3) == rest
            &&& ws.theta > 0 ==> s[s.len() - 1] == ws.theta && tensor::offset(s, s.len() - 1) == rest
                + ws.lambda
            &&& ws.theta > 0 && ws.lambda == 0 ==> s.len() == 4
        }),
{
    let ws = m.widths;
    let s = mamba3::piece_widths(ws);
    let (a, b, c, l) = (ws.inner, ws.conv, ws.heads, ws.lambda);
    reveal_with_fuel(tensor::total, 6);
    assert(s.take(0) =~= Seq::<usize>::empty());
    assert(s.take(1) =~= seq![a]);
    assert(s.take(2) =~= seq![a, b]);
    assert(s.take(3) =~= seq![a, b, c]);
    assert(seq![a].drop_last() =~= Seq::<usize>::empty());
    assert(seq![a, b].drop_last() =~= seq![a]);
    assert(seq![a, b, c].drop_last() =~= seq![a, b]);
    if l > 0 && ws.theta > 0 {
        assert(s.take(4) =~= seq![a, b, c, l]);
        assert(seq![a, b, c, l].drop_last() =~= seq![a, b, c]);
    }
}

#[verifier::spinoff_prover]
proof fn lemma_piece(
    w: Reader,
    g: World,
    m: Mamba3Mixer,
    input: Traced,
    total: usize,
    sizes: Seq<usize>,
    k: int,
    r: int,
    j: int,
)
    requires
        projects(w, g, m, input, total),
        sizes == mamba3::piece_widths(m.widths),
        mamba3::fused_op(g, m, input) is Ok,
        mamba3::fused_op(g, m, input)->Ok_0.1.value.dims == seq![
            input.value.dims[0],
            input.value.dims[1],
            total,
        ],
        w.fits(mamba3::fused_op(g, m, input)->Ok_0.1.value),
        0 <= k < sizes.len(),
        0 <= r < heights(input.value.dims),
        0 <= j,
    ensures
        ({
            let whole = mamba3::fused_op(g, m, input)->Ok_0.1.value;
            let v = tensor::piece(whole, sizes, 2, k);
            &&& v.dims == seq![input.value.dims[0], input.value.dims[1], sizes[k]]
            &&& w.fits(v)
            &&& j < sizes[k] ==> w.at(v, r * sizes[k] + j) == column(
                w,
                g,
                m,
                input.value,
                total,
                r,
                tensor::offset(sizes, k) + j,
            )
        }),
{
    let whole = mamba3::fused_op(g, m, input)->Ok_0.1.value;
    let v = tensor::piece(whole, sizes, 2, k);
    assert(v.dims =~= seq![input.value.dims[0], input.value.dims[1], sizes[k]]);
    assert(w.of(v.term).dims =~= v.dims);
    if j < sizes[k] {
        lemma_band(w, whole, sizes, k, r, j);
        lemma_offset_within(sizes, k);
        let at = tensor::offset(sizes, k) + j;
        lemma_whole(w, g, m, input, total, r, at);
        assert(r * total + tensor::offset(sizes, k) + j == r * total + at);
    }
}

proof fn lemma_offset_within(sizes: Seq<usize>, k: int)
    requires
        0 <= k < sizes.len(),
    ensures
        tensor::offset(sizes, k) + sizes[k] <= tensor::total(sizes),
{
    lemma_offset(sizes, k + 1);
    assert(sizes.take(k + 1).drop_last() =~= sizes.take(k));
}

#[verifier::spinoff_prover]
proof fn lemma_activated(w: Reader, x: Value, cuts: Seq<usize>, k: int, r: int, j: int)
    requires
        x.dims.len() == 3,
        w.fits(x),
        tensor::tiles(x.dims, cuts, 2),
        0 <= k < cuts.len(),
        0 <= r,
        0 <= j,
    ensures
        j < cuts[k] ==> ({
            let i = r * x.dims[2] + tensor::offset(cuts, k) + j;
            w.at(
                tensor::piece(tensor::unary_of(Unary::Silu, x), cuts, 2, k),
                r * cuts[k] + j,
            ) == w.at(x, i) * (w.m.f.sigmoid)(w.at(x, i))
        }),
{
    if j < cuts[k] {
        let i = r * x.dims[2] + tensor::offset(cuts, k) + j;
        lemma_each(w, Unary::Silu, x, i);
        lemma_band(w, tensor::unary_of(Unary::Silu, x), cuts, k, r, j);
    }
}

// -- the whole mixer -----------------------------------------------------------------------

/// A mixer that runs forward in time gives, row by row, the output projection of its scan's
/// output times `z sigmoid(z)`, where `z` is the first piece of its input projection.
/// Returns what the scan is given, and its output.
#[verifier::spinoff_prover]
pub proof fn law_a_mixer_gates_its_scan(
    w: Reader,
    g: World,
    m: Mamba3Mixer,
    input: Traced,
    cache: Option<Kept>,
    outputs: usize,
    r: int,
    c: int,
) -> (made: (World, Given, Traced))
    requires
        !m.bidirectional,
        mamba3::windowed_op(g, m, input, cache) is Ok,
        mamba3::given_op(g, m, input, cache) matches Ok(q) ==> {
            let y = scan::scan_op(q.0.tape, q.1, m.config.chunk_size as u64).1;
            finishes(w, q.0, m, y, q.2, outputs) && 0 <= r < y.value.dims[0] * y.value.dims[1]
        },
        0 < m.widths.inner,
        0 <= c < outputs,
    ensures
        ({
            let k = m.widths.inner as int;
            let q = mamba3::given_op(g, m, input, cache)->Ok_0;
            let p = mamba3::pieces_op(g, m, input, mamba3::slot_of(cache))->Ok_0.1;
            let out = mamba3::windowed_op(g, m, input, cache)->Ok_0;
            &&& mamba3::given_op(g, m, input, cache) is Ok
            &&& made.0 == q.0 && made.1 == q.1
            &&& made.2 == scan::scan_op(q.0.tape, q.1, m.config.chunk_size as u64).1
            &&& q.2 == p.z
            &&& w.at(out.1.value, r * outputs + c) == projected(
                w,
                q.0,
                m.out_proj,
                gated(
                    w,
                    q.0,
                    m.post_gate_norm,
                    row(w, made.2.value, r, k),
                    row(w, p.z.value, r, k),
                ),
                outputs as int,
                c,
            )
            &&& out.2 is Some <==> cache is Some
        }),
{
    reveal(mamba3::windowed_op);
    let (w1, q, z, slot) = mamba3::given_op(g, m, input, cache)->Ok_0;
    lemma_gate_is_first(g, m, input, cache);
    let chunk = m.config.chunk_size as u64;
    let batch = input.value.dims[0];
    let (t2, y) = scan::scan_op(w1.tape, q, chunk);
    let t3 = if cache is Some {
        scan::state_op(
            t2,
            q,
            chunk,
            mamba3::hidden_dims(m, batch),
            mamba3::angle_dims(m, batch),
        ).0
    } else {
        t2
    };
    let g3 = World { tape: t3, ..w1 };
    mixer_laws::law_the_gate_scales_the_scan(w, g3, m, y, z, outputs, r, c);
    let k = m.widths.inner as int;
    let (ys, zs) = (row(w, y.value, r, k), row(w, z.value, r, k));
    let a = gated(w, g3, m.post_gate_norm, ys, zs);
    assert(a =~= gated(w, w1, m.post_gate_norm, ys, zs));
    layer_laws::lemma_same_store(w, w1, g3, m.out_proj.lora, a, outputs as int, c);
    (w1, q, y)
}

proof fn lemma_gate_is_first(g: World, m: Mamba3Mixer, input: Traced, cache: Option<Kept>)
    requires
        mamba3::given_op(g, m, input, cache) is Ok,
    ensures
        mamba3::pieces_op(g, m, input, mamba3::slot_of(cache)) is Ok,
        mamba3::given_op(g, m, input, cache)->Ok_0.2 == mamba3::pieces_op(
            g,
            m,
            input,
            mamba3::slot_of(cache),
        )->Ok_0.1.z,
{
    reveal(mamba3::given_op);
    reveal(mamba3::prepared_op);
}

// -- blocks --------------------------------------------------------------------------------

/// A block of an image model adds to its input what its mixer makes of the normalised input.
#[verifier::spinoff_prover]
pub proof fn law_a_vision_block_adds_to_its_input(
    w: Reader,
    g: World,
    b: VisionBlock,
    input: Traced,
    i: int,
)
    requires
        vision::block_op(g, b, input) is Ok,
        w.fits(input.value),
        0 <= i < shape::product(input.value.dims),
    ensures
        ({
            let n = norm::rms_op(g, b.norm, input);
            let x = mamba3::mixer_op(n->Ok_0.0, b.mixer, n->Ok_0.1);
            let y = vision::block_op(g, b, input)->Ok_0.1.value;
            &&& n is Ok
            &&& x is Ok
            &&& w.fits(x->Ok_0.1.value) && x->Ok_0.1.value.dims == input.value.dims ==> y.dims
                == input.value.dims && w.at(y, i) == w.at(input.value, i) + w.at(
                x->Ok_0.1.value,
                i,
            )
        }),
{
    broadcast use var::lemma_record_value;

    reveal(vision::block_op);
    let n = norm::rms_op(g, b.norm, input);
    let x = mamba3::mixer_op(n->Ok_0.0, b.mixer, n->Ok_0.1)->Ok_0;
    if w.fits(x.1.value) && x.1.value.dims == input.value.dims {
        lemma_pair(w, Binary::Add, input.value, x.1.value, i);
    }
}

/// What a block makes of its mixer's result.
pub open spec fn summed(w: Reader, b: Mamba3Block, input: Value, mixed: Value, y: Value, i: int) -> bool {
    w.fits(mixed) && mixed.dims == input.dims ==> y.dims == input.dims && w.at(y, i) == w.at(
        mixed,
        i,
    ) + if b.residual {
        w.at(input, i)
    } else {
        0real
    }
}

proof fn lemma_summed(w: Reader, t: Tape, b: Mamba3Block, input: Traced, out: Traced, i: int)
    requires
        w.fits(input.value),
        0 <= i < shape::product(input.value.dims),
    ensures
        mamba3::joined_op(t, b, input, out) matches Ok(y) ==> summed(
            w,
            b,
            input.value,
            out.value,
            y.1.value,
            i,
        ),
{
    broadcast use var::lemma_record_value;

    if w.fits(out.value) && out.value.dims == input.value.dims {
        lemma_pair(w, Binary::Add, input.value, out.value, i);
    }
}

/// A block with a residual adds its input to what its mixer makes of the normalised input, and
/// one without gives that alone: over a window, with a state, and step by step.
#[verifier::spinoff_prover]
pub proof fn law_a_block_adds_its_input(
    w: Reader,
    g: World,
    b: Mamba3Block,
    input: Traced,
    cache: Option<Kept>,
    kept: Kept,
    i: int,
)
    requires
        w.fits(input.value),
        0 <= i < shape::product(input.value.dims),
        norm::rms_op(g, b.norm, input) is Ok,
    ensures
        ({
            let (h, n) = norm::rms_op(g, b.norm, input)->Ok_0;
            &&& mamba3::block_op(g, b, input) matches Ok(y) ==> (mamba3::mixer_op(
                h,
                b.mixer,
                n,
            ) matches Ok(x) && summed(w, b, input.value, x.1.value, y.1.value, i))
            &&& mamba3::block_window_op(g, b, input, cache) matches Ok(y) ==> (mamba3::windowed_op(
                h,
                b.mixer,
                n,
                cache,
            ) matches Ok(x) && summed(w, b, input.value, x.1.value, y.1.value, i) && y.2 == x.2)
            &&& mamba3::block_step_op(g, b, input, kept) matches Ok(y) ==> (mamba3::step_op(
                h,
                b.mixer,
                n,
                kept,
            ) matches Ok(x) && summed(w, b, input.value, x.1.value, y.1.value, i) && y.2 == x.2)
        }),
{
    let (h, n) = norm::rms_op(g, b.norm, input)->Ok_0;
    if let Ok(x) = mamba3::mixer_op(h, b.mixer, n) {
        lemma_summed(w, x.0.tape, b, input, x.1, i);
    }
    if let Ok(x) = mamba3::windowed_op(h, b.mixer, n, cache) {
        lemma_summed(w, x.0.tape, b, input, x.1, i);
    }
    if let Ok(x) = mamba3::step_op(h, b.mixer, n, kept) {
        lemma_summed(w, x.0.tape, b, input, x.1, i);
    }
}

} // verus!
