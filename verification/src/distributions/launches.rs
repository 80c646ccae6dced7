//! What the kernels of the distributions read and write: which element and which row of
//! each operand goes into which element of the result.

use vstd::prelude::*;

use super::draws;
use super::formula;
use super::formula::Point;
use super::kernels;
use super::rows;
use super::univariate::Kind;
use crate::buffer::Buffer;
use crate::layer_kernels;
use crate::meaning;
use crate::meaning::Model;
use crate::shape;
use crate::term::Fused;

verus! {

/// What an operand that broadcasts to `out` holds for element `i`.
pub open spec fn spread(b: Buffer, out: Seq<usize>, i: int) -> real {
    (b.at)(shape::place(i, out, b.dims))
}

/// What a parameter holds for element `i` of draws that tile the batch.
pub open spec fn tiled(b: Buffer, batch: u64, i: int) -> real {
    (b.at)(
        if shape::product(b.dims) == 1 {
            0
        } else {
            i % (batch as int)
        },
    )
}

/// The values element `i` of an elementwise kernel reads.
pub open spec fn point_for(op: Fused, out: Seq<usize>, args: Seq<Buffer>, i: int) -> Point {
    match op {
        Fused::Density(_, _) => Point {
            x: (args[0].at)(i),
            a: spread(args[1], out, i),
            b: spread(args[2], out, i),
            c: spread(args[3], out, i),
            u: 0real,
            v: 0real,
        },
        Fused::DensityGrad(_, _, _) => Point {
            x: (args[1].at)(i),
            a: spread(args[2], out, i),
            b: spread(args[3], out, i),
            c: spread(args[4], out, i),
            u: (args[0].at)(i),
            v: 0real,
        },
        Fused::Summary(_, _) => Point {
            x: 0real,
            a: spread(args[0], out, i),
            b: spread(args[1], out, i),
            c: spread(args[2], out, i),
            u: 0real,
            v: 0real,
        },
        Fused::EntropyGrad(_, _) => Point {
            x: 0real,
            a: spread(args[1], out, i),
            b: spread(args[2], out, i),
            c: spread(args[3], out, i),
            u: (args[0].at)(i),
            v: 0real,
        },
        Fused::Draw(code, batch, seed) => Point {
            x: kernels::uniform_at(kernels::family(code) is Bernoulli, seed, i),
            a: tiled(args[0], batch, i),
            b: tiled(args[1], batch, i),
            c: tiled(args[2], batch, i),
            u: 0real,
            v: 0real,
        },
        Fused::DrawGrad(_, batch, seed, _) => Point {
            x: kernels::uniform_at(false, seed, i),
            a: tiled(args[1], batch, i),
            b: tiled(args[2], batch, i),
            c: tiled(args[3], batch, i),
            u: (args[0].at)(i),
            v: 0real,
        },
        _ => Point { x: 0real, a: 0real, b: 0real, c: 0real, u: 0real, v: 0real },
    }
}

/// A row of an operand whose rows have the given width.
pub open spec fn row_at(b: Buffer, r: int, width: int) -> Seq<real> {
    Seq::new(width as nat, |j: int| (b.at)(r * width + j))
}

/// The row of the parameters that row `r` of a value reads: they broadcast against the value,
/// and are read over and over where a value merely holds copies of their shape.
pub open spec fn param_row(r: int, value: Seq<usize>, batch: Seq<usize>) -> int {
    if shape::compatible(batch, value) && shape::broadcast_dims(batch, value) == value {
        shape::place(r, value, batch)
    } else {
        r % (shape::product(batch) as int)
    }
}

/// The row of the parameters that row `r` of a value reads.
pub fn param_row_of(r: usize, value: &Vec<usize>, batch: &Vec<usize>) -> (k: usize)
    requires
        r < shape::product(value@),
        0 < shape::product(batch@) <= usize::MAX,
    ensures
        k == param_row(r as int, value@, batch@),
        k < shape::product(batch@),
{
    let stretched: bool = match shape::Shape::broadcast(
        &shape::Shape::new(shape::copied(batch)),
        &shape::Shape::new(shape::copied(value)),
    ) {
        Ok(d) => shape::same_list(d.dims(), value),
        Err(_) => false,
    };
    if stretched {
        shape::place_of(r, value, batch)
    } else {
        match shape::checked_product(batch) {
            Some(n) => r % n,
            None => 0,
        }
    }
}

/// The number of entries a row kernel writes per row.
pub open spec fn row_width(op: Fused, args: Seq<Buffer>) -> int {
    let last = args[0].dims.last() as int;
    match op {
        Fused::RowProbs | Fused::RowLogProbGrad | Fused::RowEntropyGrad => last,
        Fused::Cholesky => last * last,
        Fused::MvnGrad(which) => if which == 0 || which == 1 {
            last
        } else {
            last * last
        },
        Fused::DirichletGrad(_) | Fused::DirichletEntropyGrad | Fused::DirichletMoment(_) => last,
        _ => 1,
    }
}

/// The rows that go into row `r` of a result, in the order of the operands.
pub open spec fn rows_read(op: Fused, args: Seq<Buffer>, r: int) -> Seq<Seq<real>> {
    let k = args[0].dims.last() as int;
    match op {
        Fused::RowProbs | Fused::RowEntropy | Fused::RowLogProb => seq![row_at(args[0], r, k)],
        Fused::RowLogProbGrad => seq![row_at(args[0], r, k), seq![(args[2].at)(r)]],
        Fused::RowEntropyGrad | Fused::DirichletEntropyGrad => seq![
            row_at(args[0], r, k),
            seq![(args[1].at)(r)],
        ],
        Fused::RowDrawScore(_, _, n, _) => seq![row_at(args[0], r % (n as int), k)],
        Fused::Cholesky => seq![row_at(args[0], r, k * k)],
        Fused::MvnLogProb => {
            let p = param_row(r, args[2].dims.drop_last(), args[0].dims.drop_last());
            seq![row_at(args[0], p, k), row_at(args[1], p, k * k), row_at(args[2], r, k)]
        },
        Fused::MvnGrad(_) => {
            let p = param_row(r, args[2].dims.drop_last(), args[0].dims.drop_last());
            seq![
                row_at(args[0], p, k),
                row_at(args[1], p, k * k),
                row_at(args[2], r, k),
                seq![(args[3].at)(r)],
            ]
        },
        Fused::MvnKl => seq![
            row_at(args[0], r, k),
            row_at(args[1], r, k * k),
            row_at(args[2], r, k),
            row_at(args[3], r, k * k),
        ],
        Fused::DirichletLogProb | Fused::MultinomialLogProb(_) => {
            let p = param_row(r, args[1].dims.drop_last(), args[0].dims.drop_last());
            seq![row_at(args[0], p, k), row_at(args[1], r, k)]
        },
        Fused::DirichletGrad(_) => {
            let p = param_row(r, args[1].dims.drop_last(), args[0].dims.drop_last());
            seq![row_at(args[0], p, k), row_at(args[1], r, k), seq![(args[2].at)(r)]]
        },
        Fused::DirichletEntropy | Fused::DirichletMoment(_) => seq![row_at(args[0], r, k)],
        _ => Seq::empty(),
    }
}

/// A class as a number.
pub open spec fn number_of(n: nat) -> real {
    n as int as real
}

/// The class that a number names.
pub open spec fn id_of(x: real) -> nat {
    choose|n: nat| number_of(n) == x
}

/// A class as a number names that class.
pub proof fn lemma_id(n: nat)
    ensures
        id_of(number_of(n)) == n,
{
    assert(number_of(n) == number_of(n));
}

/// The class that row `r` of a draw takes.
pub open spec fn class_at(m: Model, op: Fused, args: Seq<Buffer>, r: int) -> nat {
    match op {
        Fused::RowDraw(greedy, by, n, seed) | Fused::RowDrawScore(greedy, by, n, seed) => {
            kernels::class_drawn(
                m,
                greedy,
                kernels::sharpened(
                    m,
                    row_at(args[0], r % (n as int), args[0].dims.last() as int),
                    by,
                ),
                kernels::uniform_at(false, seed, r),
            )
        },
        _ => 0,
    }
}

/// What a row kernel reads besides its rows: a class, or the side of a matrix.
pub open spec fn number_read(m: Model, op: Fused, args: Seq<Buffer>, r: int) -> nat {
    match op {
        Fused::RowLogProb | Fused::RowLogProbGrad => id_of((args[1].at)(r)),
        Fused::RowDrawScore(_, _, _, _) => class_at(m, op, args, r),
        Fused::Cholesky => args[0].dims.last() as nat,
        _ => 0,
    }
}

/// The draw of a Gamma of unit rate for one class of a row: the class stands in the second
/// parameter, and tells the streams of the classes apart.
pub const CLASS_GAMMA: u32 = 64;

/// One Gamma per class of a row.
pub open spec fn gammas(m: Model, seed: u64, r: int, concentration: Seq<real>) -> Seq<real> {
    Seq::new(
        concentration.len(),
        |j: int| (m.f.rejection)(CLASS_GAMMA, seed, r, concentration[j], j as real, 0real),
    )
}

/// Whether an opcode names a kernel that owns a row.
pub open spec fn is_row(op: Fused) -> bool {
    match op {
        Fused::RowProbs | Fused::RowLogProb | Fused::RowLogProbGrad | Fused::RowEntropy => true,
        Fused::RowEntropyGrad | Fused::RowDrawScore(_, _, _, _) | Fused::Cholesky => true,
        Fused::MvnLogProb | Fused::MvnGrad(_) | Fused::MvnKl | Fused::DirichletLogProb => true,
        Fused::DirichletGrad(_) | Fused::DirichletEntropy | Fused::DirichletEntropyGrad => true,
        Fused::DirichletMoment(_) | Fused::MultinomialLogProb(_) => true,
        _ => false,
    }
}

/// What a kernel writes into a result of the given extents; nothing for those of the
/// state-space scan.
pub open spec fn written(m: Model, op: Fused, out: Seq<usize>, args: Seq<Buffer>) -> Option<
    Buffer,
> {
    if kernels::is_elementwise(op) {
        Some(
            Buffer {
                dims: out,
                at: |i: int|
                    kernels::element(
                        formula::calculus(m.f),
                        op,
                        point_for(op, out, args, i),
                    ),
            },
        )
    } else if is_row(op) {
        let width = row_width(op, args);
        Some(
            Buffer {
                dims: out,
                at: |i: int|
                    kernels::row_result(
                        m,
                        op,
                        rows_read(op, args, i / width),
                        number_read(m, op, args, i / width),
                    )[i % width],
            },
        )
    } else {
        match op {
            // A draw that takes more than one uniform number still depends on its seed, its
            // element and the parameters of that element alone.
            Fused::Draw(code, batch, seed) => Some(
                Buffer {
                    dims: out,
                    at: |i: int|
                        (m.f.rejection)(
                            code,
                            seed,
                            i,
                            tiled(args[0], batch, i),
                            tiled(args[1], batch, i),
                            tiled(args[2], batch, i),
                        ),
                },
            ),
            Fused::GumbelNoise(seed) => Some(
                Buffer {
                    dims: out,
                    at: |i: int|
                        draws::lane_draw(
                            formula::calculus(m.f),
                            Kind::Gumbel,
                            Point {
                                x: kernels::uniform_at(false, seed, i),
                                a: 0real,
                                b: 1real,
                                c: 0real,
                                u: 0real,
                                v: 0real,
                            },
                        ),
                },
            ),
            Fused::DirichletDraw(n, seed) => {
                let k = args[0].dims.last() as int;
                Some(
                    Buffer {
                        dims: out,
                        at: |i: int|
                            {
                                let g = gammas(
                                    m,
                                    seed,
                                    i / k,
                                    row_at(args[0], (i / k) % (n as int), k),
                                );
                                g[i % k] / rows::sum(g, g.len())
                            },
                    },
                )
            },
            Fused::MultinomialDraw(trials, n, seed) => {
                let k = args[0].dims.last() as int;
                Some(
                    Buffer {
                        dims: out,
                        at: |i: int|
                            (m.f.share)(
                                trials,
                                seed,
                                i / k,
                                row_at(args[0], (i / k) % (n as int), k),
                                i % k,
                            ),
                    },
                )
            },
            Fused::RowDraw(_, _, _, _) => Some(
                Buffer { dims: out, at: |i: int| number_of(class_at(m, op, args, i)) },
            ),
            Fused::IdsToFloat => Some(Buffer { dims: out, at: args[0].at }),
            Fused::FloatToIds => Some(
                Buffer {
                    dims: out,
                    at: |i: int|
                        if (args[0].at)(i) < 0real {
                            0real
                        } else {
                            (m.f.floor)((args[0].at)(i))
                        },
                },
            ),
            Fused::Eye => Some(
                Buffer {
                    dims: out,
                    at: |i: int|
                        meaning::indicator(i / (out[1] as int) == i % (out[1] as int)),
                },
            ),
            Fused::Lower => Some(
                Buffer {
                    dims: out,
                    at: |i: int|
                        meaning::indicator(i % (out[1] as int) <= i / (out[1] as int)),
                },
            ),
            _ => layer_kernels::written(m, op, out, args),
        }
    }
}

} // verus!
