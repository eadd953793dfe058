//! What expressions stand for: a real number at each place.
//!
//! An expression denotes a function from indices to real numbers. Sums, products
//! and quotients are those of the reals; rounding does not count. Functions that
//! are not given by arithmetic, such as the exponential, are parameters. A mask
//! element that is negative infinity has no number: it takes part in softmax
//! alone, where it has no weight.

use crate::evaluation::{inside, place};
use crate::lazy::{Op, Tensor, Term};
use crate::scalar::{neg_inf, BinaryFn, Scalar, UnaryFn};
use vstd::arithmetic::power2::pow2;
use vstd::prelude::*;

verus! {

/// Functions of real numbers that arithmetic does not give.
pub ghost struct Functions {
    pub exp: spec_fn(real) -> real,
    pub ln: spec_fn(real) -> real,
    pub sqrt: spec_fn(real) -> real,
    pub sin: spec_fn(real) -> real,
    pub cos: spec_fn(real) -> real,
    pub pow: spec_fn(real, real) -> real,
    /// Gaussian error linear unit in its `tanh` form.
    pub gelu: spec_fn(real) -> real,
    /// Gaussian error linear unit in its `erf` form.
    pub gelu_erf: spec_fn(real) -> real,
}

/// The exponential is positive and grows.
pub open spec fn grows(f: Functions) -> bool {
    &&& forall|x: real| #[trigger] (f.exp)(x) > 0real
    &&& forall|x: real, y: real| x <= y ==> #[trigger] (f.exp)(x) <= #[trigger] (f.exp)(y)
}

/// A number for each index.
pub type Row = spec_fn(int) -> real;

/// A number for each place of a tensor.
pub type Grid = spec_fn(Seq<int>) -> real;

/// The sum of the first `n` numbers.
pub open spec fn sum(n: int, g: Row) -> real
    decreases n,
{
    if n <= 0 {
        0real
    } else {
        sum(n - 1, g) + g(n - 1)
    }
}

/// `m` times a power of two.
pub open spec fn scaled(m: int, e: int) -> real {
    if e >= 0 {
        m as real * pow2(e as nat) as real
    } else {
        m as real / pow2((-e) as nat) as real
    }
}

/// The number with these bits: `low` bits of significand below the bits of the
/// exponent, whose bias is `bias`, and a sign on top.
pub open spec fn decoded(bits: int, low: nat, exponents: int, bias: int) -> real {
    let unit = pow2(low) as int;
    let m = bits % unit;
    let e = (bits / unit) % exponents;
    let size = if e == 0 {
        scaled(m, 1 - bias - low)
    } else {
        scaled(unit + m, e - bias - low)
    };
    if bits / unit / exponents % 2 == 1 {
        -size
    } else {
        size
    }
}

/// The number that a scalar stands for.
pub open spec fn number(f: Functions, s: Scalar) -> real
    decreases s,
{
    match s {
        Scalar::F32(b) => decoded(b as int, 23, 256, 127),
        Scalar::F64(b) => decoded(b as int, 52, 2048, 1023),
        Scalar::Nat(_, n) => n as int as real,
        Scalar::Cast(_, a) => number(f, *a),
        Scalar::Unary(_, g, a) => {
            let x = number(f, *a);
            match g {
                UnaryFn::Neg => -x,
                UnaryFn::Sqrt => (f.sqrt)(x),
                UnaryFn::Exp => (f.exp)(x),
                UnaryFn::Ln => (f.ln)(x),
                UnaryFn::Sin => (f.sin)(x),
                UnaryFn::Cos => (f.cos)(x),
            }
        },
        Scalar::Binary(_, g, a, b) => {
            let x = number(f, *a);
            let y = number(f, *b);
            match g {
                BinaryFn::Add => x + y,
                BinaryFn::Sub => x - y,
                BinaryFn::Mul => x * y,
                BinaryFn::Div => x / y,
                BinaryFn::Pow => (f.pow)(x, y),
                BinaryFn::Max => larger(x, y),
            }
        },
        Scalar::IfPositive(c, a, b) => if number(f, *c) > 0real {
            number(f, *a)
        } else {
            number(f, *b)
        },
    }
}

pub open spec fn larger(x: real, y: real) -> real {
    if x < y {
        y
    } else {
        x
    }
}

/// The logistic function.
pub open spec fn sigmoid(f: Functions, x: real) -> real {
    1real / (1real + (f.exp)(-x))
}

/// `x * sigmoid(x)`.
pub open spec fn silu(f: Functions, x: real) -> real {
    x * sigmoid(f, x)
}

/// The hyperbolic tangent.
pub open spec fn tanh(f: Functions, x: real) -> real {
    ((f.exp)(x) - (f.exp)(-x)) / ((f.exp)(x) + (f.exp)(-x))
}

/// `ln(1 + exp(x))`.
pub open spec fn softplus(f: Functions, x: real) -> real {
    (f.ln)(1real + (f.exp)(x))
}

/// Element `j` of the softmax of `n` numbers, those that are hidden left out.
pub open spec fn share(f: Functions, x: Row, hidden: spec_fn(int) -> bool, n: int, j: int) -> real {
    weight(f, x, hidden, j) / sum(n, |k: int| weight(f, x, hidden, k))
}

/// The exponential of a number that is not hidden.
pub open spec fn weight(f: Functions, x: Row, hidden: spec_fn(int) -> bool, k: int) -> real {
    if hidden(k) {
        0real
    } else {
        (f.exp)(x(k))
    }
}

/// The mean of `n` numbers.
pub open spec fn mean(n: int, g: Row) -> real {
    sum(n, g) / n as real
}

/// Element `j` of `n` numbers brought to mean zero and variance one.
pub open spec fn standard(f: Functions, x: Row, n: int, eps: real, j: int) -> real {
    let m = mean(n, x);
    (x(j) - m) / (f.sqrt)(mean(n, |k: int| (x(k) - m) * (x(k) - m)) + eps)
}

/// Element `j` of `n` numbers brought to mean square one.
pub open spec fn unit_square(f: Functions, x: Row, n: int, eps: real, j: int) -> real {
    x(j) / (f.sqrt)(mean(n, |k: int| x(k) * x(k)) + eps)
}

/// The first index of a least of `n` numbers.
pub open spec fn first_least(g: Row, n: int) -> int
    decreases n,
{
    if n <= 1 {
        0
    } else {
        let k = first_least(g, n - 1);
        if g(n - 1) < g(k) {
            n - 1
        } else {
            k
        }
    }
}

/// The indices of the element at a place in row-major order.
pub open spec fn unplaced(n: int, d: Seq<int>) -> Seq<int>
    decreases d.len(),
{
    if d.len() == 0 {
        seq![]
    } else {
        unplaced(n / d.last(), d.drop_last()).push(n % d.last())
    }
}

/// The indices, aligned at the last axis, of the element that is stretched to `i`.
pub open spec fn under(i: Seq<int>, d: Seq<int>) -> Seq<int> {
    Seq::new(
        d.len(),
        |k: int|
            if d[k] == 1 {
                0
            } else {
                i[i.len() - d.len() + k]
            },
    )
}

/// The place of `p` in a list of axes.
pub open spec fn slot(ax: Seq<int>, p: int) -> int {
    choose|m: int| 0 <= m < ax.len() && ax[m] == p
}

/// The indices `i` with `k[m] == i[ax[m]]`.
pub open spec fn unpermuted(k: Seq<int>, ax: Seq<int>) -> Seq<int> {
    Seq::new(k.len(), |p: int| k[slot(ax, p)])
}

/// An element, or zero beyond the extents.
pub open spec fn or_zero(a: Grid, i: Seq<int>, d: Seq<int>) -> real {
    if inside(i, d) {
        a(i)
    } else {
        0real
    }
}

/// An operation on one operand with the extents `d`; the result has the extents
/// `to`.
pub open spec fn un_elements(
    f: Functions,
    op: Op<int>,
    d: Seq<int>,
    to: Seq<int>,
    a: Grid,
    low: spec_fn(Seq<int>) -> bool,
) -> Grid {
    let last = d.len() - 1;
    match op {
        Op::Neg => |i: Seq<int>| -a(i),
        Op::Exp => |i: Seq<int>| (f.exp)(a(i)),
        Op::Log => |i: Seq<int>| (f.ln)(a(i)),
        Op::Sqrt => |i: Seq<int>| (f.sqrt)(a(i)),
        Op::Sin => |i: Seq<int>| (f.sin)(a(i)),
        Op::Cos => |i: Seq<int>| (f.cos)(a(i)),
        Op::Silu => |i: Seq<int>| silu(f, a(i)),
        Op::Relu => |i: Seq<int>| larger(a(i), 0real),
        Op::Gelu => |i: Seq<int>| (f.gelu)(a(i)),
        Op::GeluErf => |i: Seq<int>| (f.gelu_erf)(a(i)),
        Op::Sigmoid => |i: Seq<int>| sigmoid(f, a(i)),
        Op::Elu(s) => |i: Seq<int>|
            if a(i) > 0real {
                a(i)
            } else {
                number(f, s) * ((f.exp)(a(i)) - 1real)
            },
        Op::MulScalar(s) => |i: Seq<int>| a(i) * number(f, s),
        Op::AddScalar(s) => |i: Seq<int>| a(i) + number(f, s),
        Op::Softmax => |i: Seq<int>|
            share(
                f,
                |k: int| a(i.update(last, k)),
                |k: int| low(i.update(last, k)),
                d.last(),
                i.last(),
            ),
        Op::LayerNorm(eps) => |i: Seq<int>|
            standard(f, |k: int| a(i.update(last, k)), d.last(), number(f, eps), i.last()),
        Op::RmsNorm(eps) => |i: Seq<int>|
            unit_square(f, |k: int| a(i.update(last, k)), d.last(), number(f, eps), i.last()),
        Op::L2Normalize(x, eps) => |i: Seq<int>|
            a(i) / larger(
                (f.sqrt)(sum(d[x], |k: int| a(i.update(x, k)) * a(i.update(x, k)))),
                number(f, eps),
            ),
        Op::Transpose => |i: Seq<int>| a(i.update(last, i[last - 1]).update(last - 1, i[last])),
        Op::Swap(x, y) => |i: Seq<int>| a(i.update(x, i[y]).update(y, i[x])),
        Op::Narrow(x, start, _) => |i: Seq<int>| a(i.update(x, i[x] + start)),
        Op::Pad(x, left, _) => |i: Seq<int>| or_zero(a, i.update(x, i[x] - left), d),
        Op::Repeat(x, times) => |i: Seq<int>| a(i.update(x, i[x] / times)),
        Op::Mean(x) => |i: Seq<int>| mean(d[x], |k: int| a(i.update(x, k))),
        Op::Sum(x) => |i: Seq<int>| sum(d[x], |k: int| a(i.insert(x, k))),
        Op::ArgMin(x) => |i: Seq<int>| first_least(|k: int| a(i.insert(x, k)), d[x]) as real,
        Op::Squeeze(x) => |i: Seq<int>| a(i.insert(x, 0)),
        Op::Unsqueeze(x) => |i: Seq<int>| a(i.remove(x)),
        Op::SplitHeads(_, w) => |i: Seq<int>| a(seq![i[0], i[2], i[1] * w + i[3]]),
        Op::MergeHeads => |i: Seq<int>| a(seq![i[0], i[2] / d[3], i[1], i[2] % d[3]]),
        Op::GlobalAvgPool => |i: Seq<int>|
            mean(d[2], |y: int| mean(d[3], |x: int| a(seq![i[0], i[1], y, x]))),
        Op::Reshape => |i: Seq<int>| a(unplaced(place(i, to), d)),
        Op::BroadcastTo => |i: Seq<int>| a(under(i, d)),
        Op::Permute(a0, a1, a2, a3, a4, a5) => |i: Seq<int>|
            a(unpermuted(i, seq![a0, a1, a2, a3, a4, a5].take(i.len() as int))),
        Op::Chunk(x, n, p) => |i: Seq<int>| a(i.update(x, i[x] + p * (d[x] / n))),
        _ => |i: Seq<int>| 0real,
    }
}

/// Row `i` of the first operand with column `j` of the second.
pub open spec fn matrix_product(a: Grid, b: Grid, da: Seq<int>, db: Seq<int>, i: Seq<int>) -> real {
    let last = da.len() - 1;
    sum(
        da.last(),
        |k: int|
            a(i.update(last, k)) * (if db.len() == 2 {
                b(seq![k, i.last()])
            } else {
                b(i.update(last - 1, k))
            }),
    )
}

/// A window of the signal against a kernel `(c_out, c_in / groups, k)`.
pub open spec fn window1(a: Grid, w: Grid, da: Seq<int>, dw: Seq<int>, s: int, pad: int, g: int, i: Seq<int>) -> real {
    let group = i[1] / (dw[0] / g);
    sum(
        dw[1],
        |c: int|
            sum(
                dw[2],
                |k: int|
                    or_zero(a, seq![i[0], group * dw[1] + c, i[2] * s + k - pad], da) * w(seq![i[1], c, k]),
            ),
    )
}

/// A window of the image against a kernel `(c_out, c_in / groups, k, k)`.
pub open spec fn window2(a: Grid, w: Grid, da: Seq<int>, dw: Seq<int>, s: int, pad: int, g: int, i: Seq<int>) -> real {
    let group = i[1] / (dw[0] / g);
    sum(
        dw[1],
        |c: int|
            sum(
                dw[2],
                |y: int|
                    sum(
                        dw[3],
                        |x: int|
                            or_zero(
                                a,
                                seq![i[0], group * dw[1] + c, i[2] * s + y - pad, i[3] * s + x - pad],
                                da,
                            ) * w(seq![i[1], c, y, x]),
                    ),
            ),
    )
}

/// What all positions of a signal spread to a position under a kernel
/// `(c_in, c_out / groups, k)`.
pub open spec fn spread(a: Grid, w: Grid, da: Seq<int>, dw: Seq<int>, s: int, g: int, i: Seq<int>) -> real {
    let per = da[1] / g;
    let group = i[1] / dw[1];
    sum(
        per,
        |c: int|
            sum(
                da[2],
                |p: int|
                    a(seq![i[0], group * per + c, p]) * or_zero(
                        w,
                        seq![group * per + c, i[1] % dw[1], i[2] - p * s],
                        dw,
                    ),
            ),
    )
}

pub open spec fn bin_elements(
    f: Functions,
    op: Op<int>,
    da: Seq<int>,
    db: Seq<int>,
    a: Grid,
    b: Grid,
) -> Grid {
    match op {
        Op::Add => |i: Seq<int>| a(i) + b(i),
        Op::Sub => |i: Seq<int>| a(i) - b(i),
        Op::Mul => |i: Seq<int>| a(i) * b(i),
        Op::Div => |i: Seq<int>| a(i) / b(i),
        Op::BroadcastAdd => |i: Seq<int>| a(under(i, da)) + b(under(i, db)),
        Op::BroadcastSub => |i: Seq<int>| a(under(i, da)) - b(under(i, db)),
        Op::BroadcastMul => |i: Seq<int>| a(under(i, da)) * b(under(i, db)),
        Op::MatMul => |i: Seq<int>| matrix_product(a, b, da, db, i),
        Op::Linear => |i: Seq<int>| matrix_product(a, b, da, db, i),
        Op::Concat(x) => |i: Seq<int>|
            if i[x] < da[x] {
                a(i)
            } else {
                b(i.update(x, i[x] - da[x]))
            },
        Op::IndexSelect(x) => |i: Seq<int>| a(i.update(x, b(seq![i[x]]).floor())),
        Op::Conv1d(s, p, g) => |i: Seq<int>| window1(a, b, da, db, s, p, g, i),
        Op::Conv2d(s, p, g) => |i: Seq<int>| window2(a, b, da, db, s, p, g, i),
        Op::ConvTranspose1d(s, g) => |i: Seq<int>| spread(a, b, da, db, s, g, i),
        _ => |i: Seq<int>| 0real,
    }
}

/// The rotation of the two halves of a head.
pub open spec fn rotated(a: Grid, c: Grid, s: Grid, half: int, i: Seq<int>) -> real {
    let (p, k) = (i[2], i[3]);
    if k < half {
        a(i) * c(seq![p, k]) - a(i.update(3, k + half)) * s(seq![p, k])
    } else {
        a(i) * c(seq![p, k]) + a(i.update(3, k - half)) * s(seq![p, k])
    }
}

pub open spec fn tri_elements(
    f: Functions,
    op: Op<int>,
    da: Seq<int>,
    db: Seq<int>,
    a: Grid,
    b: Grid,
    c: Grid,
) -> Grid {
    match op {
        Op::Conv1d(s, p, g) => |i: Seq<int>| window1(a, b, da, db, s, p, g, i) + c(seq![i[1]]),
        Op::Rope => |i: Seq<int>| rotated(a, b, c, da[3] / 2, i),
        Op::CausalConv1d(gate) => |i: Seq<int>|
            {
                let y = c(seq![i[1]]) + sum(
                    db[2],
                    |k: int| a(seq![i[0], i[1], i[2] + k]) * b(seq![i[1], 0, k]),
                );
                if gate {
                    silu(f, y)
                } else {
                    y
                }
            },
        _ => |i: Seq<int>| 0real,
    }
}

/// The state after step `t` of a selective scan: channel `c`, component `n`.
pub open spec fn scan_state(
    f: Functions,
    u: Grid,
    step: Grid,
    a: Grid,
    b: Grid,
    q: int,
    c: int,
    n: int,
    t: int,
) -> real
    decreases t + 1,
{
    if t < 0 {
        0real
    } else {
        let dt = step(seq![q, t, c]);
        (f.exp)(dt * a(seq![c, n])) * scan_state(f, u, step, a, b, q, c, n, t - 1) + dt * b(
            seq![q, t, n],
        ) * u(seq![q, t, c])
    }
}

/// The state after step `t` of a scan by heads: head `h`, feature `c`, component `n`.
pub open spec fn head_state(
    f: Functions,
    x: Grid,
    step: Grid,
    a: Grid,
    b: Grid,
    q: int,
    h: int,
    c: int,
    n: int,
    t: int,
) -> real
    decreases t + 1,
{
    if t < 0 {
        0real
    } else {
        let dt = step(seq![q, t, h]);
        (f.exp)(dt * a(seq![h])) * head_state(f, x, step, a, b, q, h, c, n, t - 1) + dt * b(
            seq![q, t, h, n],
        ) * x(seq![q, t, h, c])
    }
}

/// Output and memory of a recurrent cell after step `t`, for each unit.
pub open spec fn cell_state(
    f: Functions,
    x: Grid,
    wi: Grid,
    wh: Grid,
    bi: Grid,
    bh: Grid,
    width: int,
    h: int,
    q: int,
    t: int,
) -> (Row, Row)
    decreases t + 1,
{
    if t < 0 {
        (|j: int| 0real, |j: int| 0real)
    } else {
        let (out, memory) = cell_state(f, x, wi, wh, bi, bh, width, h, q, t - 1);
        let gate = |r: int|
            bi(seq![r]) + bh(seq![r]) + sum(width, |j: int| wi(seq![r, j]) * x(seq![q, t, j])) + sum(
                h,
                |j: int| wh(seq![r, j]) * out(j),
            );
        let kept = |j: int|
            sigmoid(f, gate(h + j)) * memory(j) + sigmoid(f, gate(j)) * tanh(f, gate(2 * h + j));
        (|j: int| sigmoid(f, gate(3 * h + j)) * tanh(f, kept(j)), kept)
    }
}

pub open spec fn quin_elements(
    f: Functions,
    op: Op<int>,
    da: Seq<int>,
    dn: int,
    a: Grid,
    b: Grid,
    c: Grid,
    d: Grid,
    e: Grid,
) -> Grid {
    match op {
        Op::SelectiveScan(soft) => |i: Seq<int>|
            {
                let step = |j: Seq<int>|
                    if soft {
                        softplus(f, b(j))
                    } else {
                        b(j)
                    };
                sum(
                    dn,
                    |n: int| e(seq![i[0], i[1], n]) * scan_state(f, a, step, c, d, i[0], i[2], n, i[1]),
                )
            },
        Op::SsdChunkScan(_) => |i: Seq<int>|
            sum(
                dn,
                |n: int|
                    e(seq![i[0], i[1], i[2], n]) * head_state(f, a, b, c, d, i[0], i[2], i[3], n, i[1]),
            ),
        Op::Lstm(h) => |i: Seq<int>|
            (cell_state(f, a, b, c, d, e, da[2], h, i[0], i[1]).0)(i[2]),
        _ => |i: Seq<int>| 0real,
    }
}

/// The angle of position `p` and column `k` of a rotary table.
pub open spec fn angle(f: Functions, theta: Scalar, p: int, width: int, k: int) -> real {
    let j = if k < width / 2 {
        k
    } else {
        k - width / 2
    };
    p as real / (f.pow)(number(f, theta), (2 * j) as real / width as real)
}

pub open spec fn leaf_elements(f: Functions, op: Op<int>) -> Grid {
    match op {
        Op::RopeCos(theta, start, _, width) => |i: Seq<int>|
            (f.cos)(angle(f, theta, start + i[0], width, i[1])),
        Op::RopeSin(theta, start, _, width) => |i: Seq<int>|
            (f.sin)(angle(f, theta, start + i[0], width, i[1])),
        _ => |i: Seq<int>| 0real,
    }
}

/// Where a tensor holds negative infinity: in a mask, and in sums with one.
#[verifier::opaque]
pub open spec fn lows(t: Tensor) -> spec_fn(Seq<int>) -> bool
    decreases t,
{
    match t.term {
        Term::Const(data) => |i: Seq<int>| data[place(i, t.dims)] == neg_inf(),
        Term::Leaf(Op::CausalMask(_)) => |i: Seq<int>| i[1] > i[0],
        Term::Un(op, a) => {
            let (d, to) = (a.dims, t.dims);
            let low = lows(*a);
            match op {
                Op::Reshape => |i: Seq<int>| low(unplaced(place(i, to), d)),
                Op::BroadcastTo => |i: Seq<int>| low(under(i, d)),
                Op::Narrow(x, start, _) => |i: Seq<int>| low(i.update(x, i[x] + start)),
                Op::Unsqueeze(x) => |i: Seq<int>| low(i.remove(x)),
                _ => |i: Seq<int>| false,
            }
        },
        Term::Bin(Op::Add, a, b) => {
            let (p, q) = (lows(*a), lows(*b));
            |i: Seq<int>| p(i) || q(i)
        },
        Term::Bin(Op::BroadcastAdd, a, b) => {
            let (p, q) = (lows(*a), lows(*b));
            let (da, db) = (a.dims, b.dims);
            |i: Seq<int>| p(under(i, da)) || q(under(i, db))
        },
        _ => |i: Seq<int>| false,
    }
}

/// The numbers that a tensor stands for.
#[verifier::opaque]
pub open spec fn elements(f: Functions, t: Tensor) -> Grid
    decreases t,
{
    match t.term {
        Term::Invalid(_) => |i: Seq<int>| 0real,
        Term::Const(data) => |i: Seq<int>| number(f, data[place(i, t.dims)]),
        Term::Ids(data) => |i: Seq<int>| data[i[0]] as int as real,
        Term::Leaf(op) => leaf_elements(f, op),
        Term::Un(op, a) => un_elements(f, op, a.dims, t.dims, elements(f, *a), lows(*a)),
        Term::Bin(op, a, b) => bin_elements(f, op, a.dims, b.dims, elements(f, *a), elements(f, *b)),
        Term::Tri(op, a, b, c) => tri_elements(
            f,
            op,
            a.dims,
            b.dims,
            elements(f, *a),
            elements(f, *b),
            elements(f, *c),
        ),
        Term::Quin(op, a, b, c, d, e) => quin_elements(
            f,
            op,
            a.dims,
            e.dims.last(),
            elements(f, *a),
            elements(f, *b),
            elements(f, *c),
            elements(f, *d),
            elements(f, *e),
        ),
    }
}

/// The number at a place of a tensor.
pub open spec fn at(f: Functions, t: Tensor, i: Seq<int>) -> real {
    elements(f, t)(i)
}

pub open spec fn at1(f: Functions, t: Tensor, a: int) -> real {
    at(f, t, seq![a])
}

pub open spec fn at2(f: Functions, t: Tensor, a: int, b: int) -> real {
    at(f, t, seq![a, b])
}

pub open spec fn at3(f: Functions, t: Tensor, a: int, b: int, c: int) -> real {
    at(f, t, seq![a, b, c])
}

pub open spec fn at4(f: Functions, t: Tensor, a: int, b: int, c: int, d: int) -> real {
    at(f, t, seq![a, b, c, d])
}

/// The features of a token `(batch, seq, features)`.
pub open spec fn row3(f: Functions, t: Tensor, a: int, b: int) -> Row {
    |k: int| at3(f, t, a, b, k)
}

/// The last axis of `(batch, heads, seq, width)`.
pub open spec fn row4(f: Functions, t: Tensor, a: int, b: int, c: int) -> Row {
    |k: int| at4(f, t, a, b, c, k)
}

/// Whether an element of `(batch, heads, seq, seq)` is hidden.
pub open spec fn low4(t: Tensor, a: int, b: int, c: int, d: int) -> bool {
    lows(t)(seq![a, b, c, d])
}

} // verus!
