//! What the convolutions of the audio models compute, sample by sample.

use crate::codec_extents::{conv_succeeds, padded_has, resample_up_succeeds, upsample_succeeds};
use crate::evaluation::inside;
use crate::extents::{
    broadcast_to_has, constant_has, conv_transpose1d_has, extents, has, products, reshape_has,
};
use crate::lazy::Tensor;
use crate::lazy_mimi_conv::{edge, padded, LazyPadMode};
use crate::lazy_mimi_resampler::{ConvDownsample1dWeights, ConvTrUpsample1dWeights};
use crate::lazy_mimi_seanet::{
    activated, convs_value, spread_taps, undilated_taps, LazyConv1dWeights, LazyConvTranspose1dWeights,
    SeaNetActivation, SeaNetResnetBlockWeights,
};
use crate::meaning::{at, at1, at3, elements, number, or_zero, spread, sum, window1, Functions, Row};
use crate::readings::{
    numbers_zero_one, pick, place1, place3, read_broadcast3, read_constant, read_reshape, readings, sums_alike,
};
use vstd::prelude::*;

verus! {

/// Sample `i` of a channel of a signal of `t` samples; before the first one it is
/// zero or the first sample.
pub open spec fn heard(f: Functions, x: Tensor, mode: LazyPadMode, t: int, p: int, c: int, i: int) -> real {
    if 0 <= i < t {
        at3(f, x, p, c, i)
    } else {
        match mode {
            LazyPadMode::Constant => 0real,
            LazyPadMode::Replicate => at3(f, x, p, c, 0),
        }
    }
}

/// Sample `i` of channel `o` of a causal convolution: the last tap of the kernel
/// reads the last sample of the stride, the others those before it, `dilation`
/// samples apart.
pub open spec fn convolved(
    f: Functions,
    w: &LazyConv1dWeights,
    x: Tensor,
    mode: LazyPadMode,
    t: int,
    p: int,
    o: int,
    i: int,
) -> real {
    let per = w.in_channels as int / w.groups as int;
    let k = w.kernel_size as int;
    let lead = (k - 1) * w.dilation + 1 - w.stride;
    sum(
        per,
        |c: int|
            sum(
                k,
                |m: int|
                    heard(
                        f,
                        x,
                        mode,
                        t,
                        p,
                        o / (w.out_channels as int / w.groups as int) * per + c,
                        i * w.stride + m * w.dilation - lead,
                    ) * number(f, w.weight@[(o * per + c) * k + m]),
            ),
    ) + match w.bias {
        None => 0real,
        Some(b) => number(f, b@[o]),
    }
}

/// A signal led by zeros or by its first sample.
#[verifier::spinoff_prover]
pub proof fn padded_reads(f: Functions, x: Tensor, left: int, mode: LazyPadMode, b: int, c: int, t: int, p: int, e: int, i: int)
    requires
        has(x, seq![b, c, t]),
        t >= 1,
        left >= 0,
        t + left <= usize::MAX,
        0 <= p < b,
        0 <= e < c,
        0 <= i < t + left,
    ensures
        at3(f, padded(x, left, 0, mode), p, e, i) == heard(f, x, mode, t, p, e, i - left),
{
    broadcast use {extents, readings};

    padded_has(x, left, mode, b, c, t);
    if left > 0 {
        match mode {
            LazyPadMode::Constant => {
                reveal(Tensor::pad_with_zeros);
                reveal(elements);
                let spot = seq![p, e, i];
                let from = seq![p, e, i - left];
                assert(spot.update(2, spot[2] - left) =~= from);
                assert(x.dims =~= seq![b, c, t]);
                if i < left {
                    assert(from[2] < 0);
                    assert(!inside(from, x.dims));
                } else {
                    assert(inside(from, x.dims)) by {
                        assert forall|k: int| 0 <= k < from.len() implies 0 <= #[trigger] from[k] < x.dims[k] by {
                            assert(k == 0 || k == 1 || k == 2);
                        }
                    }
                }
            },
            LazyPadMode::Replicate => {
                let first = x.narrow(2, 0, 1);
                assert(first.dims =~= seq![b, c, 1]);
                let to = seq![b, c, left];
                broadcast_to_has(first, to);
                let front = edge(x, 0, left);
                assert(front.dims =~= to);
                let y = front.concat(x, 2);
                if i < left {
                    read_broadcast3(f, first, to, p, e, i);
                    assert(pick(b, p) == p && pick(c, e) == e);
                    assert(at3(f, y, p, e, i) == at3(f, front, p, e, i));
                    assert(at3(f, first, p, e, 0) == at3(f, x, p, e, 0));
                } else {
                    assert(at3(f, y, p, e, i) == at3(f, x, p, e, i - left));
                }
            },
        }
    }
}

/// Taps with zeros between them weigh only every `d`-th number.
proof fn spread_sum(g: Row, h: Row, k: int, d: int)
    requires
        k >= 1,
        d >= 1,
        forall|n: int| 0 <= n < (k - 1) * d + 1 && n % d != 0 ==> #[trigger] g(n) == 0real,
        forall|m: int| 0 <= m < k ==> #[trigger] h(m) == g(m * d),
    ensures
        sum((k - 1) * d + 1, g) == sum(k, h),
    decreases k,
{
    if k == 1 {
        assert(sum(1, g) == sum(0, g) + g(0) && sum(0, g) == 0real);
        assert(sum(1, h) == sum(0, h) + h(0) && sum(0, h) == 0real);
        assert(0 * d == 0) by (nonlinear_arith);
        assert(h(0) == g(0 * d));
        assert((k - 1) * d + 1 == 1) by (nonlinear_arith)
            requires
                k == 1,
        ;
    } else {
        let low = (k - 2) * d + 1;
        let high = (k - 1) * d;
        assert(high == low - 1 + d && low >= 1) by (nonlinear_arith)
            requires
                low == (k - 2) * d + 1,
                high == (k - 1) * d,
                k >= 2,
                d >= 1,
        ;
        assert forall|n: int| 0 <= n < (k - 2) * d + 1 && n % d != 0 implies #[trigger] g(n) == 0real by {}
        spread_sum(g, h, k - 1, d);
        assert forall|n: int| low <= n < high implies #[trigger] g(n) == 0real by {
            let r = n - (k - 2) * d;
            assert(n == (k - 2) * d + r && 0 < r < d);
            vstd::arithmetic::div_mod::lemma_fundamental_div_mod_converse(n, d, k - 2, r);
        }
        zeros_add_nothing(g, low, high);
        assert(h(k - 1) == g((k - 1) * d));
        assert(sum(high + 1, g) == sum(high, g) + g(high));
    }
}

proof fn zeros_add_nothing(g: Row, a: int, b: int)
    requires
        0 <= a <= b,
        forall|n: int| a <= n < b ==> #[trigger] g(n) == 0real,
    ensures
        sum(b, g) == sum(a, g),
    decreases b - a,
{
    if a < b {
        zeros_add_nothing(g, a, b - 1);
        assert(g(b - 1) == 0real);
    }
}

/// A causal convolution, sample by sample.
#[verifier::spinoff_prover]
#[verifier::rlimit(30)]
pub proof fn conv_reads(
    f: Functions,
    w: &LazyConv1dWeights,
    x: Tensor,
    mode: LazyPadMode,
    b: int,
    c: int,
    t: int,
    p: int,
    o: int,
    i: int,
)
    requires
        w.reads(c),
        w.covers(t),
        t >= w.stride,
        has(x, seq![b, c, t]),
        0 <= p < b,
        0 <= o < w.out_channels,
        0 <= i < t / w.stride as int,
    ensures
        at3(f, w.value(x, mode), p, o, i) == convolved(f, w, x, mode, t, p, o, i),
{
    broadcast use extents;

    conv_succeeds(w, x, mode, b, c, t);
    let r = w.reach();
    let n = w.out_channels as int;
    let per = w.per_group();
    let s = w.stride as int;
    let k = w.kernel_size as int;
    let d = w.dilation as int;
    let gs = w.groups as int;
    assert((k - 1) * d >= 0) by (nonlinear_arith)
        requires
            k >= 1,
            d >= 1,
    ;
    assert(per >= 1) by (nonlinear_arith)
        requires
            per * gs == c,
            c >= 1,
            gs >= 1,
    ;
    let lead = r - s;
    padded_has(x, lead, mode, b, c, t);
    let y = padded(x, lead, 0, mode);
    assert(y.dims =~= seq![b, c, t + lead]);
    products(n, per, r, 1, 1, 1);
    assert(n * per * r >= 0) by (nonlinear_arith)
        requires
            n >= 1,
            per >= 1,
            r >= 1,
    ;
    let taps = spread_taps(w.weight@, w.rows(), k, d);
    constant_has(taps, seq![n, per, r]);
    let kernel = w.kernel();
    let z = w.value(x, mode);
    let spot = seq![p, o, i];
    let (ga, gk) = (elements(f, y), elements(f, kernel));
    let win = window1(ga, gk, y.dims, kernel.dims, s, 0, gs, spot);
    let bias = match w.bias {
        None => 0real,
        Some(v) => number(f, v@[o]),
    };
    assert(at3(f, z, p, o, i) == win + bias) by {
        reveal(Tensor::conv1d);
        reveal(elements);
        if let Some(v) = w.bias {
            let bt = Tensor::constant(v@, seq![n]);
            read_constant(f, v@, seq![n], seq![o]);
            place1(o, n);
            assert(elements(f, bt)(seq![spot[1]]) == number(f, v@[o]));
        }
    }
    let group = spot[1] / (kernel.dims[0] / gs);
    let q = n / gs;
    assert(0 <= group < gs) by {
        vstd::arithmetic::div_mod::lemma_fundamental_div_mod(n, gs);
        assert(0 <= o / q < gs) by (nonlinear_arith)
            requires
                0 <= o < n,
                n == gs * q,
                gs >= 1,
        ;
    }
    let got = |e: int|
        sum(
            kernel.dims[2],
            |m: int|
                or_zero(ga, seq![spot[0], group * kernel.dims[1] + e, spot[2] * s + m - 0], y.dims) * gk(
                    seq![spot[1], e, m],
                ),
        );
    let want = |e: int|
        sum(
            k,
            |m: int|
                heard(f, x, mode, t, p, o / (n / gs) * per + e, i * s + m * d - lead) * number(
                    f,
                    w.weight@[(o * per + e) * k + m],
                ),
        );
    assert forall|e: int| 0 <= e < per implies #[trigger] got(e) == want(e) by {
        let ch = group * per + e;
        assert(0 <= ch < c) by (nonlinear_arith)
            requires
                ch == group * per + e,
                0 <= group < gs,
                0 <= e < per,
                per * gs == c,
        ;
        let g = |m: int|
            or_zero(ga, seq![spot[0], group * kernel.dims[1] + e, spot[2] * s + m - 0], y.dims) * gk(
                seq![spot[1], e, m],
            );
        let h = |m: int|
            heard(f, x, mode, t, p, o / (n / gs) * per + e, i * s + m * d - lead) * number(
                f,
                w.weight@[(o * per + e) * k + m],
            );
        assert forall|m: int| 0 <= m < r implies #[trigger] g(m) == heard(f, x, mode, t, p, ch, i * s + m - lead)
            * (if m % d == 0 {
            number(f, w.weight@[(o * per + e) * k + m / d])
        } else {
            0real
        }) by {
            let j = i * s + m;
            assert(0 <= j < t + lead) by (nonlinear_arith)
                requires
                    j == i * s + m,
                    0 <= i,
                    i <= t / s - 1,
                    0 <= m < r,
                    lead == r - s,
                    s >= 1,
                    t >= s,
            ;
            let from = seq![p, ch, j];
            assert(from =~= seq![spot[0], group * kernel.dims[1] + e, spot[2] * s + m - 0]);
            assert(inside(from, y.dims)) by {
                assert forall|a: int| 0 <= a < from.len() implies 0 <= #[trigger] from[a] < y.dims[a] by {
                    assert(a == 0 || a == 1 || a == 2);
                }
            }
            padded_reads(f, x, lead, mode, b, c, t, p, ch, j);
            tap_reads(f, w, o, e, m);
            assert(seq![spot[1], e, m] =~= seq![o, e, m]);
        }
        assert forall|m: int| 0 <= m < (k - 1) * d + 1 && m % d != 0 implies #[trigger] g(m) == 0real by {
            let v = heard(f, x, mode, t, p, ch, i * s + m - lead);
            assert(v * 0real == 0real) by (nonlinear_arith);
        }
        assert forall|m: int| 0 <= m < k implies #[trigger] h(m) == g(m * d) by {
            assert(0 <= m * d <= (k - 1) * d) by (nonlinear_arith)
                requires
                    0 <= m < k,
                    d >= 1,
            ;
            vstd::arithmetic::div_mod::lemma_fundamental_div_mod_converse(m * d, d, m, 0);
            assert(g(m * d) == heard(f, x, mode, t, p, ch, i * s + m * d - lead) * number(
                f,
                w.weight@[(o * per + e) * k + m],
            ));
        }
        spread_sum(g, h, k, d);
    }
    sums_alike(per, got, want);
}

/// A tap of the kernel with zeros between its taps.
proof fn tap_reads(f: Functions, w: &LazyConv1dWeights, o: int, e: int, m: int)
    requires
        w.valid(),
        w.weight@.len() == w.rows() * w.kernel_size,
        has(w.kernel(), seq![w.out_channels as int, w.per_group(), w.reach()]),
        0 <= o < w.out_channels,
        0 <= e < w.per_group(),
        0 <= m < w.reach(),
    ensures
        elements(f, w.kernel())(seq![o, e, m]) == if m % w.dilation as int == 0 {
            number(f, w.weight@[(o * w.per_group() + e) * w.kernel_size + m / w.dilation as int])
        } else {
            0real
        },
{
    let n = w.out_channels as int;
    let per = w.per_group();
    let r = w.reach();
    let k = w.kernel_size as int;
    let taps = spread_taps(w.weight@, w.rows(), k, w.dilation as int);
    let cell = seq![o, e, m];
    read_constant(f, taps, seq![n, per, r], cell);
    place3(o, e, m, n, per, r);
    let row = o * per + e;
    assert(0 <= row < n * per) by (nonlinear_arith)
        requires
            row == o * per + e,
            0 <= o < n,
            0 <= e < per,
    ;
    let at_place = row * r + m;
    assert(0 <= at_place < n * per * r) by (nonlinear_arith)
        requires
            at_place == row * r + m,
            0 <= row < n * per,
            0 <= m < r,
    ;
    vstd::arithmetic::div_mod::lemma_fundamental_div_mod_converse(at_place, r, row, m);
    numbers_zero_one(f);
    assert(at(f, w.kernel(), cell) == number(f, taps[at_place]));
}

/// Sample `i` of channel `o` of an upsampled signal: every sample of the channels of
/// the group spreads over the kernel from `stride` times its place on.
pub open spec fn upsampled(
    f: Functions,
    w: &LazyConvTranspose1dWeights,
    x: Tensor,
    t: int,
    p: int,
    o: int,
    i: int,
) -> real {
    let from = w.in_channels as int / w.groups as int;
    let to = w.out_channels as int / w.groups as int;
    let k = w.kernel_size as int;
    sum(
        from,
        |c: int|
            sum(
                t,
                |j: int|
                    at3(f, x, p, o / to * from + c, j) * (if 0 <= i - j * w.stride < k {
                        number(f, w.weight@[((o / to * from + c) * to + o % to) * k + (i - j * w.stride)])
                    } else {
                        0real
                    }),
            ),
    ) + match w.bias {
        None => 0real,
        Some(b) => number(f, b@[o]),
    }
}

/// A transposed convolution, sample by sample.
#[verifier::spinoff_prover]
#[verifier::rlimit(30)]
pub proof fn upsample_reads(
    f: Functions,
    w: &LazyConvTranspose1dWeights,
    x: Tensor,
    b: int,
    c: int,
    t: int,
    p: int,
    o: int,
    i: int,
)
    requires
        w.reads(c),
        w.covers(t),
        t >= 1,
        has(x, seq![b, c, t]),
        0 <= p < b,
        0 <= o < w.out_channels,
        0 <= i < t * w.stride,
    ensures
        at3(f, w.value(x), p, o, i) == upsampled(f, w, x, t, p, o, i),
{
    broadcast use {extents, readings};

    let n = w.out_channels as int;
    let gs = w.groups as int;
    let to = n / gs;
    let from = c / gs;
    let k = w.kernel_size as int;
    let s = w.stride as int;
    assert(to >= 1) by (nonlinear_arith)
        requires
            to * gs == n,
            n >= 1,
            gs >= 1,
    ;
    upsample_succeeds(w, x, b, c, t);
    products(c, to, k, 1, 1, 1);
    constant_has(w.weight@, seq![c, to, k]);
    let kernel = Tensor::constant(w.weight@, seq![c, to, k]);
    conv_transpose1d_has(x, kernel, s, gs);
    let raw = x.conv_transpose1d(kernel, s, gs);
    let len = (t - 1) * s + k;
    assert(has(raw, seq![b, n, len]));
    assert((t - 1) * s == t * s - s && (t - 1) * s >= 0) by (nonlinear_arith)
        requires
            t >= 1,
            s >= 1,
    ;
    let spot = seq![p, o, i];
    let (ga, gk) = (elements(f, x), elements(f, kernel));
    assert(at3(f, raw, p, o, i) == spread(ga, gk, x.dims, kernel.dims, s, gs, spot)) by {
        reveal(Tensor::conv_transpose1d);
        reveal(elements);
    }
    let per = x.dims[1] / gs;
    let group = spot[1] / kernel.dims[1];
    vstd::arithmetic::div_mod::lemma_fundamental_div_mod(c, gs);
    vstd::arithmetic::div_mod::lemma_fundamental_div_mod(o, to);
    assert(0 <= group < gs) by (nonlinear_arith)
        requires
            group == o / to,
            0 <= o < n,
            to * gs == n,
            to >= 1,
    ;
    let got = |e: int|
        sum(
            x.dims[2],
            |j: int|
                ga(seq![spot[0], group * per + e, j]) * or_zero(
                    gk,
                    seq![group * per + e, spot[1] % kernel.dims[1], spot[2] - j * s],
                    kernel.dims,
                ),
        );
    let want = |e: int|
        sum(
            t,
            |j: int|
                at3(f, x, p, o / to * from + e, j) * (if 0 <= i - j * w.stride < k {
                    number(f, w.weight@[((o / to * from + e) * to + o % to) * k + (i - j * w.stride)])
                } else {
                    0real
                }),
        );
    assert forall|e: int| 0 <= e < from implies #[trigger] got(e) == want(e) by {
        let ch = group * per + e;
        assert(0 <= ch < c) by (nonlinear_arith)
            requires
                ch == group * per + e,
                0 <= group < gs,
                0 <= e < from,
                per == from,
                c == gs * from,
        ;
        let g = |j: int|
            ga(seq![spot[0], group * per + e, j]) * or_zero(
                gk,
                seq![group * per + e, spot[1] % kernel.dims[1], spot[2] - j * s],
                kernel.dims,
            );
        let h = |j: int|
            at3(f, x, p, o / to * from + e, j) * (if 0 <= i - j * w.stride < k {
                number(f, w.weight@[((o / to * from + e) * to + o % to) * k + (i - j * w.stride)])
            } else {
                0real
            });
        assert forall|j: int| 0 <= j < t implies #[trigger] g(j) == h(j) by {
            let m = i - j * s;
            let cell = seq![ch, o % to, m];
            assert(cell =~= seq![group * per + e, spot[1] % kernel.dims[1], spot[2] - j * s]);
            if 0 <= m < k {
                assert(inside(cell, kernel.dims)) by {
                    assert forall|a: int| 0 <= a < cell.len() implies 0 <= #[trigger] cell[a] < kernel.dims[a] by {
                        assert(a == 0 || a == 1 || a == 2);
                    }
                }
                read_constant(f, w.weight@, seq![c, to, k], cell);
                place3(ch, o % to, m, c, to, k);
                assert(gk(cell) == at(f, kernel, cell));
            } else {
                assert(cell[2] == m);
                assert(!inside(cell, kernel.dims));
            }
            assert(seq![spot[0], group * per + e, j] =~= seq![p, ch, j]);
        }
        sums_alike(t, g, h);
    }
    sums_alike(from, got, want);
    let y = match w.bias {
        None => raw,
        Some(v) => raw.add(
            Tensor::constant(v@, seq![n]).reshape(seq![1, n, 1]).broadcast_to(
                seq![raw.dim(0), raw.dim(1), raw.dim(2)],
            ),
        ),
    };
    if let Some(v) = w.bias {
        products(n, 1, 1, 1, 1, 1);
        products(1, n, 1, 1, 1, 1);
        let row = Tensor::constant(v@, seq![n]);
        reshape_has(row, seq![1, n, 1]);
        let flat = row.reshape(seq![1, n, 1]);
        let wide = seq![b, n, len];
        broadcast_to_has(flat, wide);
        read_broadcast3(f, flat, wide, p, o, i);
        assert(pick(n, o) == o);
        place1(o, n);
        place3(0, o, 0, 1, n, 1);
        assert((0 * n + o) * 1 + 0 == o) by (nonlinear_arith);
        read_reshape(f, row, seq![1, n, 1], seq![o], seq![0, o, 0]);
        assert(at1(f, row, o) == number(f, v@[o]));
        let stretched = flat.broadcast_to(wide);
        assert(has(raw.add(stretched), wide));
        assert(at3(f, raw.add(stretched), p, o, i) == at3(f, raw, p, o, i) + at3(f, stretched, p, o, i));
        assert(seq![raw.dim(0), raw.dim(1), raw.dim(2)] =~= wide);
    }
    assert(has(y, seq![b, n, len]));
    let cut = y.narrow(2, 0, t * s);
    assert(cut.dims =~= seq![b, n, t * s]);
    assert(at3(f, cut, p, o, i) == at3(f, y, p, o, i + 0));
    assert(w.value(x) == cut);
}

/// Downsampling, sample by sample: a causal convolution with a kernel of twice the
/// stride, the first sample repeated before the signal.
pub proof fn downsample_reads(f: Functions, w: &ConvDownsample1dWeights, x: Tensor, b: int, t: int, p: int, o: int, i: int)
    requires
        w.dim >= 1,
        w.stride >= 1,
        t >= w.stride,
        t + 2 * w.stride <= usize::MAX,
        w.dim * w.dim * (2 * w.stride) <= usize::MAX,
        w.weight@.len() == w.dim * w.dim * (2 * w.stride),
        has(x, seq![b, w.dim as int, t]),
        0 <= p < b,
        0 <= o < w.dim,
        0 <= i < t / w.stride as int,
    ensures
        at3(f, w.value(x), p, o, i) == sum(
            w.dim as int,
            |c: int|
                sum(
                    2 * w.stride,
                    |m: int|
                        heard(f, x, LazyPadMode::Replicate, t, p, c, (i - 1) * w.stride + m) * number(
                            f,
                            w.weight@[(o * w.dim + c) * (2 * w.stride) + m],
                        ),
                ),
        ),
{
    let d = w.dim as int;
    let s = w.stride as int;
    let v = LazyConv1dWeights {
        weight: w.weight,
        bias: None,
        in_channels: w.dim,
        out_channels: w.dim,
        kernel_size: (2 * w.stride) as usize,
        stride: w.stride,
        dilation: 1,
        groups: 1,
    };
    assert((2 * s - 1) * 1 + 1 == 2 * s);
    assert(d / 1 == d && d % 1 == 0);
    assert(d * d >= 1) by (nonlinear_arith)
        requires
            d >= 1,
    ;
    assert(d * d <= d * d * (2 * s)) by (nonlinear_arith)
        requires
            d * d >= 1,
            s >= 1,
    ;
    assert(v.reach() == 2 * s && v.per_group() == d && v.rows() == d * d);
    assert(v.reads(d) && v.covers(t));
    undilated_taps(w.weight@, d * d, 2 * s);
    assert(v.lead() == s);
    assert(w.value(x) == v.value(x, LazyPadMode::Replicate));
    conv_reads(f, &v, x, LazyPadMode::Replicate, b, d, t, p, o, i);
    let got = |c: int|
        sum(
            2 * s,
            |m: int|
                heard(
                    f,
                    x,
                    LazyPadMode::Replicate,
                    t,
                    p,
                    o / (d / 1) * d + c,
                    i * s + m * 1 - ((2 * s - 1) * 1 + 1 - s),
                ) * number(f, w.weight@[(o * d + c) * (2 * s) + m]),
        );
    let want = |c: int|
        sum(
            2 * w.stride,
            |m: int|
                heard(f, x, LazyPadMode::Replicate, t, p, c, (i - 1) * w.stride + m) * number(
                    f,
                    w.weight@[(o * w.dim + c) * (2 * w.stride) + m],
                ),
        );
    vstd::arithmetic::div_mod::lemma_basic_div(o, d);
    assert(0 * d == 0) by (nonlinear_arith);
    assert((i - 1) * s == i * s - s) by (nonlinear_arith);
    assert forall|c: int| #[trigger] got(c) == want(c) by {
        let g = |m: int|
            heard(
                f,
                x,
                LazyPadMode::Replicate,
                t,
                p,
                o / (d / 1) * d + c,
                i * s + m * 1 - ((2 * s - 1) * 1 + 1 - s),
            ) * number(f, w.weight@[(o * d + c) * (2 * s) + m]);
        let h = |m: int|
            heard(f, x, LazyPadMode::Replicate, t, p, c, (i - 1) * w.stride + m) * number(
                f,
                w.weight@[(o * w.dim + c) * (2 * w.stride) + m],
            );
        assert forall|m: int| #[trigger] g(m) == h(m) by {}
        assert(g =~= h);
    }
    assert(got =~= want);
}

/// Upsampling, sample by sample: every channel by itself, each of its samples spread
/// over a kernel of twice the stride.
pub proof fn resample_up_reads(f: Functions, w: &ConvTrUpsample1dWeights, x: Tensor, b: int, t: int, p: int, o: int, i: int)
    requires
        w.dim >= 1,
        w.stride >= 1,
        t >= 1,
        t * w.stride + w.stride <= usize::MAX,
        w.dim * (2 * w.stride) <= usize::MAX,
        w.weight@.len() == w.dim * (2 * w.stride),
        has(x, seq![b, w.dim as int, t]),
        0 <= p < b,
        0 <= o < w.dim,
        0 <= i < t * w.stride,
    ensures
        at3(f, w.value(x), p, o, i) == sum(
            t,
            |j: int|
                at3(f, x, p, o, j) * (if 0 <= i - j * w.stride < 2 * w.stride {
                    number(f, w.weight@[o * (2 * w.stride) + (i - j * w.stride)])
                } else {
                    0real
                }),
        ),
{
    broadcast use extents;

    let d = w.dim as int;
    let s = w.stride as int;
    assert(2 * s <= d * (2 * s)) by (nonlinear_arith)
        requires
            d >= 1,
            s >= 1,
    ;
    let v = LazyConvTranspose1dWeights {
        weight: w.weight,
        bias: None,
        in_channels: w.dim,
        out_channels: w.dim,
        kernel_size: (2 * w.stride) as usize,
        stride: w.stride,
        groups: w.dim,
    };
    vstd::arithmetic::div_mod::lemma_fundamental_div_mod_converse(d, d, 1, 0);
    assert(d * 1 * (2 * s) == d * (2 * s)) by (nonlinear_arith);
    assert((t - 1) * s + 2 * s == t * s + s) by (nonlinear_arith);
    assert(v.reads(d) && v.covers(t));
    resample_up_succeeds(w, x, b, t);
    upsample_succeeds(&v, x, b, d, t);
    assert(w.value(x) == v.value(x));
    upsample_reads(f, &v, x, b, d, t, p, o, i);
    let k = 2 * s;
    let row = |c: int|
        sum(
            t,
            |j: int|
                at3(f, x, p, o / (d / d) * (d / d) + c, j) * (if 0 <= i - j * v.stride < v.kernel_size as int {
                    number(
                        f,
                        v.weight@[((o / (d / d) * (d / d) + c) * (d / d) + o % (d / d)) * v.kernel_size as int + (i
                            - j * v.stride)],
                    )
                } else {
                    0real
                }),
        );
    assert(sum(1, row) == sum(0, row) + row(0) && sum(0, row) == 0real);
    let g = |j: int|
        at3(f, x, p, o / (d / d) * (d / d) + 0, j) * (if 0 <= i - j * v.stride < v.kernel_size as int {
            number(
                f,
                v.weight@[((o / (d / d) * (d / d) + 0) * (d / d) + o % (d / d)) * v.kernel_size as int + (i - j
                    * v.stride)],
            )
        } else {
            0real
        });
    let h = |j: int|
        at3(f, x, p, o, j) * (if 0 <= i - j * w.stride < 2 * w.stride {
            number(f, w.weight@[o * (2 * w.stride) + (i - j * w.stride)])
        } else {
            0real
        });
    assert(o / 1 == o && o % 1 == 0 && o * 1 == o);
    assert forall|j: int| #[trigger] g(j) == h(j) by {}
    assert(g =~= h);
    assert(row(0) == sum(t, g));
}

/// A residual block adds the skipped signal to that of its convolutions, each of
/// which reads what the one before it yields, activated.
pub proof fn residual_reads(
    f: Functions,
    w: &SeaNetResnetBlockWeights,
    x: Tensor,
    act: SeaNetActivation,
    mode: LazyPadMode,
    n: int,
    p: int,
    c: int,
    i: int,
)
    requires
        !w.value(x, act, mode).bad(),
    ensures
        at3(f, w.value(x, act, mode), p, c, i) == at3(
            f,
            convs_value(w.convs@, w.convs@.len() as int, x, act, mode),
            p,
            c,
            i,
        ) + at3(
            f,
            match w.shortcut {
                None => x,
                Some(s) => s.value(x, mode),
            },
            p,
            c,
            i,
        ),
        convs_value(w.convs@, 0, x, act, mode) == x,
        n > 0 ==> convs_value(w.convs@, n, x, act, mode) == w.convs@[n - 1].value(
            activated(convs_value(w.convs@, n - 1, x, act, mode), act),
            mode,
        ),
{
    broadcast use readings;

}

} // verus!
