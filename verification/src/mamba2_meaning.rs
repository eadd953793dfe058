//! What the second Mamba computes, number by number.

use crate::evaluation::place;
use crate::extents::{
    broadcast_mul_under, embed_has, extents, has, products, reshape_has, reshape_merges,
    reshape_splits, ssd_chunk_scan_keeps,
};
use crate::formulas::{head_of, Rows};
use crate::lazy::{Op, Tensor};
use crate::lazy_mamba::D_CONV;
use crate::lazy_mamba2::{
    blocks, by_head, by_head_has, mixer, residual_block, sizes_are_positive, steps, Mamba2Config,
    Mamba2LayerWeights, Mamba2Model,
};
use crate::mamba_meaning::{convolved_rows, filter_holds};
use crate::meaning::{
    at, at1, at3, at4, elements, head_state, number, quin_elements, silu, softplus, sum, under, Functions, Grid,
};
use crate::mistral_meaning::{embedding_holds, token_rows};
use crate::readings::{
    numbers_zero_one, place1, place3, place4, read_reshape, readings, sums_alike, under_same,
};
use crate::rows_read::{
    cut_holds, cut_rows, holds, linear_holds, linear_rows, rms_norm_holds, rms_normed_rows, sum_holds, sum_rows,
};
use crate::scalar::Scalar;
use vstd::prelude::*;

verus! {

/// The state of feature `c` of head `h`, component `k`, after position `t`: what is
/// left of the state before it, plus the input at the position. The heads of a
/// group of `per` read the same `b`.
pub open spec fn state(
    f: Functions,
    x: Rows,
    step: Rows,
    a: spec_fn(int) -> real,
    b: Rows,
    width: int,
    n: int,
    per: int,
    h: int,
    c: int,
    k: int,
    t: int,
) -> real
    decreases t + 1,
{
    if t < 0 {
        0real
    } else {
        (f.exp)(step(t)(h) * a(h)) * state(f, x, step, a, b, width, n, per, h, c, k, t - 1) + step(t)(h) * b(t)(
            h / per * n + k,
        ) * x(t)(h * width + c)
    }
}

/// The rows after the scan: head by head the states under `c`, plus the input
/// times the gain of the head.
pub open spec fn scanned(
    f: Functions,
    cfg: &Mamba2Config,
    w: &Mamba2LayerWeights,
    x: Rows,
    step: Rows,
    b: Rows,
    c: Rows,
) -> Rows {
    let n = cfg.d_state as int;
    let width = cfg.head_dim as int;
    let per = cfg.heads() / cfg.ngroups as int;
    let a = |h: int| -(f.exp)(number(f, w.a_log@[h]));
    |i: int| |e: int|
        sum(
            n,
            |k: int|
                c(i)(e / width / per * n + k) * state(f, x, step, a, b, width, n, per, e / width, e % width, k, i),
        ) + x(i)(e) * number(f, w.d@[e / width])
}

/// The rows after a mixer.
pub open spec fn mixed_by(f: Functions, cfg: &Mamba2Config, w: &Mamba2LayerWeights, x: Rows) -> Rows {
    let inner = cfg.inner();
    let heads = cfg.heads();
    let gs = cfg.ngroups * cfg.d_state;
    let xbc = inner + 2 * gs;
    let proj = linear_rows(f, x, w.in_proj@, cfg.d_model as int, cfg.proj());
    let z = cut_rows(proj, 0);
    let dt = cut_rows(proj, inner + xbc);
    let conv = convolved_rows(f, cut_rows(proj, inner), w.conv1d_weight@, w.conv1d_bias@, D_CONV as int);
    let step = |i: int| |h: int| softplus(f, dt(i)(h) + number(f, w.dt_bias@[h]));
    let y = scanned(f, cfg, w, cut_rows(conv, 0), step, cut_rows(conv, inner), cut_rows(conv, inner + gs));
    let n = rms_normed_rows(f, y, w.out_norm_gain@, inner, cfg.rms_norm_eps);
    linear_rows(f, |i: int| |e: int| n(i)(e) * silu(f, z(i)(e)), w.out_proj@, inner, cfg.d_model as int)
}

/// The rows after a block: those before it, plus what the mixer makes of them,
/// normed.
pub open spec fn after_block(f: Functions, cfg: &Mamba2Config, w: &Mamba2LayerWeights, x: Rows) -> Rows {
    sum_rows(
        x,
        mixed_by(f, cfg, w, rms_normed_rows(f, x, w.norm_gain@, cfg.d_model as int, cfg.rms_norm_eps)),
    )
}

/// The rows after the first `n` blocks.
pub open spec fn after_blocks(
    f: Functions,
    cfg: &Mamba2Config,
    layers: Seq<Mamba2LayerWeights>,
    n: int,
    x: Rows,
) -> Rows
    decreases n,
{
    if n <= 0 {
        x
    } else {
        after_block(f, cfg, &layers[n - 1], after_blocks(f, cfg, layers, n - 1, x))
    }
}

proof fn place5(a: int, b: int, c: int, d: int, e: int, k: int, l: int, m: int, n: int, o: int)
    ensures
        place(seq![a, b, c, d, e], seq![k, l, m, n, o]) == (((a * l + b) * m + c) * n + d) * o + e,
{
    reveal_with_fuel(place, 2);
    place4(a, b, c, d, k, l, m, n);
    assert(seq![a, b, c, d, e].drop_last() =~= seq![a, b, c, d]);
    assert(seq![k, l, m, n, o].drop_last() =~= seq![k, l, m, n]);
}

/// Rows cut into parts of equal width.
proof fn parted_reads(f: Functions, t: Tensor, x: Rows, parts: int, width: int, s: int, i: int, h: int, c: int)
    requires
        has(t, seq![1, s, parts * width]),
        holds(f, t, x, s, parts * width),
        !t.reshape(seq![1, s, parts, width]).bad(),
        0 <= i < s,
        0 <= h < parts,
        0 <= c < width,
    ensures
        at4(f, t.reshape(seq![1, s, parts, width]), 0, i, h, c) == x(i)(h * width + c),
        0 <= h * width + c < parts * width,
{
    assert(0 <= h * width + c < parts * width) by (nonlinear_arith)
        requires
            0 <= h < parts,
            0 <= c < width,
    ;
    place3(0, i, h * width + c, 1, s, parts * width);
    place4(0, i, h, c, 1, s, parts, width);
    assert(((0 * s + i) * parts + h) * width + c == (0 * s + i) * (parts * width) + (h * width + c))
        by (nonlinear_arith);
    read_reshape(f, t, seq![1, s, parts, width], seq![0, i, h * width + c], seq![0, i, h, c]);
    assert(at3(f, t, 0, i, h * width + c) == x(i)(h * width + c));
}

/// What the heads of a group share, number by number.
#[verifier::spinoff_prover]
proof fn by_head_reads(f: Functions, cfg: &Mamba2Config, t: Tensor, s: int, i: int, h: int, k: int)
    requires
        cfg.addressable(s),
        cfg.heads() >= 1,
        has(t, seq![1, s, cfg.ngroups as int, cfg.d_state as int]),
        0 <= i < s,
        0 <= h < cfg.heads(),
        0 <= k < cfg.d_state,
    ensures
        at4(f, by_head(cfg, t, 1, s), 0, i, h, k) == at4(f, t, 0, i, h / (cfg.heads() / cfg.ngroups as int), k),
        0 <= h / (cfg.heads() / cfg.ngroups as int) < cfg.ngroups,
{
    let g = cfg.ngroups as int;
    let n = cfg.d_state as int;
    let heads = cfg.heads();
    by_head_has(cfg, t, s);
    if g == heads {
        assert(heads / g == 1) by (nonlinear_arith)
            requires
                g == heads,
                g >= 1,
        ;
        assert(h / 1 == h);
    } else {
        let r = heads / g;
        vstd::arithmetic::div_mod::lemma_fundamental_div_mod(heads, g);
        assert(r >= 1) by (nonlinear_arith)
            requires
                heads == g * r,
                heads >= 1,
                g >= 1,
        ;
        vstd::arithmetic::div_mod::lemma_fundamental_div_mod(h, r);
        let (a, b) = (h / r, h % r);
        assert(0 <= a < g) by (nonlinear_arith)
            requires
                0 <= h < g * r,
                r >= 1,
                a == h / r,
        ;
        let one = seq![1, s, g, 1, n];
        let many = seq![1, s, g, r, n];
        let flat = t.reshape(one);
        let wide = flat.broadcast_to(many);
        let (spot, low) = (seq![0, i, a, b, k], seq![0, i, a, 0, k]);
        place4(0, i, h, k, 1, s, heads, n);
        place5(0, i, a, b, k, 1, s, g, r, n);
        assert((((0 * s + i) * g + a) * r + b) * n + k == ((0 * s + i) * heads + h) * n + k) by (nonlinear_arith)
            requires
                h == r * a + b,
                heads == g * r,
        ;
        read_reshape(f, wide, seq![1, s, heads, n], spot, seq![0, i, h, k]);
        assert(under(spot, one) =~= low);
        assert(at(f, wide, spot) == at(f, flat, low)) by {
            reveal(Tensor::broadcast_to);
            reveal(elements);
        }
        place4(0, i, a, k, 1, s, g, n);
        place5(0, i, a, 0, k, 1, s, g, 1, n);
        assert((((0 * s + i) * g + a) * 1 + 0) * n + k == ((0 * s + i) * g + a) * n + k) by (nonlinear_arith);
        read_reshape(f, t, one, seq![0, i, a, k], low);
    }
}

/// A scan by heads, number by number.
proof fn scan_reads(
    f: Functions,
    x: Tensor,
    dt: Tensor,
    a: Tensor,
    b: Tensor,
    c: Tensor,
    chunk: int,
    i: int,
    h: int,
    e: int,
)
    requires
        !x.ssd_chunk_scan(dt, a, b, c, chunk).bad(),
        b.dims.len() == 4,
    ensures
        at4(f, x.ssd_chunk_scan(dt, a, b, c, chunk), 0, i, h, e) == sum(
            b.dims[3],
            |k: int|
                elements(f, c)(seq![0, i, h, k]) * head_state(
                    f,
                    elements(f, x),
                    elements(f, dt),
                    elements(f, a),
                    elements(f, b),
                    0,
                    h,
                    e,
                    k,
                    i,
                ),
        ),
{
    reveal(Tensor::ssd_chunk_scan);
    reveal(elements);
    let y = x.ssd_chunk_scan(dt, a, b, c, chunk);
    let (gx, gd, ga, gb, gc) = (elements(f, x), elements(f, dt), elements(f, a), elements(f, b), elements(f, c));
    let spot = seq![0, i, h, e];
    let n = b.dims[3];
    let inner = |k: int|
        gc(seq![spot[0], spot[1], spot[2], k]) * head_state(f, gx, gd, ga, gb, spot[0], spot[2], spot[3], k, spot[1]);
    let outer = |k: int| gc(seq![0, i, h, k]) * head_state(f, gx, gd, ga, gb, 0, h, e, k, i);
    assert(inner =~= outer);
    assert(elements(f, y) == quin_elements(f, Op::SsdChunkScan(chunk), x.dims, n, gx, gd, ga, gb, gc));
    assert(elements(f, y)(spot) == sum(n, inner));
}

proof fn states_read(
    f: Functions,
    gx: Grid,
    gs: Grid,
    ga: Grid,
    gb: Grid,
    x: Rows,
    step: Rows,
    a: spec_fn(int) -> real,
    b: Rows,
    width: int,
    n: int,
    per: int,
    h: int,
    c: int,
    k: int,
    t: int,
)
    requires
        forall|i: int| 0 <= i <= t ==> gx(#[trigger] seq![0, i, h, c]) == x(i)(h * width + c),
        forall|i: int| 0 <= i <= t ==> gs(#[trigger] seq![0, i, h]) == step(i)(h),
        forall|i: int| 0 <= i <= t ==> gb(#[trigger] seq![0, i, h, k]) == b(i)(h / per * n + k),
        ga(seq![h]) == a(h),
    ensures
        head_state(f, gx, gs, ga, gb, 0, h, c, k, t) == state(f, x, step, a, b, width, n, per, h, c, k, t),
    decreases t + 1,
{
    if t >= 0 {
        states_read(f, gx, gs, ga, gb, x, step, a, b, width, n, per, h, c, k, t - 1);
        assert(gx(seq![0, t, h, c]) == x(t)(h * width + c));
        assert(gs(seq![0, t, h]) == step(t)(h));
        assert(gb(seq![0, t, h, k]) == b(t)(h / per * n + k));
    }
}

/// The steps, number by number.
proof fn steps_read(f: Functions, w: &Mamba2LayerWeights, dt: Tensor, x: Rows, heads: int, s: int, i: int, h: int)
    requires
        has(dt, seq![1, s, heads]),
        holds(f, dt, x, s, heads),
        1 <= heads <= usize::MAX,
        w.dt_bias@.len() == heads,
        0 <= i < s,
        0 <= h < heads,
    ensures
        has(steps(w, dt, heads), seq![1, s, heads]),
        at3(f, steps(w, dt, heads), 0, i, h) == softplus(f, x(i)(h) + number(f, w.dt_bias@[h])),
{
    broadcast use {extents, readings};

    numbers_zero_one(f);
    let y = dt.broadcast_add(Tensor::constant(w.dt_bias@, seq![heads]));
    let e = y.exp();
    let o = e.add_scalar(crate::scalar::one64());
    assert(at3(f, dt, 0, i, h) == x(i)(h));
    assert(at3(f, e, 0, i, h) == (f.exp)(at3(f, y, 0, i, h)));
    assert(at3(f, o, 0, i, h) == at3(f, e, 0, i, h) + 1real);
    assert(at3(f, o.log(), 0, i, h) == (f.ln)(at3(f, o, 0, i, h))) by {
        reveal(Tensor::log);
        reveal(elements);
    }
    let v = (f.exp)(at3(f, y, 0, i, h));
    assert(v + 1real == 1real + v);
}

/// The scan with what skips it, number by number.
#[verifier::spinoff_prover]
proof fn scanned_holds(
    f: Functions,
    cfg: &Mamba2Config,
    w: &Mamba2LayerWeights,
    x0: Tensor,
    b0: Tensor,
    c0: Tensor,
    dt: Tensor,
    xs: Rows,
    bs: Rows,
    cs: Rows,
    dts: Rows,
    s: int,
)
    requires
        cfg.addressable(s),
        w.sized(cfg),
        has(x0, seq![1, s, cfg.inner()]),
        has(b0, seq![1, s, cfg.group_state()]),
        has(c0, seq![1, s, cfg.group_state()]),
        has(dt, seq![1, s, cfg.heads()]),
        holds(f, x0, xs, s, cfg.inner()),
        holds(f, b0, bs, s, cfg.group_state()),
        holds(f, c0, cs, s, cfg.group_state()),
        holds(f, dt, dts, s, cfg.heads()),
    ensures
        ({
            let heads = cfg.heads();
            let xh = x0.reshape(seq![1, s, heads, cfg.head_dim as int]);
            let b = b0.reshape(seq![1, s, cfg.ngroups as int, cfg.d_state as int]);
            let c = c0.reshape(seq![1, s, cfg.ngroups as int, cfg.d_state as int]);
            let a = Tensor::constant(w.a_log@, seq![heads]).exp().neg();
            let y = xh.ssd_chunk_scan(
                steps(w, dt, heads),
                a,
                by_head(cfg, b, 1, s),
                by_head(cfg, c, 1, s),
                cfg.chunk_size as int,
            );
            let skip = xh.broadcast_mul(Tensor::constant(w.d@, seq![heads]).reshape(seq![1, 1, heads, 1]));
            let r = y.add(skip).reshape(seq![1, s, cfg.inner()]);
            let step = |i: int| |h: int| softplus(f, dts(i)(h) + number(f, w.dt_bias@[h]));
            has(r, seq![1, s, cfg.inner()]) && holds(f, r, scanned(f, cfg, w, xs, step, bs, cs), s, cfg.inner())
        }),
{
    broadcast use {extents, readings};

    let inner = cfg.inner();
    let heads = cfg.heads();
    let hd = cfg.head_dim as int;
    let gs = cfg.group_state();
    let g = cfg.ngroups as int;
    let n = cfg.d_state as int;
    let per = heads / g;
    sizes_are_positive(cfg, s);
    assert(1 * s * (heads * hd) == s * inner && 1 * s * (g * n) == s * gs) by (nonlinear_arith)
        requires
            heads * hd == inner,
            g * n == gs,
    ;
    reshape_splits(x0, 1, s, heads, hd);
    reshape_splits(b0, 1, s, g, n);
    reshape_splits(c0, 1, s, g, n);
    let xh = x0.reshape(seq![1, s, heads, hd]);
    let b = b0.reshape(seq![1, s, g, n]);
    let c = c0.reshape(seq![1, s, g, n]);
    by_head_has(cfg, b, s);
    by_head_has(cfg, c, s);
    let (bh, ch) = (by_head(cfg, b, 1, s), by_head(cfg, c, 1, s));
    assert(heads <= inner) by (nonlinear_arith)
        requires
            heads * hd == inner,
            hd >= 1,
            heads >= 1,
    ;
    assert(inner <= s * inner) by (nonlinear_arith)
        requires
            s >= 1,
            inner >= 1,
    ;
    let logs = Tensor::constant(w.a_log@, seq![heads]);
    let a = logs.exp().neg();
    let st = steps(w, dt, heads);
    steps_read(f, w, dt, dts, heads, s, 0, 0);
    ssd_chunk_scan_keeps(xh, st, a, bh, ch, cfg.chunk_size as int);
    let y = xh.ssd_chunk_scan(st, a, bh, ch, cfg.chunk_size as int);
    products(heads, 1, 1, 1, 1, 1);
    products(1, 1, heads, 1, 1, 1);
    let dv = Tensor::constant(w.d@, seq![heads]);
    reshape_has(dv, seq![1, 1, heads, 1]);
    let gains = dv.reshape(seq![1, 1, heads, 1]);
    broadcast_mul_under(xh, gains);
    let skip = xh.broadcast_mul(gains);
    let total = y.add(skip);
    reshape_merges(total, 1, s, heads, hd);
    let r = total.reshape(seq![1, s, inner]);
    let step = |i: int| |h: int| softplus(f, dts(i)(h) + number(f, w.dt_bias@[h]));
    let av = |h: int| -(f.exp)(number(f, w.a_log@[h]));
    let want = scanned(f, cfg, w, xs, step, bs, cs);
    assert forall|i: int, e: int| 0 <= i < s && 0 <= e < inner implies #[trigger] at3(f, r, 0, i, e) == want(i)(e) by {
        head_of(e, heads, hd);
        let (h, z) = (e / hd, e % hd);
        place3(0, i, e, 1, s, inner);
        place4(0, i, h, z, 1, s, heads, hd);
        assert(((0 * s + i) * heads + h) * hd + z == (0 * s + i) * inner + e) by (nonlinear_arith)
            requires
                e == h * hd + z,
                inner == heads * hd,
        ;
        read_reshape(f, total, seq![1, s, inner], seq![0, i, h, z], seq![0, i, e]);
        parted_reads(f, x0, xs, heads, hd, s, i, h, z);
        gains_read(f, xh, w.d@, heads, hd, s, i, h, z);
        scan_reads(f, xh, st, a, bh, ch, cfg.chunk_size as int, i, h, z);
        let (gx, gd, ga, gb, gc) = (
            elements(f, xh),
            elements(f, st),
            elements(f, a),
            elements(f, bh),
            elements(f, ch),
        );
        let got = |k: int| gc(seq![0, i, h, k]) * head_state(f, gx, gd, ga, gb, 0, h, z, k, i);
        let sum_of = |k: int| cs(i)(h / per * n + k) * state(f, xs, step, av, bs, hd, n, per, h, z, k, i);
        assert forall|k: int| 0 <= k < n implies #[trigger] got(k) == sum_of(k) by {
            assert forall|m: int| 0 <= m <= i implies gx(#[trigger] seq![0, m, h, z]) == xs(m)(h * hd + z) by {
                parted_reads(f, x0, xs, heads, hd, s, m, h, z);
                assert(at4(f, xh, 0, m, h, z) == gx(seq![0, m, h, z]));
            }
            assert forall|m: int| 0 <= m <= i implies gd(#[trigger] seq![0, m, h]) == step(m)(h) by {
                steps_read(f, w, dt, dts, heads, s, m, h);
                assert(at3(f, st, 0, m, h) == gd(seq![0, m, h]));
            }
            assert forall|m: int| 0 <= m <= i implies gb(#[trigger] seq![0, m, h, k]) == bs(m)(h / per * n + k) by {
                by_head_reads(f, cfg, b, s, m, h, k);
                parted_reads(f, b0, bs, g, n, s, m, h / per, k);
                assert(at4(f, bh, 0, m, h, k) == gb(seq![0, m, h, k]));
            }
            by_head_reads(f, cfg, c, s, i, h, k);
            parted_reads(f, c0, cs, g, n, s, i, h / per, k);
            assert(at4(f, ch, 0, i, h, k) == gc(seq![0, i, h, k]));
            assert(at1(f, a, h) == -(f.exp)(at1(f, logs, h)));
            states_read(f, gx, gd, ga, gb, xs, step, av, bs, hd, n, per, h, z, k, i);
        }
        sums_alike(n, got, sum_of);
        assert(at4(f, total, 0, i, h, z) == at4(f, y, 0, i, h, z) + at4(f, skip, 0, i, h, z));
    }
}

/// Heads times their gains, number by number.
proof fn gains_read(f: Functions, xh: Tensor, d: Seq<Scalar>, heads: int, hd: int, s: int, i: int, h: int, z: int)
    requires
        has(xh, seq![1, s, heads, hd]),
        has(Tensor::constant(d, seq![heads]), seq![heads]),
        has(Tensor::constant(d, seq![heads]).reshape(seq![1, 1, heads, 1]), seq![1, 1, heads, 1]),
        !xh.broadcast_mul(Tensor::constant(d, seq![heads]).reshape(seq![1, 1, heads, 1])).bad(),
        0 <= i < s,
        0 <= h < heads,
        0 <= z < hd,
    ensures
        at4(f, xh.broadcast_mul(Tensor::constant(d, seq![heads]).reshape(seq![1, 1, heads, 1])), 0, i, h, z) == at4(
            f,
            xh,
            0,
            i,
            h,
            z,
        ) * number(f, d[h]),
{
    broadcast use readings;

    let dv = Tensor::constant(d, seq![heads]);
    let gains = dv.reshape(seq![1, 1, heads, 1]);
    let spot = seq![0, i, h, z];
    assert(under(spot, gains.dims) =~= seq![0, 0, h, 0]) by {
        assert(heads == 1 ==> h == 0);
    }
    assert(under(spot, xh.dims) == spot) by {
        under_same(spot, xh.dims);
    }
    assert(at(f, xh.broadcast_mul(gains), spot) == at(f, xh, spot) * at(f, gains, seq![0, 0, h, 0])) by {
        reveal(Tensor::broadcast_mul);
        reveal(elements);
    }
    place1(h, heads);
    place4(0, 0, h, 0, 1, 1, heads, 1);
    assert(((0 * 1 + 0) * heads + h) * 1 + 0 == h) by (nonlinear_arith);
    read_reshape(f, dv, seq![1, 1, heads, 1], seq![h], seq![0, 0, h, 0]);
    assert(at1(f, dv, h) == number(f, d[h]));
}

/// A mixer, number by number.
#[verifier::spinoff_prover]
pub proof fn mixer_reads(f: Functions, cfg: &Mamba2Config, w: &Mamba2LayerWeights, t: Tensor, x: Rows, s: int)
    requires
        cfg.addressable(s),
        w.sized(cfg),
        has(t, seq![1, s, cfg.d_model as int]),
        holds(f, t, x, s, cfg.d_model as int),
    ensures
        has(mixer(cfg, w, t), seq![1, s, cfg.d_model as int]),
        holds(f, mixer(cfg, w, t), mixed_by(f, cfg, w, x), s, cfg.d_model as int),
{
    broadcast use {extents, readings};

    let d = cfg.d_model as int;
    let inner = cfg.inner();
    let heads = cfg.heads();
    let gs = cfg.group_state();
    let xbc = cfg.xbc();
    let all = cfg.proj();
    sizes_are_positive(cfg, s);
    let proj = t.linear(w.in_proj@, d, all);
    let projs = linear_rows(f, x, w.in_proj@, d, all);
    linear_holds(f, t, x, w.in_proj@, d, all, s);
    cut_holds(f, proj, projs, s, all, 0, inner);
    cut_holds(f, proj, projs, s, all, inner, xbc);
    cut_holds(f, proj, projs, s, all, inner + xbc, heads);
    let (z, zs) = (proj.narrow(2, 0, inner), cut_rows(projs, 0));
    let (dt, dts) = (proj.narrow(2, inner + xbc, heads), cut_rows(projs, inner + xbc));
    let taps = D_CONV as int;
    filter_holds(
        f,
        proj.narrow(2, inner, xbc),
        cut_rows(projs, inner),
        w.conv1d_weight@,
        w.conv1d_bias@,
        taps,
        s,
        xbc,
    );
    let conv = proj.narrow(2, inner, xbc).permute(seq![0, 2, 1]).pad_with_zeros(2, D_CONV - 1, 0).causal_conv1d(
        Tensor::constant(w.conv1d_weight@, seq![xbc, 1, D_CONV as int]),
        Tensor::constant(w.conv1d_bias@, seq![xbc]),
        true,
    ).permute(seq![0, 2, 1]);
    let convs = convolved_rows(f, cut_rows(projs, inner), w.conv1d_weight@, w.conv1d_bias@, taps);
    cut_holds(f, conv, convs, s, xbc, 0, inner);
    cut_holds(f, conv, convs, s, xbc, inner, gs);
    cut_holds(f, conv, convs, s, xbc, inner + gs, gs);
    let (x0, b0, c0) = (conv.narrow(2, 0, inner), conv.narrow(2, inner, gs), conv.narrow(2, inner + gs, gs));
    let (xs, bs, cs) = (cut_rows(convs, 0), cut_rows(convs, inner), cut_rows(convs, inner + gs));
    scanned_holds(f, cfg, w, x0, b0, c0, dt, xs, bs, cs, dts, s);
    let xh = x0.reshape(seq![1, s, heads, cfg.head_dim as int]);
    let b = b0.reshape(seq![1, s, cfg.ngroups as int, cfg.d_state as int]);
    let c = c0.reshape(seq![1, s, cfg.ngroups as int, cfg.d_state as int]);
    let a = Tensor::constant(w.a_log@, seq![heads]).exp().neg();
    let y = xh.ssd_chunk_scan(
        steps(w, dt, heads),
        a,
        by_head(cfg, b, 1, s),
        by_head(cfg, c, 1, s),
        cfg.chunk_size as int,
    );
    let skip = xh.broadcast_mul(Tensor::constant(w.d@, seq![heads]).reshape(seq![1, 1, heads, 1]));
    let flat = y.add(skip).reshape(seq![1, s, inner]);
    let step = |i: int| |h: int| softplus(f, dts(i)(h) + number(f, w.dt_bias@[h]));
    let ys = scanned(f, cfg, w, xs, step, bs, cs);
    rms_norm_holds(f, flat, ys, w.out_norm_gain@, inner, cfg.rms_norm_eps, s);
    let n = flat.rms_norm(w.out_norm_gain@, inner, cfg.rms_norm_eps);
    let ns = rms_normed_rows(f, ys, w.out_norm_gain@, inner, cfg.rms_norm_eps);
    let gated = n.mul(z.silu());
    let gates = |i: int| |e: int| ns(i)(e) * silu(f, zs(i)(e));
    assert(has(gated, seq![1, s, inner]));
    assert forall|i: int, e: int| 0 <= i < s && 0 <= e < inner implies #[trigger] at3(f, gated, 0, i, e) == gates(i)(
        e,
    ) by {
        assert(at3(f, n, 0, i, e) == ns(i)(e));
        assert(at3(f, z, 0, i, e) == zs(i)(e));
        assert(at3(f, z.silu(), 0, i, e) == silu(f, at3(f, z, 0, i, e)));
        assert(at3(f, gated, 0, i, e) == at3(f, n, 0, i, e) * at3(f, z.silu(), 0, i, e));
    }
    linear_holds(f, gated, gates, w.out_proj@, inner, d, s);
}

/// A block, number by number.
pub proof fn block_reads(f: Functions, cfg: &Mamba2Config, w: &Mamba2LayerWeights, t: Tensor, x: Rows, s: int)
    requires
        cfg.addressable(s),
        w.sized(cfg),
        has(t, seq![1, s, cfg.d_model as int]),
        holds(f, t, x, s, cfg.d_model as int),
    ensures
        has(residual_block(cfg, w, t), seq![1, s, cfg.d_model as int]),
        holds(f, residual_block(cfg, w, t), after_block(f, cfg, w, x), s, cfg.d_model as int),
{
    let d = cfg.d_model as int;
    let n = t.rms_norm(w.norm_gain@, d, cfg.rms_norm_eps);
    let ns = rms_normed_rows(f, x, w.norm_gain@, d, cfg.rms_norm_eps);
    rms_norm_holds(f, t, x, w.norm_gain@, d, cfg.rms_norm_eps, s);
    mixer_reads(f, cfg, w, n, ns, s);
    sum_holds(f, t, mixer(cfg, w, n), x, mixed_by(f, cfg, w, ns), s, d);
}

/// The first blocks, number by number.
pub proof fn blocks_read(
    f: Functions,
    cfg: &Mamba2Config,
    layers: Seq<Mamba2LayerWeights>,
    n: int,
    t: Tensor,
    x: Rows,
    s: int,
)
    requires
        cfg.addressable(s),
        0 <= n <= layers.len(),
        forall|i: int| 0 <= i < layers.len() ==> (#[trigger] layers[i]).sized(cfg),
        has(t, seq![1, s, cfg.d_model as int]),
        holds(f, t, x, s, cfg.d_model as int),
    ensures
        has(blocks(cfg, layers, n, t), seq![1, s, cfg.d_model as int]),
        holds(f, blocks(cfg, layers, n, t), after_blocks(f, cfg, layers, n, x), s, cfg.d_model as int),
    decreases n,
{
    if n > 0 {
        blocks_read(f, cfg, layers, n - 1, t, x, s);
        block_reads(
            f,
            cfg,
            &layers[n - 1],
            blocks(cfg, layers, n - 1, t),
            after_blocks(f, cfg, layers, n - 1, x),
            s,
        );
    }
}

/// The logits of tokens, number by number.
pub proof fn logits_read(f: Functions, model: &Mamba2Model, tokens: Seq<u32>)
    requires
        model.config.addressable(tokens.len() as int),
        model.weights.sized(&model.config),
    ensures
        ({
            let cfg = &model.config;
            let w = &model.weights;
            let d = cfg.d_model as int;
            let s = tokens.len() as int;
            let y = after_blocks(
                f,
                cfg,
                w.layers@,
                w.layers@.len() as int,
                token_rows(f, w.token_embedding@, d, tokens),
            );
            holds(
                f,
                model.logits(tokens),
                linear_rows(
                    f,
                    rms_normed_rows(f, y, w.final_norm_gain@, d, cfg.rms_norm_eps),
                    w.output@,
                    d,
                    cfg.vocab(),
                ),
                s,
                cfg.vocab(),
            )
        }),
{
    let cfg = &model.config;
    let w = &model.weights;
    let d = cfg.d_model as int;
    let v = cfg.vocab();
    let s = tokens.len() as int;
    let last = w.layers@.len() as int;
    assert(v * d == d * v) by (nonlinear_arith);
    embed_has(w.token_embedding@, v, d, tokens);
    let e = Tensor::embed_tokens(w.token_embedding@, v, d, tokens);
    let es = token_rows(f, w.token_embedding@, d, tokens);
    embedding_holds(f, w.token_embedding@, v, d, tokens);
    blocks_read(f, cfg, w.layers@, last, e, es, s);
    let y = blocks(cfg, w.layers@, last, e);
    let ys = after_blocks(f, cfg, w.layers@, last, es);
    rms_norm_holds(f, y, ys, w.final_norm_gain@, d, cfg.rms_norm_eps, s);
    linear_holds(
        f,
        model.hidden(tokens),
        rms_normed_rows(f, ys, w.final_norm_gain@, d, cfg.rms_norm_eps),
        w.output@,
        d,
        v,
        s,
    );
}

} // verus!
