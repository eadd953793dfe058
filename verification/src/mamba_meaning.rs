//! What the first Mamba computes, number by number.

use crate::extents::{constant_has, embed_has, extents, has, products};
use crate::formulas::Rows;
use crate::lazy::{Op, Tensor};
use crate::lazy_mamba::{
    blocks, mixer, residual_block, MambaConfig, MambaLayerWeights, MambaModel, D_CONV, D_STATE,
};
use crate::meaning::{
    at1, at2, at3, elements, number, quin_elements, scan_state, silu, softplus, sum, Functions,
    Grid,
};
use crate::mistral_meaning::{embedding_holds, token_rows};
use crate::readings::{readings, sums_alike};
use crate::rows_read::{
    affine_holds, affine_rows, cut_holds, cut_rows, holds, linear_holds, linear_rows, rms_norm_holds,
    rms_normed_rows, sum_holds, sum_rows,
};
use crate::scalar::Scalar;
use vstd::prelude::*;

verus! {

/// Each channel of the rows through its own filter over the last `taps` positions,
/// with zeros before the first, then SiLU.
pub open spec fn convolved_rows(f: Functions, x: Rows, w: Seq<Scalar>, b: Seq<Scalar>, taps: int) -> Rows {
    |i: int| |c: int|
        silu(
            f,
            number(f, b[c]) + sum(
                taps,
                |k: int|
                    (if i + k - (taps - 1) >= 0 {
                        x(i + k - (taps - 1))(c)
                    } else {
                        0real
                    }) * number(f, w[c * taps + k]),
            ),
        )
}

/// The state of channel `c`, component `k`, after position `t`: what is left of the
/// state before it, plus the input at the position.
pub open spec fn state(
    f: Functions,
    u: Rows,
    step: Rows,
    a: spec_fn(int, int) -> real,
    b: Rows,
    c: int,
    k: int,
    t: int,
) -> real
    decreases t + 1,
{
    if t < 0 {
        0real
    } else {
        (f.exp)(step(t)(c) * a(c, k)) * state(f, u, step, a, b, c, k, t - 1) + step(t)(c) * b(t)(k) * u(t)(c)
    }
}

/// The rows after a mixer.
pub open spec fn mixed_by(f: Functions, cfg: &MambaConfig, w: &MambaLayerWeights, x: Rows) -> Rows {
    let inner = cfg.inner();
    let rank = cfg.rank();
    let n = D_STATE as int;
    let xz = linear_rows(f, x, w.in_proj@, cfg.d_model as int, 2 * inner);
    let u = convolved_rows(f, cut_rows(xz, 0), w.conv1d_weight@, w.conv1d_bias@, D_CONV as int);
    let z = cut_rows(xz, inner);
    let proj = linear_rows(f, u, w.x_proj@, inner, rank + 2 * n);
    let delta = affine_rows(f, cut_rows(proj, 0), w.dt_proj@, w.dt_proj_bias@, rank, inner);
    let step = |i: int| |c: int| softplus(f, delta(i)(c));
    let b = cut_rows(proj, rank);
    let c = cut_rows(proj, rank + n);
    let a = |e: int, k: int| -(f.exp)(number(f, w.a_log@[e * n + k]));
    let gated = |i: int| |e: int|
        (sum(n, |k: int| c(i)(k) * state(f, u, step, a, b, e, k, i)) + u(i)(e) * number(f, w.d@[e])) * silu(
            f,
            z(i)(e),
        );
    linear_rows(f, gated, w.out_proj@, inner, cfg.d_model as int)
}

/// The rows after a block: those before it, plus what the mixer makes of them,
/// normed.
pub open spec fn after_block(f: Functions, cfg: &MambaConfig, w: &MambaLayerWeights, x: Rows) -> Rows {
    sum_rows(
        x,
        mixed_by(f, cfg, w, rms_normed_rows(f, x, w.norm_gain@, cfg.d_model as int, cfg.rms_norm_eps)),
    )
}

/// The rows after the first `n` blocks.
pub open spec fn after_blocks(
    f: Functions,
    cfg: &MambaConfig,
    layers: Seq<MambaLayerWeights>,
    n: int,
    x: Rows,
) -> Rows
    decreases n,
{
    if n <= 0 {
        x
    } else {
        after_block(f, cfg, &layers[n - 1], after_blocks(f, cfg, layers, n - 1, x))
    }
}

/// The filters of the channels, number by number.
#[verifier::spinoff_prover]
pub proof fn filter_holds(
    f: Functions,
    t: Tensor,
    x: Rows,
    w: Seq<Scalar>,
    b: Seq<Scalar>,
    taps: int,
    s: int,
    n: int,
)
    requires
        has(t, seq![1, s, n]),
        holds(f, t, x, s, n),
        1 <= n <= usize::MAX,
        1 <= taps,
        s >= 1,
        s + taps <= usize::MAX,
        n * taps <= usize::MAX,
        w.len() == n * taps,
        b.len() == n,
    ensures
        ({
            let y = t.permute(seq![0, 2, 1]).pad_with_zeros(2, taps - 1, 0).causal_conv1d(
                Tensor::constant(w, seq![n, 1, taps]),
                Tensor::constant(b, seq![n]),
                true,
            ).permute(seq![0, 2, 1]);
            has(y, seq![1, s, n]) && holds(f, y, convolved_rows(f, x, w, b, taps), s, n)
        }),
{
    broadcast use {extents, readings};

    products(n, 1, taps, 1, 1, 1);
    assert(n * 1 * taps == n * taps) by (nonlinear_arith);
    constant_has(w, seq![n, 1, taps]);
    let (kernel, bias) = (Tensor::constant(w, seq![n, 1, taps]), Tensor::constant(b, seq![n]));
    let p = t.permute(seq![0, 2, 1]);
    assert(p.dims =~= seq![1, n, s]);
    let front = p.pad_with_zeros(2, taps - 1, 0);
    assert(front.dims =~= seq![1, n, s + taps - 1]);
    let y = front.causal_conv1d(kernel, bias, true);
    assert(has(y, seq![1, n, s]));
    let z = y.permute(seq![0, 2, 1]);
    let rows = convolved_rows(f, x, w, b, taps);
    assert forall|i: int, c: int| 0 <= i < s && 0 <= c < n implies #[trigger] at3(f, z, 0, i, c) == rows(i)(c) by {
        let (gf, gk, gb) = (elements(f, front), elements(f, kernel), elements(f, bias));
        let spot = seq![0, c, i];
        let got = |k: int| gf(seq![spot[0], spot[1], spot[2] + k]) * gk(seq![spot[1], 0, k]);
        let want = |k: int|
            (if i + k - (taps - 1) >= 0 {
                x(i + k - (taps - 1))(c)
            } else {
                0real
            }) * number(f, w[c * taps + k]);
        assert forall|k: int| 0 <= k < taps implies #[trigger] got(k) == want(k) by {
            padded_reads(f, p, taps - 1, c, i + k, n, s);
            let from = i + k - (taps - 1);
            if from >= 0 {
                assert(at3(f, p, 0, c, from) == at3(f, t, 0, from, c));
                assert(at3(f, t, 0, from, c) == x(from)(c));
            }
            assert(at3(f, kernel, c, 0, k) == number(f, w[(c * 1 + 0) * taps + k]));
            assert(gf(seq![0, c, i + k]) == at3(f, front, 0, c, i + k));
            assert(gk(seq![c, 0, k]) == at3(f, kernel, c, 0, k));
        }
        sums_alike(taps, got, want);
        assert(at3(f, y, 0, c, i) == silu(f, gb(seq![c]) + sum(taps, got))) by {
            reveal(Tensor::causal_conv1d);
            reveal(elements);
            assert(spot[0] == 0 && spot[1] == c && spot[2] == i);
        }
        assert(gb(seq![c]) == at1(f, bias, c));
        assert(at3(f, z, 0, i, c) == at3(f, y, 0, c, i));
    }
}

/// Zeros before a signal.
proof fn padded_reads(f: Functions, p: Tensor, left: int, c: int, i: int, n: int, s: int)
    requires
        has(p, seq![1, n, s]),
        !p.pad_with_zeros(2, left, 0).bad(),
        0 <= c < n,
        0 <= i < s + left,
        left >= 0,
    ensures
        at3(f, p.pad_with_zeros(2, left, 0), 0, c, i) == if i >= left {
            at3(f, p, 0, c, i - left)
        } else {
            0real
        },
{
    reveal(Tensor::pad_with_zeros);
    reveal(elements);
    let spot = seq![0, c, i];
    let from = seq![0, c, i - left];
    assert(spot.update(2, spot[2] - left) =~= from);
    assert(p.dims =~= seq![1, n, s]);
    if i < left {
        assert(from[2] < 0);
    }
}

/// The states of a scan, number by number.
proof fn states_read(
    f: Functions,
    gu: Grid,
    gs: Grid,
    ga: Grid,
    gb: Grid,
    u: Rows,
    step: Rows,
    a: spec_fn(int, int) -> real,
    b: Rows,
    inner: int,
    n: int,
    c: int,
    k: int,
    t: int,
)
    requires
        0 <= c < inner,
        0 <= k < n,
        forall|i: int| 0 <= i <= t ==> gu(#[trigger] seq![0, i, c]) == u(i)(c),
        forall|i: int| 0 <= i <= t ==> gs(#[trigger] seq![0, i, c]) == step(i)(c),
        forall|i: int| 0 <= i <= t ==> gb(#[trigger] seq![0, i, k]) == b(i)(k),
        ga(seq![c, k]) == a(c, k),
    ensures
        scan_state(f, gu, gs, ga, gb, 0, c, k, t) == state(f, u, step, a, b, c, k, t),
    decreases t + 1,
{
    if t >= 0 {
        states_read(f, gu, gs, ga, gb, u, step, a, b, inner, n, c, k, t - 1);
        assert(gu(seq![0, t, c]) == u(t)(c));
        assert(gs(seq![0, t, c]) == step(t)(c));
        assert(gb(seq![0, t, k]) == b(t)(k));
    }
}

/// A scan, number by number.
proof fn scan_reads(f: Functions, u: Tensor, delta: Tensor, a: Tensor, b: Tensor, c: Tensor, i: int, e: int)
    requires
        !u.selective_scan(delta, a, b, c, true).bad(),
        !a.bad(),
    ensures
        at3(f, u.selective_scan(delta, a, b, c, true), 0, i, e) == sum(
            a.dims[1],
            |k: int|
                elements(f, c)(seq![0, i, k]) * scan_state(
                    f,
                    elements(f, u),
                    |j: Seq<int>| softplus(f, elements(f, delta)(j)),
                    elements(f, a),
                    elements(f, b),
                    0,
                    e,
                    k,
                    i,
                ),
        ),
{
    reveal(Tensor::selective_scan);
    reveal(elements);
    let y = u.selective_scan(delta, a, b, c, true);
    let (gu, gd, ga, gb, gc) = (
        elements(f, u),
        elements(f, delta),
        elements(f, a),
        elements(f, b),
        elements(f, c),
    );
    let spot = seq![0, i, e];
    let soft = true;
    let step = |j: Seq<int>|
        if soft {
            softplus(f, gd(j))
        } else {
            gd(j)
        };
    let want = |j: Seq<int>| softplus(f, gd(j));
    assert(step =~= want);
    let inner = |k: int| gc(seq![spot[0], spot[1], k]) * scan_state(f, gu, step, ga, gb, spot[0], spot[2], k, spot[1]);
    let outer = |k: int| gc(seq![0, i, k]) * scan_state(f, gu, want, ga, gb, 0, e, k, i);
    assert(inner =~= outer);
    assert(elements(f, y) == quin_elements(f, Op::SelectiveScan(true), u.dims, a.dims[1], gu, gd, ga, gb, gc));
    assert(elements(f, y)(spot) == sum(a.dims[1], inner));
}

/// A mixer, number by number.
#[verifier::spinoff_prover]
pub proof fn mixer_reads(f: Functions, cfg: &MambaConfig, w: &MambaLayerWeights, t: Tensor, x: Rows, s: int)
    requires
        cfg.addressable(s),
        w.sized(cfg),
        has(t, seq![1, s, cfg.d_model as int]),
        holds(f, t, x, s, cfg.d_model as int),
    ensures
        has(mixer(cfg, w, t), seq![1, s, cfg.d_model as int]),
        holds(f, mixer(cfg, w, t), mixed_by(f, cfg, w, x), s, cfg.d_model as int),
{
    broadcast use {extents, readings};

    let d = cfg.d_model as int;
    let inner = cfg.inner();
    let rank = cfg.rank();
    let n = D_STATE as int;
    assert(inner * d <= d * (2 * inner)) by (nonlinear_arith)
        requires
            d >= 1,
            inner >= 1,
    ;
    let xz = t.linear(w.in_proj@, d, 2 * inner);
    let xzs = linear_rows(f, x, w.in_proj@, d, 2 * inner);
    linear_holds(f, t, x, w.in_proj@, d, 2 * inner, s);
    cut_holds(f, xz, xzs, s, 2 * inner, 0, inner);
    cut_holds(f, xz, xzs, s, 2 * inner, inner, inner);
    let z = xz.narrow(2, inner, inner);
    let zs = cut_rows(xzs, inner);
    let taps = D_CONV as int;
    filter_holds(f, xz.narrow(2, 0, inner), cut_rows(xzs, 0), w.conv1d_weight@, w.conv1d_bias@, taps, s, inner);
    let u = xz.narrow(2, 0, inner).permute(seq![0, 2, 1]).pad_with_zeros(2, D_CONV - 1, 0).causal_conv1d(
        Tensor::constant(w.conv1d_weight@, seq![inner, 1, D_CONV as int]),
        Tensor::constant(w.conv1d_bias@, seq![inner]),
        true,
    ).permute(seq![0, 2, 1]);
    let us = convolved_rows(f, cut_rows(xzs, 0), w.conv1d_weight@, w.conv1d_bias@, taps);
    let proj = u.linear(w.x_proj@, inner, rank + 2 * n);
    let projs = linear_rows(f, us, w.x_proj@, inner, rank + 2 * n);
    linear_holds(f, u, us, w.x_proj@, inner, rank + 2 * n, s);
    cut_holds(f, proj, projs, s, rank + 2 * n, 0, rank);
    cut_holds(f, proj, projs, s, rank + 2 * n, rank, n);
    cut_holds(f, proj, projs, s, rank + 2 * n, rank + n, n);
    affine_holds(f, proj.narrow(2, 0, rank), cut_rows(projs, 0), w.dt_proj@, w.dt_proj_bias@, rank, inner, s);
    let delta = proj.narrow(2, 0, rank).affine(w.dt_proj@, w.dt_proj_bias@, rank, inner);
    let deltas = affine_rows(f, cut_rows(projs, 0), w.dt_proj@, w.dt_proj_bias@, rank, inner);
    let (b, c) = (proj.narrow(2, rank, n), proj.narrow(2, rank + n, n));
    let (bs, cs) = (cut_rows(projs, rank), cut_rows(projs, rank + n));
    products(inner, n, 1, 1, 1, 1);
    constant_has(w.a_log@, seq![inner, n]);
    let logs = Tensor::constant(w.a_log@, seq![inner, n]);
    let a = logs.exp().neg();
    let av = |e: int, k: int| -(f.exp)(number(f, w.a_log@[e * n + k]));
    let step = |i: int| |e: int| softplus(f, deltas(i)(e));
    let y = u.selective_scan(delta, a, b, c, true);
    assert(has(y, seq![1, s, inner]));
    let gain = Tensor::constant(w.d@, seq![inner]);
    let skip = u.broadcast_mul(gain);
    let gated = y.add(skip).mul(z.silu());
    assert(has(gated, seq![1, s, inner]));
    let gs = |i: int| |e: int|
        (sum(n, |k: int| cs(i)(k) * state(f, us, step, av, bs, e, k, i)) + us(i)(e) * number(f, w.d@[e])) * silu(
            f,
            zs(i)(e),
        );
    assert forall|i: int, e: int| 0 <= i < s && 0 <= e < inner implies #[trigger] at3(f, gated, 0, i, e) == gs(i)(
        e,
    ) by {
        let (gu, gd, ga, gb, gc) = (
            elements(f, u),
            elements(f, delta),
            elements(f, a),
            elements(f, b),
            elements(f, c),
        );
        let soft = |j: Seq<int>| softplus(f, gd(j));
        let got = |k: int| gc(seq![0, i, k]) * scan_state(f, gu, soft, ga, gb, 0, e, k, i);
        let want = |k: int| cs(i)(k) * state(f, us, step, av, bs, e, k, i);
        assert forall|k: int| 0 <= k < n implies #[trigger] got(k) == want(k) by {
            assert forall|m: int| 0 <= m <= i implies gu(#[trigger] seq![0, m, e]) == us(m)(e) by {
                assert(at3(f, u, 0, m, e) == us(m)(e));
            }
            assert forall|m: int| 0 <= m <= i implies soft(#[trigger] seq![0, m, e]) == step(m)(e) by {
                assert(at3(f, delta, 0, m, e) == deltas(m)(e));
            }
            assert forall|m: int| 0 <= m <= i implies gb(#[trigger] seq![0, m, k]) == bs(m)(k) by {
                assert(at3(f, b, 0, m, k) == bs(m)(k));
            }
            assert(at2(f, a, e, k) == -(f.exp)(at2(f, logs, e, k)));
            states_read(f, gu, soft, ga, gb, us, step, av, bs, inner, n, e, k, i);
            assert(at3(f, c, 0, i, k) == cs(i)(k));
        }
        sums_alike(n, got, want);
        scan_reads(f, u, delta, a, b, c, i, e);
        assert(at3(f, u, 0, i, e) == us(i)(e));
        assert(at3(f, z, 0, i, e) == zs(i)(e));
        assert(at3(f, skip, 0, i, e) == at3(f, u, 0, i, e) * at1(f, gain, e));
        assert(at3(f, y.add(skip), 0, i, e) == at3(f, y, 0, i, e) + at3(f, skip, 0, i, e));
        assert(at3(f, gated, 0, i, e) == at3(f, y.add(skip), 0, i, e) * at3(f, z.silu(), 0, i, e));
        assert(at3(f, z.silu(), 0, i, e) == silu(f, at3(f, z, 0, i, e)));
    }
    linear_holds(f, gated, gs, w.out_proj@, inner, d, s);
}

/// A block, number by number.
pub proof fn block_reads(f: Functions, cfg: &MambaConfig, w: &MambaLayerWeights, t: Tensor, x: Rows, s: int)
    requires
        cfg.addressable(s),
        w.sized(cfg),
        has(t, seq![1, s, cfg.d_model as int]),
        holds(f, t, x, s, cfg.d_model as int),
    ensures
        has(residual_block(cfg, w, t), seq![1, s, cfg.d_model as int]),
        holds(f, residual_block(cfg, w, t), after_block(f, cfg, w, x), s, cfg.d_model as int),
{
    let d = cfg.d_model as int;
    let n = t.rms_norm(w.norm_gain@, d, cfg.rms_norm_eps);
    let ns = rms_normed_rows(f, x, w.norm_gain@, d, cfg.rms_norm_eps);
    rms_norm_holds(f, t, x, w.norm_gain@, d, cfg.rms_norm_eps, s);
    mixer_reads(f, cfg, w, n, ns, s);
    sum_holds(f, t, mixer(cfg, w, n), x, mixed_by(f, cfg, w, ns), s, d);
}

/// The first blocks, number by number.
pub proof fn blocks_read(
    f: Functions,
    cfg: &MambaConfig,
    layers: Seq<MambaLayerWeights>,
    n: int,
    t: Tensor,
    x: Rows,
    s: int,
)
    requires
        cfg.addressable(s),
        0 <= n <= layers.len(),
        forall|i: int| 0 <= i < layers.len() ==> (#[trigger] layers[i]).sized(cfg),
        has(t, seq![1, s, cfg.d_model as int]),
        holds(f, t, x, s, cfg.d_model as int),
    ensures
        has(blocks(cfg, layers, n, t), seq![1, s, cfg.d_model as int]),
        holds(f, blocks(cfg, layers, n, t), after_blocks(f, cfg, layers, n, x), s, cfg.d_model as int),
    decreases n,
{
    if n > 0 {
        blocks_read(f, cfg, layers, n - 1, t, x, s);
        block_reads(
            f,
            cfg,
            &layers[n - 1],
            blocks(cfg, layers, n - 1, t),
            after_blocks(f, cfg, layers, n - 1, x),
            s,
        );
    }
}

/// The logits of tokens, number by number.
pub proof fn logits_read(f: Functions, model: &MambaModel, tokens: Seq<u32>)
    requires
        model.config.addressable(tokens.len() as int),
        model.weights.sized(&model.config),
    ensures
        ({
            let cfg = &model.config;
            let w = &model.weights;
            let d = cfg.d_model as int;
            let s = tokens.len() as int;
            let y = after_blocks(
                f,
                cfg,
                w.layers@,
                w.layers@.len() as int,
                token_rows(f, w.token_embedding@, d, tokens),
            );
            holds(
                f,
                model.logits(tokens),
                linear_rows(
                    f,
                    rms_normed_rows(f, y, w.final_norm_gain@, d, cfg.rms_norm_eps),
                    w.output@,
                    d,
                    cfg.vocab(),
                ),
                s,
                cfg.vocab(),
            )
        }),
{
    let cfg = &model.config;
    let w = &model.weights;
    let d = cfg.d_model as int;
    let v = cfg.vocab();
    let s = tokens.len() as int;
    let last = w.layers@.len() as int;
    assert(v * d == d * v) by (nonlinear_arith);
    embed_has(w.token_embedding@, v, d, tokens);
    let e = Tensor::embed_tokens(w.token_embedding@, v, d, tokens);
    let es = token_rows(f, w.token_embedding@, d, tokens);
    embedding_holds(f, w.token_embedding@, v, d, tokens);
    blocks_read(f, cfg, w.layers@, last, e, es, s);
    let y = blocks(cfg, w.layers@, last, e);
    let ys = after_blocks(f, cfg, w.layers@, last, es);
    rms_norm_holds(f, y, ys, w.final_norm_gain@, d, cfg.rms_norm_eps, s);
    linear_holds(
        f,
        model.hidden(tokens),
        rms_normed_rows(f, ys, w.final_norm_gain@, d, cfg.rms_norm_eps),
        w.output@,
        d,
        v,
        s,
    );
}

} // verus!
