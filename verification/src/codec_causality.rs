//! What the codec makes of a position does not depend on what comes after it.
//!
//! Under every lawful evaluation, signals that agree up to some moment are encoded
//! and decoded to signals that agree up to that moment.

use crate::codec_extents::{
    activated_keeps, channels_after, conv_follows, conv_succeeds, convs_have, downsample_succeeds,
    encoder_channels, encoder_follows, encoder_frames, encoder_stages_have, heads_of_has, norm_has,
    padded_has, residuals_have, rotated_has, spread_has, tables_have, transformer_layers_have,
    transformer_succeeds,
};
use crate::common::causal_data;
use crate::evaluation::{
    agrees, lawful, mixed, regroups_behind, regroups_front, same, table_row, At,
};
use crate::extents::{
    broadcast_to_has, constant_has, extents, has, products, reshape_has, reshape_merges,
    reshape_splits,
};
use crate::lazy::Tensor;
use crate::lazy_mimi_conv::{edge, padded, LazyPadMode};
use crate::lazy_mimi_resampler::ConvDownsample1dWeights;
use crate::lazy_mimi_seanet::{
    activated, convs_value, encoder_stages, residuals_value, LazyConv1dWeights, SeaNetActivation,
    SeaNetConfig, SeaNetEncoderLayerWeights, SeaNetEncoderWeights, SeaNetResnetBlockWeights,
};
use crate::lazy_mimi_transformer::{
    angle, angle_table, angle_tensor, causal_square, heads_of, layers_value, rotated, spread, LayerNormWeights, MimiAttentionWeights,
    MimiTransformerConfig, MimiTransformerLayerWeights, ProjectedTransformerWeights,
};
use crate::scalar::{inv_sqrt64, one64, unary, Precision, Scalar, UnaryFn};
use vstd::prelude::*;

verus! {

/// A padded signal agrees as far as the signal does.
pub proof fn padded_agrees<V>(
    at: At<V>,
    x: Tensor,
    y: Tensor,
    left: int,
    mode: LazyPadMode,
    c: int,
    t: int,
    u: int,
    m: int,
)
    requires
        lawful(at),
        has(x, seq![1, c, t]),
        has(y, seq![1, c, u]),
        1 <= m <= t,
        m <= u,
        left >= 0,
        t + left <= usize::MAX,
        u + left <= usize::MAX,
        agrees(at, x, y, 2, m),
    ensures
        agrees(at, padded(x, left, 0, mode), padded(y, left, 0, mode), 2, m + left),
{
    broadcast use extents;

    padded_has(x, left, mode, 1, c, t);
    padded_has(y, left, mode, 1, c, u);
    let px = padded(x, left, 0, mode);
    let py = padded(y, left, 0, mode);
    if left > 0 {
        match mode {
            LazyPadMode::Constant => {
                assert forall|j: int| 0 <= j < m + left implies #[trigger] same(at, px, py, 2, j) by {
                    if j >= left {
                        assert(same(at, x, y, 2, j - left));
                    }
                    assert(same(
                        at,
                        x.pad_with_zeros(2, left, 0),
                        y.pad_with_zeros(2, left, 0),
                        2,
                        j,
                    ));
                }
            },
            LazyPadMode::Replicate => {
                let fx = x.narrow(2, 0, 1);
                let fy = y.narrow(2, 0, 1);
                assert(fx.dims =~= seq![1, c, 1]);
                assert(fy.dims =~= seq![1, c, 1]);
                let d = seq![1, c, left];
                assert(d =~= fx.dims.update(2, d[2]));
                broadcast_to_has(fx, d);
                broadcast_to_has(fy, d);
                let ex = edge(x, 0, left);
                let ey = edge(y, 0, left);
                assert(same(at, x, y, 2, 0));
                assert forall|j: int| 0 <= j < m + left implies #[trigger] same(at, px, py, 2, j) by {
                    assert(at(ex.concat(x, 2), 2, j) == if j < left {
                        at(ex, 2, j)
                    } else {
                        at(x, 2, j - left)
                    });
                    assert(at(ey.concat(y, 2), 2, j) == if j < left {
                        at(ey, 2, j)
                    } else {
                        at(y, 2, j - left)
                    });
                    if j < left {
                        assert(at(fx.broadcast_to(d), 2, j) == at(fx, 2, 0));
                        assert(at(fy.broadcast_to(d), 2, j) == at(fy, 2, 0));
                        assert(at(x.narrow(2, 0, 1), 2, 0) == at(x, 2, 0));
                        assert(at(y.narrow(2, 0, 1), 2, 0) == at(y, 2, 0));
                    } else {
                        assert(same(at, x, y, 2, j - left));
                    }
                }
            },
        }
    }
}

/// A position that is made of `s` comes from such as agree.
proof fn kept_position(j: int, m: int, s: int)
    requires
        0 <= j < m / s,
        s >= 1,
    ensures
        0 <= j * s,
        j * s + s <= m,
{
    assert(0 <= j * s && j * s + s <= m) by (nonlinear_arith)
        requires
            0 <= j < m / s,
            s >= 1,
    ;
}

/// A causal convolution agrees at every position that it makes of those at which
/// its signals agree.
pub proof fn conv_agrees<V>(
    at: At<V>,
    w: &LazyConv1dWeights,
    x: Tensor,
    y: Tensor,
    mode: LazyPadMode,
    c: int,
    t: int,
    u: int,
    m: int,
)
    requires
        lawful(at),
        w.reads(c),
        w.covers(t),
        w.covers(u),
        has(x, seq![1, c, t]),
        has(y, seq![1, c, u]),
        w.stride <= m <= t,
        m <= u,
        agrees(at, x, y, 2, m),
    ensures
        agrees(at, w.value(x, mode), w.value(y, mode), 2, m / w.stride as int),
{
    let r = w.reach();
    let s = w.stride as int;
    assert((w.kernel_size - 1) * w.dilation >= 0) by (nonlinear_arith)
        requires
            w.kernel_size >= 1,
            w.dilation >= 1,
    ;
    conv_succeeds(w, x, mode, 1, c, t);
    conv_succeeds(w, y, mode, 1, c, u);
    padded_agrees(at, x, y, r - s, mode, c, t, u, m);
    let px = padded(x, r - s, 0, mode);
    let py = padded(y, r - s, 0, mode);
    let k = w.kernel();
    kernel_extent(w, c);
    assert forall|j: int| 0 <= j < m / s implies #[trigger] same(
        at,
        w.value(x, mode),
        w.value(y, mode),
        2,
        j,
    ) by {
        kept_position(j, m, s);
        assert forall|i: int| 0 <= i < k.dim(2) implies #[trigger] same(at, px, py, 2, j * s + i) by {
            assert(0 <= j * s + i < m + (r - s));
        }
        assert(same(
            at,
            px.conv1d(k, w.bias_value(), s, 0, w.groups as int),
            py.conv1d(k, w.bias_value(), s, 0, w.groups as int),
            2,
            j,
        ));
    }
}

/// The kernel of a convolution is as long as its reach.
proof fn kernel_extent(w: &LazyConv1dWeights, c: int)
    requires
        w.reads(c),
    ensures
        w.kernel().dim(2) == w.reach(),
{
    let o = w.out_channels as int;
    let p = w.per_group();
    let r = w.reach();
    assert((w.kernel_size - 1) * w.dilation >= 0) by (nonlinear_arith)
        requires
            w.kernel_size >= 1,
            w.dilation >= 1,
    ;
    assert(p >= 1) by (nonlinear_arith)
        requires
            p * w.groups == c,
            c >= 1,
            w.groups >= 1,
    ;
    products(o, p, r, 1, 1, 1);
    assert(o * p * r >= 0) by (nonlinear_arith)
        requires
            o >= 1,
            p >= 1,
            r >= 1,
    ;
    constant_has(
        crate::lazy_mimi_seanet::spread_taps(
            w.weight@,
            w.rows(),
            w.kernel_size as int,
            w.dilation as int,
        ),
        seq![o, p, r],
    );
}

pub proof fn activated_agrees<V>(at: At<V>, x: Tensor, y: Tensor, act: SeaNetActivation, a: int, m: int)
    requires
        lawful(at),
        !x.bad(),
        !y.bad(),
        agrees(at, x, y, a, m),
    ensures
        agrees(at, activated(x, act), activated(y, act), a, m),
{
    assert forall|j: int| 0 <= j < m implies #[trigger] same(
        at,
        activated(x, act),
        activated(y, act),
        a,
        j,
    ) by {
        assert(same(at, x, y, a, j));
        match act {
            SeaNetActivation::Elu1 => {
                assert(same(at, x.elu(one64()), y.elu(one64()), a, j));
            },
            SeaNetActivation::Gelu => {
                assert(same(at, x.gelu(), y.gelu(), a, j));
            },
            SeaNetActivation::Relu => {
                assert(same(at, x.relu(), y.relu(), a, j));
            },
            SeaNetActivation::Silu => {
                assert(same(at, x.silu(), y.silu(), a, j));
            },
        }
    }
}

proof fn sums_agree<V>(at: At<V>, x: Tensor, v: Tensor, y: Tensor, w: Tensor, a: int, m: int)
    requires
        lawful(at),
        !x.add(v).bad(),
        !y.add(w).bad(),
        agrees(at, x, y, a, m),
        agrees(at, v, w, a, m),
    ensures
        agrees(at, x.add(v), y.add(w), a, m),
{
    assert forall|j: int| 0 <= j < m implies #[trigger] same(at, x.add(v), y.add(w), a, j) by {
        assert(same(at, x, y, a, j));
        assert(same(at, v, w, a, j));
    }
}

proof fn convs_agree<V>(
    at: At<V>,
    convs: Seq<LazyConv1dWeights>,
    n: int,
    x: Tensor,
    y: Tensor,
    act: SeaNetActivation,
    mode: LazyPadMode,
    c: int,
    t: int,
    u: int,
    m: int,
)
    requires
        lawful(at),
        forall|i: int| 0 <= i < convs.len() ==> #[trigger] conv_follows(convs, i, c, t),
        forall|i: int| 0 <= i < convs.len() ==> #[trigger] conv_follows(convs, i, c, u),
        0 <= n <= convs.len(),
        has(x, seq![1, c, t]),
        has(y, seq![1, c, u]),
        1 <= m <= t,
        m <= u,
        agrees(at, x, y, 2, m),
    ensures
        agrees(at, convs_value(convs, n, x, act, mode), convs_value(convs, n, y, act, mode), 2, m),
    decreases n,
{
    if n > 0 {
        convs_agree(at, convs, n - 1, x, y, act, mode, c, t, u, m);
        convs_have(convs, n - 1, x, act, mode, 1, c, t);
        convs_have(convs, n - 1, y, act, mode, 1, c, u);
        let a = convs_value(convs, n - 1, x, act, mode);
        let b = convs_value(convs, n - 1, y, act, mode);
        activated_agrees(at, a, b, act, 2, m);
        activated_keeps(a, act);
        activated_keeps(b, act);
        assert(conv_follows(convs, n - 1, c, t));
        assert(conv_follows(convs, n - 1, c, u));
        conv_agrees(
            at,
            &convs[n - 1],
            activated(a, act),
            activated(b, act),
            mode,
            channels_after(convs, n - 1, c),
            t,
            u,
            m,
        );
        assert((m - 1) / 1 == m - 1);
    }
}

pub proof fn residuals_agree<V>(
    at: At<V>,
    blocks: Seq<SeaNetResnetBlockWeights>,
    n: int,
    x: Tensor,
    y: Tensor,
    act: SeaNetActivation,
    mode: LazyPadMode,
    c: int,
    t: int,
    u: int,
    m: int,
)
    requires
        lawful(at),
        forall|i: int| 0 <= i < blocks.len() ==> (#[trigger] blocks[i]).keeps(c, t),
        forall|i: int| 0 <= i < blocks.len() ==> (#[trigger] blocks[i]).keeps(c, u),
        0 <= n <= blocks.len(),
        has(x, seq![1, c, t]),
        has(y, seq![1, c, u]),
        1 <= m <= t,
        m <= u,
        agrees(at, x, y, 2, m),
    ensures
        agrees(
            at,
            residuals_value(blocks, n, x, act, mode),
            residuals_value(blocks, n, y, act, mode),
            2,
            m,
        ),
    decreases n,
{
    if n > 0 {
        residuals_agree(at, blocks, n - 1, x, y, act, mode, c, t, u, m);
        residuals_have(blocks, n - 1, x, act, mode, 1, c, t);
        residuals_have(blocks, n - 1, y, act, mode, 1, c, u);
        residuals_have(blocks, n, x, act, mode, 1, c, t);
        residuals_have(blocks, n, y, act, mode, 1, c, u);
        let a = residuals_value(blocks, n - 1, x, act, mode);
        let b = residuals_value(blocks, n - 1, y, act, mode);
        let w = blocks[n - 1];
        assert(w.keeps(c, t) && w.keeps(c, u));
        let k = w.convs@.len() as int;
        convs_agree(at, w.convs@, k, a, b, act, mode, c, t, u, m);
        if let Some(s) = w.shortcut {
            conv_agrees(at, &s, a, b, mode, c, t, u, m);
            assert((m - 1) / 1 == m - 1);
            sums_agree(
                at,
                convs_value(w.convs@, k, a, act, mode),
                s.value(a, mode),
                convs_value(w.convs@, k, b, act, mode),
                s.value(b, mode),
                2,
                m,
            );
        } else {
            sums_agree(
                at,
                convs_value(w.convs@, k, a, act, mode),
                a,
                convs_value(w.convs@, k, b, act, mode),
                b,
                2,
                m,
            );
        }
    }
}

proof fn encoder_stages_agree<V>(
    at: At<V>,
    layers: Seq<SeaNetEncoderLayerWeights>,
    n: int,
    x: Tensor,
    y: Tensor,
    act: SeaNetActivation,
    mode: LazyPadMode,
    c: int,
    t: int,
    u: int,
    m: int,
)
    requires
        lawful(at),
        forall|i: int| 0 <= i < layers.len() ==> #[trigger] encoder_follows(layers, i, c, t),
        forall|i: int| 0 <= i < layers.len() ==> #[trigger] encoder_follows(layers, i, c, u),
        0 <= n <= layers.len(),
        has(x, seq![1, c, t]),
        has(y, seq![1, c, u]),
        1 <= m <= t,
        m <= u,
        agrees(at, x, y, 2, m),
    ensures
        agrees(
            at,
            encoder_stages(layers, n, x, act, mode),
            encoder_stages(layers, n, y, act, mode),
            2,
            encoder_frames(layers, n, m),
        ),
        0 <= encoder_frames(layers, n, m) <= encoder_frames(layers, n, t),
        encoder_frames(layers, n, m) <= encoder_frames(layers, n, u),
    decreases n,
{
    if n > 0 {
        encoder_stages_agree(at, layers, n - 1, x, y, act, mode, c, t, u, m);
        encoder_stages_have(layers, n - 1, x, act, mode, 1, c, t);
        encoder_stages_have(layers, n - 1, y, act, mode, 1, c, u);
        assert(encoder_follows(layers, n - 1, c, t));
        assert(encoder_follows(layers, n - 1, c, u));
        let w = layers[n - 1];
        let ci = encoder_channels(layers, n - 1, c);
        let ti = encoder_frames(layers, n - 1, t);
        let ui = encoder_frames(layers, n - 1, u);
        let mi = encoder_frames(layers, n - 1, m);
        let a = encoder_stages(layers, n - 1, x, act, mode);
        let b = encoder_stages(layers, n - 1, y, act, mode);
        let k = w.residuals@.len() as int;
        let s = w.downsample.stride as int;
        vstd::arithmetic::div_mod::lemma_div_is_ordered(mi, ti, s);
        vstd::arithmetic::div_mod::lemma_div_is_ordered(mi, ui, s);
        if mi < s {
            vstd::arithmetic::div_mod::lemma_fundamental_div_mod_converse(mi, s, 0, mi);
        } else {
            residuals_agree(at, w.residuals@, k, a, b, act, mode, ci, ti, ui, mi);
            residuals_have(w.residuals@, k, a, act, mode, 1, ci, ti);
            residuals_have(w.residuals@, k, b, act, mode, 1, ci, ui);
            let ra = residuals_value(w.residuals@, k, a, act, mode);
            let rb = residuals_value(w.residuals@, k, b, act, mode);
            activated_agrees(at, ra, rb, act, 2, mi);
            activated_keeps(ra, act);
            activated_keeps(rb, act);
            conv_agrees(
                at,
                &w.downsample,
                activated(ra, act),
                activated(rb, act),
                mode,
                ci,
                ti,
                ui,
                mi,
            );
        }
    }
}

/// Audio that agrees at its first `m` samples has latents that agree at as many
/// positions as `m` samples give.
pub proof fn encoder_is_causal<V>(
    at: At<V>,
    w: &SeaNetEncoderWeights,
    cfg: &SeaNetConfig,
    x: Tensor,
    y: Tensor,
    t: int,
    u: int,
    m: int,
)
    requires
        lawful(at),
        w.fits_together(cfg, t),
        w.fits_together(cfg, u),
        has(x, seq![1, cfg.channels as int, t]),
        has(y, seq![1, cfg.channels as int, u]),
        1 <= m <= t,
        m <= u,
        agrees(at, x, y, 2, m),
    ensures
        agrees(at, w.value(cfg, x), w.value(cfg, y), 2, w.frames(m)),
        0 <= w.frames(m) <= w.frames(t),
        w.frames(m) <= w.frames(u),
{
    let n = w.layers@.len() as int;
    let act = cfg.activation;
    let mode = cfg.pad_mode;
    let c0 = cfg.channels as int;
    let c = w.init_conv.out_channels as int;
    conv_succeeds(&w.init_conv, x, mode, 1, c0, t);
    conv_succeeds(&w.init_conv, y, mode, 1, c0, u);
    conv_agrees(at, &w.init_conv, x, y, mode, c0, t, u, m);
    assert(m / 1 == m);
    let x1 = w.init_conv.value(x, mode);
    let y1 = w.init_conv.value(y, mode);
    encoder_stages_agree(at, w.layers@, n, x1, y1, act, mode, c, t, u, m);
    encoder_stages_have(w.layers@, n, x1, act, mode, 1, c, t);
    encoder_stages_have(w.layers@, n, y1, act, mode, 1, c, u);
    let x2 = encoder_stages(w.layers@, n, x1, act, mode);
    let y2 = encoder_stages(w.layers@, n, y1, act, mode);
    let f = w.frames(m);
    if f > 0 {
        activated_agrees(at, x2, y2, act, 2, f);
        activated_keeps(x2, act);
        activated_keeps(y2, act);
        conv_agrees(
            at,
            &w.final_conv,
            activated(x2, act),
            activated(y2, act),
            mode,
            encoder_channels(w.layers@, n, c),
            w.frames(t),
            w.frames(u),
            f,
        );
        assert(f / 1 == f);
    }
}

/// One half of each pair of features of a head.
pub open spec fn half_of(x: Tensor, h: int, t: int, half: int, i: int) -> Tensor {
    x.reshape(seq![1, h, t, half, 2]).narrow(4, i, 1).reshape(seq![1, h, t, half])
}

proof fn half_agrees<V>(
    at: At<V>,
    x: Tensor,
    y: Tensor,
    h: int,
    t: int,
    u: int,
    half: int,
    i: int,
    m: int,
)
    requires
        lawful(at),
        has(x, seq![1, h, t, 2 * half]),
        has(y, seq![1, h, u, 2 * half]),
        h >= 1,
        half >= 1,
        1 <= m <= t,
        m <= u,
        0 <= i < 2,
        h * t * (2 * half) <= usize::MAX,
        h * u * (2 * half) <= usize::MAX,
        agrees(at, x, y, 2, m),
    ensures
        has(half_of(x, h, t, half, i), seq![1, h, t, half]),
        has(half_of(y, h, u, half, i), seq![1, h, u, half]),
        agrees(at, half_of(x, h, t, half, i), half_of(y, h, u, half, i), 2, m),
{
    half_has(x, h, t, half, i);
    half_has(y, h, u, half, i);
    let d = seq![1, h, t, half, 2];
    let e = seq![1, h, u, half, 2];
    let px = x.reshape(d);
    let py = y.reshape(e);
    let d4 = seq![1, h, t, half];
    let e4 = seq![1, h, u, half];
    assert(regroups_behind(x.dims, y.dims, d, e, 2));
    let nx = px.narrow(4, i, 1);
    let ny = py.narrow(4, i, 1);
    assert(regroups_behind(nx.dims, ny.dims, d4, e4, 2));
    assert forall|j: int| 0 <= j < m implies #[trigger] same(
        at,
        half_of(x, h, t, half, i),
        half_of(y, h, u, half, i),
        2,
        j,
    ) by {
        assert(same(at, x, y, 2, j));
        assert(same(at, px, py, 2, j));
        assert(same(at, nx, ny, 2, j));
        assert(same(at, nx.reshape(d4), ny.reshape(e4), 2, j));
    }
}

proof fn half_has(x: Tensor, h: int, t: int, half: int, i: int)
    requires
        has(x, seq![1, h, t, 2 * half]),
        h >= 1,
        half >= 1,
        t >= 1,
        0 <= i < 2,
        h * t * (2 * half) <= usize::MAX,
    ensures
        has(x.reshape(seq![1, h, t, half, 2]), seq![1, h, t, half, 2]),
        has(x.reshape(seq![1, h, t, half, 2]).narrow(4, i, 1), seq![1, h, t, half, 1]),
        has(half_of(x, h, t, half, i), seq![1, h, t, half]),
{
    broadcast use extents;

    products(1, h, t, 2 * half, 1, 1);
    products(1, h, t, half, 2, 1);
    products(1, h, t, half, 1, 1);
    let n = 1 * h * t;
    assert(n >= 1) by (nonlinear_arith)
        requires
            n == 1 * h * t,
            h >= 1,
            t >= 1,
    ;
    assert(n * half * 2 == n * (2 * half) && n * half <= n * (2 * half) && n * half * 1 == n * half)
        by (nonlinear_arith)
        requires
            n >= 1,
            half >= 1,
    ;
    reshape_has(x, seq![1, h, t, half, 2]);
    let e = x.reshape(seq![1, h, t, half, 2]).narrow(4, i, 1);
    assert(e.dims =~= seq![1, h, t, half, 1]);
    reshape_has(e, seq![1, h, t, half]);
}

/// A table of angles spread over the heads.
pub open spec fn angles_over(f: UnaryFn, h: int, t: int, w: int, period: Scalar) -> Tensor {
    angle_tensor(f, t, w, period).reshape(seq![1, 1, t, w / 2]).broadcast_to(seq![1, h, t, w / 2])
}

proof fn angles_have(f: UnaryFn, h: int, t: int, w: int, period: Scalar)
    requires
        h >= 1,
        t >= 1,
        w >= 2,
        t * (w / 2) <= usize::MAX,
    ensures
        has(angle_tensor(f, t, w, period), seq![t, w / 2]),
        has(
            angle_tensor(f, t, w, period).reshape(seq![1, 1, t, w / 2]),
            seq![1, 1, t, w / 2],
        ),
        has(angles_over(f, h, t, w, period), seq![1, h, t, w / 2]),
{
    let half = w / 2;
    tables_have(f, t, w, period);
    products(t, half, 1, 1, 1, 1);
    products(1, 1, t, half, 1, 1);
    assert(1 * 1 * t * half == t * half);
    let table = angle_tensor(f, t, w, period);
    reshape_has(table, seq![1, 1, t, half]);
    broadcast_to_has(table.reshape(seq![1, 1, t, half]), seq![1, h, t, half]);
}

/// The angles of a position do not depend on how many positions there are.
proof fn angles_agree<V>(
    at: At<V>,
    f: UnaryFn,
    h: int,
    t: int,
    u: int,
    w: int,
    period: Scalar,
    m: int,
)
    requires
        lawful(at),
        h >= 1,
        w >= 2,
        1 <= m <= t,
        m <= u,
        t * (w / 2) <= usize::MAX,
        u * (w / 2) <= usize::MAX,
    ensures
        agrees(at, angles_over(f, h, t, w, period), angles_over(f, h, u, w, period), 2, m),
{
    let half = w / 2;
    angles_have(f, h, t, w, period);
    angles_have(f, h, u, w, period);
    let c = angle_table(f, t, w, period);
    let e = angle_table(f, u, w, period);
    let ct = angle_tensor(f, t, w, period);
    let et = angle_tensor(f, u, w, period);
    let d4 = seq![1, 1, t, half];
    let e4 = seq![1, 1, u, half];
    let dh = seq![1, h, t, half];
    let eh = seq![1, h, u, half];
    assert(regroups_front(ct.dims, et.dims, d4, e4, 0, 2));
    assert(d4.update(2, u) =~= e4);
    assert(dh.update(2, u) =~= eh);
    assert forall|j: int| 0 <= j < m implies #[trigger] same(
        at,
        angles_over(f, h, t, w, period),
        angles_over(f, h, u, w, period),
        2,
        j,
    ) by {
        assert forall|i: int| 0 <= i < half implies c[j * half + i] == #[trigger] e[j * half + i] by {
            angle_entry(f, t, w, period, j, i);
            angle_entry(f, u, w, period, j, i);
        }
        assert(table_row(c, half, j) =~= table_row(e, half, j));
        assert(same(at, Tensor::constant(c, seq![t, half]), Tensor::constant(e, seq![u, half]), 0, j));
        assert(same(at, ct.reshape(d4), et.reshape(e4), 2, j));
        assert(same(at, ct.reshape(d4).broadcast_to(dh), et.reshape(e4).broadcast_to(eh), 2, j));
    }
}

proof fn angle_entry(f: UnaryFn, t: int, w: int, period: Scalar, j: int, i: int)
    requires
        w >= 2,
        0 <= j < t,
        0 <= i < w / 2,
    ensures
        angle_table(f, t, w, period)[j * (w / 2) + i] == unary(
            Precision::Single,
            f,
            angle(j, i, w, period),
        ),
{
    let half = w / 2;
    vstd::arithmetic::div_mod::lemma_fundamental_div_mod_converse(j * half + i, half, j, i);
    assert(0 <= j * half + i < t * half) by (nonlinear_arith)
        requires
            0 <= j < t,
            0 <= i < half,
    ;
}

/// Features turned by their positions agree as far as they did.
proof fn rotated_agrees<V>(
    at: At<V>,
    x: Tensor,
    y: Tensor,
    h: int,
    t: int,
    u: int,
    w: int,
    period: Scalar,
    m: int,
)
    requires
        lawful(at),
        has(x, seq![1, h, t, w]),
        has(y, seq![1, h, u, w]),
        h >= 1,
        w >= 2,
        w % 2 == 0,
        1 <= m <= t,
        m <= u,
        h * t * w <= usize::MAX,
        h * u * w <= usize::MAX,
        t * (w / 2) <= usize::MAX,
        u * (w / 2) <= usize::MAX,
        agrees(at, x, y, 2, m),
    ensures
        agrees(
            at,
            rotated(
                x,
                angle_tensor(UnaryFn::Cos, t, w, period),
                angle_tensor(UnaryFn::Sin, t, w, period),
                1,
                h,
                t,
                w,
            ),
            rotated(
                y,
                angle_tensor(UnaryFn::Cos, u, w, period),
                angle_tensor(UnaryFn::Sin, u, w, period),
                1,
                h,
                u,
                w,
            ),
            2,
            m,
        ),
{
    let half = w / 2;
    assert(2 * half == w);
    half_agrees(at, x, y, h, t, u, half, 0, m);
    half_agrees(at, x, y, h, t, u, half, 1, m);
    angles_agree(at, UnaryFn::Cos, h, t, u, w, period, m);
    angles_agree(at, UnaryFn::Sin, h, t, u, w, period, m);
    let (xp, xr) = turned_parts(x, h, t, w, period);
    let (yp, yr) = turned_parts(y, h, u, w, period);
    let d = seq![1, h, t, half, 2];
    let e = seq![1, h, u, half, 2];
    let d4 = seq![1, h, t, w];
    let e4 = seq![1, h, u, w];
    let xb = xp.unsqueeze(4).concat(xr.unsqueeze(4), 4);
    let yb = yp.unsqueeze(4).concat(yr.unsqueeze(4), 4);
    assert(regroups_behind(d, e, d4, e4, 2));
    let (xe, xo) = (half_of(x, h, t, half, 0), half_of(x, h, t, half, 1));
    let (ye, yo) = (half_of(y, h, u, half, 0), half_of(y, h, u, half, 1));
    let (xc, xs) = (
        angles_over(UnaryFn::Cos, h, t, w, period),
        angles_over(UnaryFn::Sin, h, t, w, period),
    );
    let (yc, ys) = (
        angles_over(UnaryFn::Cos, h, u, w, period),
        angles_over(UnaryFn::Sin, h, u, w, period),
    );
    assert forall|j: int| 0 <= j < m implies #[trigger] same(at, xb.reshape(d4), yb.reshape(e4), 2, j) by {
        assert(same(at, xe, ye, 2, j) && same(at, xo, yo, 2, j));
        assert(same(at, xc, yc, 2, j) && same(at, xs, ys, 2, j));
        assert(same(at, xe.mul(xc), ye.mul(yc), 2, j));
        assert(same(at, xo.mul(xs), yo.mul(ys), 2, j));
        assert(same(at, xe.mul(xs), ye.mul(ys), 2, j));
        assert(same(at, xo.mul(xc), yo.mul(yc), 2, j));
        assert(same(at, xp, yp, 2, j));
        assert(same(at, xr, yr, 2, j));
        assert(same(at, xp.unsqueeze(4), yp.unsqueeze(4), 2, j));
        assert(same(at, xr.unsqueeze(4), yr.unsqueeze(4), 2, j));
        assert(same(at, xb, yb, 2, j));
    }
}

/// The two halves of the turned features, before they are put together.
proof fn turned_parts(x: Tensor, h: int, t: int, w: int, period: Scalar) -> (r: (Tensor, Tensor))
    requires
        has(x, seq![1, h, t, w]),
        h >= 1,
        w >= 2,
        w % 2 == 0,
        t >= 1,
        h * t * w <= usize::MAX,
        t * (w / 2) <= usize::MAX,
    ensures
        ({
            let half = w / 2;
            let xe = half_of(x, h, t, half, 0);
            let xo = half_of(x, h, t, half, 1);
            let c = angles_over(UnaryFn::Cos, h, t, w, period);
            let s = angles_over(UnaryFn::Sin, h, t, w, period);
            let d = seq![1, h, t, half];
            &&& r.0 == xe.mul(c).sub(xo.mul(s))
            &&& r.1 == xe.mul(s).add(xo.mul(c))
            &&& has(xe.mul(c), d)
            &&& has(xe.mul(s), d)
            &&& has(xo.mul(c), d)
            &&& has(xo.mul(s), d)
            &&& has(r.0, d)
            &&& has(r.1, d)
            &&& !r.0.unsqueeze(4).bad()
            &&& !r.1.unsqueeze(4).bad()
            &&& has(r.0.unsqueeze(4).concat(r.1.unsqueeze(4), 4), seq![1, h, t, half, 2])
            &&& !r.0.unsqueeze(4).concat(r.1.unsqueeze(4), 4).reshape(seq![1, h, t, w]).bad()
            &&& r.0.unsqueeze(4).concat(r.1.unsqueeze(4), 4).reshape(seq![1, h, t, w]) == rotated(
                x,
                angle_tensor(UnaryFn::Cos, t, w, period),
                angle_tensor(UnaryFn::Sin, t, w, period),
                1,
                h,
                t,
                w,
            )
        }),
{
    broadcast use extents;

    let half = w / 2;
    assert(2 * half == w);
    half_has(x, h, t, half, 0);
    half_has(x, h, t, half, 1);
    angles_have(UnaryFn::Cos, h, t, w, period);
    angles_have(UnaryFn::Sin, h, t, w, period);
    let xe = half_of(x, h, t, half, 0);
    let xo = half_of(x, h, t, half, 1);
    let c = angles_over(UnaryFn::Cos, h, t, w, period);
    let s = angles_over(UnaryFn::Sin, h, t, w, period);
    let p = xe.mul(c).sub(xo.mul(s));
    let r = xe.mul(s).add(xo.mul(c));
    assert(p.unsqueeze(4).dims =~= seq![1, h, t, half, 1]);
    assert(r.unsqueeze(4).dims =~= seq![1, h, t, half, 1]);
    let both = p.unsqueeze(4).concat(r.unsqueeze(4), 4);
    assert(both.dims =~= seq![1, h, t, half, 2]);
    assert(1 * h * t * w == h * t * w);
    rotated_has(
        x,
        angle_tensor(UnaryFn::Cos, t, w, period),
        angle_tensor(UnaryFn::Sin, t, w, period),
        1,
        h,
        t,
        w,
    );
    (p, r)
}

/// A projection split into heads agrees as far as its rows.
proof fn heads_agree<V>(
    at: At<V>,
    x: Tensor,
    y: Tensor,
    w: Seq<Scalar>,
    cfg: &MimiTransformerConfig,
    t: int,
    u: int,
    m: int,
)
    requires
        lawful(at),
        cfg.addressable(1, t),
        cfg.addressable(1, u),
        has(x, seq![1, t, cfg.d_model as int]),
        has(y, seq![1, u, cfg.d_model as int]),
        w.len() == cfg.d_model * cfg.d_model,
        1 <= m <= t,
        m <= u,
        agrees(at, x, y, 1, m),
    ensures
        agrees(at, heads_of(x, w, cfg, 1, t), heads_of(y, w, cfg, 1, u), 2, m),
{
    broadcast use extents;

    let d = cfg.d_model as int;
    let h = cfg.num_heads as int;
    let wd = cfg.width();
    let lx = x.linear(w, d, d);
    let ly = y.linear(w, d, d);
    assert(wd >= 1) by (nonlinear_arith)
        requires
            h * wd == d,
            d >= 1,
            h >= 1,
    ;
    reshape_splits(lx, 1, t, h, wd);
    reshape_splits(ly, 1, u, h, wd);
    let d4 = seq![1, t, h, wd];
    let e4 = seq![1, u, h, wd];
    let p = seq![0int, 2, 1, 3];
    assert(regroups_behind(lx.dims, ly.dims, d4, e4, 1));
    assert forall|j: int| 0 <= j < m implies #[trigger] same(
        at,
        heads_of(x, w, cfg, 1, t),
        heads_of(y, w, cfg, 1, u),
        2,
        j,
    ) by {
        assert(same(at, x, y, 1, j));
        assert(same(at, lx, ly, 1, j));
        assert(same(at, lx.reshape(d4), ly.reshape(e4), 1, j));
        assert(p[2] == 1);
        assert(same(at, lx.reshape(d4).permute(p), ly.reshape(e4).permute(p), 2, j));
    }
}

/// Heads `(1, heads, time, width)` as a batch.
proof fn flat_heads_agree<V>(at: At<V>, x: Tensor, y: Tensor, h: int, t: int, u: int, w: int, m: int)
    requires
        lawful(at),
        has(x, seq![1, h, t, w]),
        has(y, seq![1, h, u, w]),
        h >= 1,
        w >= 1,
        1 <= m <= t,
        m <= u,
        h * t * w <= usize::MAX,
        h * u * w <= usize::MAX,
        agrees(at, x, y, 2, m),
    ensures
        has(x.reshape(seq![h, t, w]), seq![h, t, w]),
        has(y.reshape(seq![h, u, w]), seq![h, u, w]),
        agrees(at, x.reshape(seq![h, t, w]), y.reshape(seq![h, u, w]), 1, m),
{
    let d = seq![h, t, w];
    let e = seq![h, u, w];
    products(1, h, t, w, 1, 1);
    products(1, h, u, w, 1, 1);
    products(h, t, w, 1, 1, 1);
    products(h, u, w, 1, 1, 1);
    assert(1 * h * t * w == h * t * w);
    assert(1 * h * u * w == h * u * w);
    reshape_has(x, d);
    reshape_has(y, e);
    assert(regroups_front(x.dims, y.dims, d, e, 2, 1));
    assert forall|j: int| 0 <= j < m implies #[trigger] same(at, x.reshape(d), y.reshape(e), 1, j) by {
        assert(same(at, x, y, 2, j));
    }
}

/// The steps of attention succeed.
proof fn mixed_has(q: Tensor, k: Tensor, v: Tensor, s: Scalar, h: int, t: int, w: int)
    requires
        has(q, seq![h, t, w]),
        has(k, seq![h, t, w]),
        has(v, seq![h, t, w]),
        h >= 1,
        t >= 1,
        t * t <= usize::MAX,
    ensures
        has(mixed(q, k, v, s), seq![h, t, w]),
{
    broadcast use extents;

    products(t, t, 1, 1, 1, 1);
    products(1, t, t, 1, 1, 1);
    assert(1 * t * t == t * t);
    assert(t * t >= 0) by (nonlinear_arith);
    let mask = Tensor::constant(causal_data(t), seq![t, t]);
    constant_has(causal_data(t), seq![t, t]);
    reshape_has(mask, seq![1, t, t]);
    broadcast_to_has(mask.reshape(seq![1, t, t]), seq![h, t, t]);
    assert(has(q.matmul(k.permute(seq![0, 2, 1])).mul_scalar(s), seq![h, t, t]));
}

/// The rest of attention, after the heads were mixed.
proof fn joined_agrees<V>(
    at: At<V>,
    x: Tensor,
    y: Tensor,
    w: Seq<Scalar>,
    cfg: &MimiTransformerConfig,
    t: int,
    u: int,
    m: int,
)
    requires
        lawful(at),
        cfg.addressable(1, t),
        cfg.addressable(1, u),
        has(x, seq![cfg.num_heads as int, t, cfg.width()]),
        has(y, seq![cfg.num_heads as int, u, cfg.width()]),
        w.len() == cfg.d_model * cfg.d_model,
        1 <= m <= t,
        m <= u,
        agrees(at, x, y, 1, m),
    ensures
        has(joined(x, w, cfg, t), seq![1, t, cfg.d_model as int]),
        has(joined(y, w, cfg, u), seq![1, u, cfg.d_model as int]),
        agrees(at, joined(x, w, cfg, t), joined(y, w, cfg, u), 1, m),
{
    let d = cfg.d_model as int;
    let h = cfg.num_heads as int;
    let wd = cfg.width();
    joined_has(x, w, cfg, t);
    joined_has(y, w, cfg, u);
    let d4 = seq![1, h, t, wd];
    let e4 = seq![1, h, u, wd];
    let p = seq![0int, 2, 1, 3];
    let xr = x.reshape(d4);
    let yr = y.reshape(e4);
    assert(regroups_front(x.dims, y.dims, d4, e4, 1, 2));
    let xp = xr.permute(p);
    let yp = yr.permute(p);
    let d3 = seq![1, t, d];
    let e3 = seq![1, u, d];
    assert(regroups_behind(xp.dims, yp.dims, d3, e3, 1));
    assert forall|j: int| 0 <= j < m implies #[trigger] same(at, joined(x, w, cfg, t), joined(y, w, cfg, u), 1, j) by {
        assert(same(at, x, y, 1, j));
        assert(same(at, xr, yr, 2, j));
        assert(p[1] == 2);
        assert(same(at, xp, yp, 1, j));
        assert(same(at, xp.reshape(d3), yp.reshape(e3), 1, j));
        assert(same(at, xp.reshape(d3).linear(w, d, d), yp.reshape(e3).linear(w, d, d), 1, j));
    }
}

/// Mixed heads put together and mapped.
pub open spec fn joined(x: Tensor, w: Seq<Scalar>, cfg: &MimiTransformerConfig, t: int) -> Tensor {
    let d = cfg.d_model as int;
    x.reshape(seq![1, cfg.num_heads as int, t, cfg.width()]).permute(seq![0, 2, 1, 3]).reshape(
        seq![1, t, d],
    ).linear(w, d, d)
}

proof fn joined_has(x: Tensor, w: Seq<Scalar>, cfg: &MimiTransformerConfig, t: int)
    requires
        cfg.addressable(1, t),
        has(x, seq![cfg.num_heads as int, t, cfg.width()]),
        w.len() == cfg.d_model * cfg.d_model,
    ensures
        ({
            let h = cfg.num_heads as int;
            let wd = cfg.width();
            let d = cfg.d_model as int;
            let r = x.reshape(seq![1, h, t, wd]);
            &&& has(r, seq![1, h, t, wd])
            &&& has(r.permute(seq![0, 2, 1, 3]), seq![1, t, h, wd])
            &&& has(r.permute(seq![0, 2, 1, 3]).reshape(seq![1, t, d]), seq![1, t, d])
            &&& has(joined(x, w, cfg, t), seq![1, t, d])
        }),
{
    broadcast use extents;

    let h = cfg.num_heads as int;
    let wd = cfg.width();
    let d = cfg.d_model as int;
    assert(wd >= 1) by (nonlinear_arith)
        requires
            h * wd == d,
            d >= 1,
            h >= 1,
    ;
    assert(h * t * wd == 1 * t * d && 1 * h * t * wd == h * t * wd && 1 * t * (h * wd) == 1 * t * d)
        by (nonlinear_arith)
        requires
            h * wd == d,
    ;
    products(h, t, wd, 1, 1, 1);
    products(1, h, t, wd, 1, 1);
    reshape_has(x, seq![1, h, t, wd]);
    let rows = x.reshape(seq![1, h, t, wd]).permute(seq![0, 2, 1, 3]);
    reshape_merges(rows, 1, t, h, wd);
}

/// A position attends to the positions up to its own.
proof fn attention_agrees<V>(
    at: At<V>,
    w: &MimiAttentionWeights,
    cfg: &MimiTransformerConfig,
    x: Tensor,
    y: Tensor,
    t: int,
    u: int,
    m: int,
)
    requires
        lawful(at),
        cfg.addressable(1, t),
        cfg.addressable(1, u),
        w.q_proj@.len() == cfg.d_model * cfg.d_model,
        w.k_proj@.len() == cfg.d_model * cfg.d_model,
        w.v_proj@.len() == cfg.d_model * cfg.d_model,
        w.o_proj@.len() == cfg.d_model * cfg.d_model,
        has(x, seq![1, t, cfg.d_model as int]),
        has(y, seq![1, u, cfg.d_model as int]),
        1 <= m <= t,
        m <= u,
        agrees(at, x, y, 1, m),
    ensures
        has(attention(w, cfg, x, t), seq![1, t, cfg.d_model as int]),
        has(attention(w, cfg, y, u), seq![1, u, cfg.d_model as int]),
        agrees(at, attention(w, cfg, x, t), attention(w, cfg, y, u), 1, m),
{
    let d = cfg.d_model as int;
    let h = cfg.num_heads as int;
    let wd = cfg.width();
    let period = cfg.max_period;
    heads_of_has(x, w.q_proj@, cfg, 1, t);
    heads_of_has(x, w.k_proj@, cfg, 1, t);
    heads_of_has(x, w.v_proj@, cfg, 1, t);
    heads_of_has(y, w.q_proj@, cfg, 1, u);
    heads_of_has(y, w.k_proj@, cfg, 1, u);
    heads_of_has(y, w.v_proj@, cfg, 1, u);
    heads_agree(at, x, y, w.q_proj@, cfg, t, u, m);
    heads_agree(at, x, y, w.k_proj@, cfg, t, u, m);
    heads_agree(at, x, y, w.v_proj@, cfg, t, u, m);
    assert(h * t * wd == 1 * t * d && h * u * wd == 1 * u * d && 1 * h * t * wd == h * t * wd && 1 * h * u * wd
        == h * u * wd) by (nonlinear_arith)
        requires
            h * wd == d,
    ;
    let (ct, st) = (
        angle_tensor(UnaryFn::Cos, t, wd, period),
        angle_tensor(UnaryFn::Sin, t, wd, period),
    );
    let (cu, su) = (
        angle_tensor(UnaryFn::Cos, u, wd, period),
        angle_tensor(UnaryFn::Sin, u, wd, period),
    );
    tables_have(UnaryFn::Cos, t, wd, period);
    tables_have(UnaryFn::Sin, t, wd, period);
    tables_have(UnaryFn::Cos, u, wd, period);
    tables_have(UnaryFn::Sin, u, wd, period);
    let (hq, gq) = (heads_of(x, w.q_proj@, cfg, 1, t), heads_of(y, w.q_proj@, cfg, 1, u));
    let (hk, gk) = (heads_of(x, w.k_proj@, cfg, 1, t), heads_of(y, w.k_proj@, cfg, 1, u));
    let (hv, gv) = (heads_of(x, w.v_proj@, cfg, 1, t), heads_of(y, w.v_proj@, cfg, 1, u));
    rotated_has(hq, ct, st, 1, h, t, wd);
    rotated_has(hk, ct, st, 1, h, t, wd);
    rotated_has(gq, cu, su, 1, h, u, wd);
    rotated_has(gk, cu, su, 1, h, u, wd);
    rotated_agrees(at, hq, gq, h, t, u, wd, period, m);
    rotated_agrees(at, hk, gk, h, t, u, wd, period, m);
    let (rq, sq) = (rotated(hq, ct, st, 1, h, t, wd), rotated(gq, cu, su, 1, h, u, wd));
    let (rk, sk) = (rotated(hk, ct, st, 1, h, t, wd), rotated(gk, cu, su, 1, h, u, wd));
    flat_heads_agree(at, rq, sq, h, t, u, wd, m);
    flat_heads_agree(at, rk, sk, h, t, u, wd, m);
    flat_heads_agree(at, hv, gv, h, t, u, wd, m);
    let dt = seq![h, t, wd];
    let du = seq![h, u, wd];
    let s = inv_sqrt64(wd as usize);
    let mx = mixed(rq.reshape(dt), rk.reshape(dt), hv.reshape(dt), s);
    let my = mixed(sq.reshape(du), sk.reshape(du), gv.reshape(du), s);
    mixed_has(rq.reshape(dt), rk.reshape(dt), hv.reshape(dt), s, h, t, wd);
    mixed_has(sq.reshape(du), sk.reshape(du), gv.reshape(du), s, h, u, wd);
    assert forall|j: int| 0 <= j < m implies #[trigger] same(at, mx, my, 1, j) by {
        assert(same(at, rq.reshape(dt), sq.reshape(du), 1, j));
    }
    joined_agrees(at, mx, my, w.o_proj@, cfg, t, u, m);
    assert(1 * h == h);
    assert(attention(w, cfg, x, t) == joined(mx, w.o_proj@, cfg, t));
    assert(attention(w, cfg, y, u) == joined(my, w.o_proj@, cfg, u));
}

/// A sublayer of attention over `x (1, t, d_model)`, with its tables and its mask.
pub open spec fn attention(
    w: &MimiAttentionWeights,
    cfg: &MimiTransformerConfig,
    x: Tensor,
    t: int,
) -> Tensor {
    w.value(
        x,
        angle_tensor(UnaryFn::Cos, t, cfg.width(), cfg.max_period),
        angle_tensor(UnaryFn::Sin, t, cfg.width(), cfg.max_period),
        causal_square(t),
        cfg,
        1,
        t,
    )
}

/// One value for each feature, over all positions, agrees everywhere.
proof fn spread_agrees<V>(at: At<V>, v: Seq<Scalar>, d: int, x: Tensor, y: Tensor, t: int, u: int, m: int)
    requires
        lawful(at),
        has(x, seq![1, t, d]),
        has(y, seq![1, u, d]),
        1 <= d <= usize::MAX,
        v.len() == d,
        m <= t,
        m <= u,
    ensures
        has(spread(v, d, x), seq![1, t, d]),
        has(spread(v, d, y), seq![1, u, d]),
        agrees(at, spread(v, d, x), spread(v, d, y), 1, m),
{
    spread_has(v, d, x, 1, t);
    spread_has(v, d, y, 1, u);
    products(d, 1, 1, 1, 1, 1);
    products(1, 1, d, 1, 1, 1);
    constant_has(v, seq![d]);
    let flat = Tensor::constant(v, seq![d]);
    reshape_has(flat, seq![1, 1, d]);
    let row = flat.reshape(seq![1, 1, d]);
    assert(x.dims =~= row.dims.update(1, x.dims[1]));
    assert(y.dims =~= row.dims.update(1, y.dims[1]));
    assert forall|j: int| 0 <= j < m implies #[trigger] same(at, spread(v, d, x), spread(v, d, y), 1, j) by {
        assert(at(row.broadcast_to(x.dims), 1, j) == at(row, 1, 0));
        assert(at(row.broadcast_to(y.dims), 1, j) == at(row, 1, 0));
    }
}

proof fn norm_agrees<V>(
    at: At<V>,
    w: &LayerNormWeights,
    x: Tensor,
    y: Tensor,
    d: int,
    eps: Scalar,
    t: int,
    u: int,
    m: int,
)
    requires
        lawful(at),
        has(x, seq![1, t, d]),
        has(y, seq![1, u, d]),
        1 <= d <= usize::MAX,
        w.gain@.len() == d,
        w.bias@.len() == d,
        m <= t,
        m <= u,
        agrees(at, x, y, 1, m),
    ensures
        has(w.value(x, d, eps), seq![1, t, d]),
        has(w.value(y, d, eps), seq![1, u, d]),
        agrees(at, w.value(x, d, eps), w.value(y, d, eps), 1, m),
{
    broadcast use extents;

    norm_has(w, x, d, eps, 1, t);
    norm_has(w, y, d, eps, 1, u);
    spread_agrees(at, w.gain@, d, x, y, t, u, m);
    spread_agrees(at, w.bias@, d, x, y, t, u, m);
    let nx = x.layer_norm_last_dim(eps);
    let ny = y.layer_norm_last_dim(eps);
    let gx = spread(w.gain@, d, x);
    let gy = spread(w.gain@, d, y);
    let bx = spread(w.bias@, d, x);
    let by = spread(w.bias@, d, y);
    assert forall|j: int| 0 <= j < m implies #[trigger] same(
        at,
        w.value(x, d, eps),
        w.value(y, d, eps),
        1,
        j,
    ) by {
        assert(same(at, x, y, 1, j));
        assert(same(at, nx, ny, 1, j));
        assert(same(at, gx, gy, 1, j));
        assert(same(at, bx, by, 1, j));
        assert(same(at, nx.mul(gx), ny.mul(gy), 1, j));
        assert(same(at, nx.mul(gx).add(bx), ny.mul(gy).add(by), 1, j));
    }
}

/// A residual branch, scaled feature by feature.
proof fn branch_agrees<V>(
    at: At<V>,
    v: Seq<Scalar>,
    d: int,
    x: Tensor,
    y: Tensor,
    a: Tensor,
    b: Tensor,
    t: int,
    u: int,
    m: int,
)
    requires
        lawful(at),
        has(x, seq![1, t, d]),
        has(y, seq![1, u, d]),
        has(a, seq![1, t, d]),
        has(b, seq![1, u, d]),
        1 <= d <= usize::MAX,
        v.len() == d,
        m <= t,
        m <= u,
        agrees(at, x, y, 1, m),
        agrees(at, a, b, 1, m),
    ensures
        has(x.add(a.mul(spread(v, d, a))), seq![1, t, d]),
        has(y.add(b.mul(spread(v, d, b))), seq![1, u, d]),
        agrees(at, x.add(a.mul(spread(v, d, a))), y.add(b.mul(spread(v, d, b))), 1, m),
{
    broadcast use extents;

    spread_agrees(at, v, d, a, b, t, u, m);
    let sa = spread(v, d, a);
    let sb = spread(v, d, b);
    assert forall|j: int| 0 <= j < m implies #[trigger] same(
        at,
        x.add(a.mul(sa)),
        y.add(b.mul(sb)),
        1,
        j,
    ) by {
        assert(same(at, x, y, 1, j));
        assert(same(at, a, b, 1, j));
        assert(same(at, sa, sb, 1, j));
        assert(same(at, a.mul(sa), b.mul(sb), 1, j));
    }
}

proof fn layer_agrees<V>(
    at: At<V>,
    w: &MimiTransformerLayerWeights,
    cfg: &MimiTransformerConfig,
    x: Tensor,
    y: Tensor,
    t: int,
    u: int,
    m: int,
)
    requires
        lawful(at),
        cfg.addressable(1, t),
        cfg.addressable(1, u),
        w.sized(cfg),
        has(x, seq![1, t, cfg.d_model as int]),
        has(y, seq![1, u, cfg.d_model as int]),
        1 <= m <= t,
        m <= u,
        agrees(at, x, y, 1, m),
    ensures
        agrees(at, layer_over(w, cfg, x, t), layer_over(w, cfg, y, u), 1, m),
{
    broadcast use extents;

    let d = cfg.d_model as int;
    let f = cfg.dim_feedforward as int;
    let eps = cfg.layer_norm_eps;
    norm_agrees(at, &w.norm1, x, y, d, eps, t, u, m);
    let x1 = w.norm1.value(x, d, eps);
    let y1 = w.norm1.value(y, d, eps);
    attention_agrees(at, &w.attn, cfg, x1, y1, t, u, m);
    let xa = attention(&w.attn, cfg, x1, t);
    let ya = attention(&w.attn, cfg, y1, u);
    branch_agrees(at, w.layer_scale_1@, d, x, y, xa, ya, t, u, m);
    let x2 = x.add(xa.mul(spread(w.layer_scale_1@, d, xa)));
    let y2 = y.add(ya.mul(spread(w.layer_scale_1@, d, ya)));
    norm_agrees(at, &w.norm2, x2, y2, d, eps, t, u, m);
    let x3 = w.norm2.value(x2, d, eps);
    let y3 = w.norm2.value(y2, d, eps);
    assert(f * d == d * f) by (nonlinear_arith);
    let xl = x3.linear(w.mlp.fc1@, d, f);
    let yl = y3.linear(w.mlp.fc1@, d, f);
    let xm = w.mlp.value(x3, cfg);
    let ym = w.mlp.value(y3, cfg);
    assert(has(xl, seq![1, t, f]) && has(yl, seq![1, u, f]));
    assert(has(xm, seq![1, t, d]) && has(ym, seq![1, u, d]));
    assert forall|j: int| 0 <= j < m implies #[trigger] same(at, xm, ym, 1, j) by {
        assert(same(at, x3, y3, 1, j));
        assert(same(at, xl, yl, 1, j));
        assert(same(at, xl.gelu_erf(), yl.gelu_erf(), 1, j));
        assert(same(
            at,
            xl.gelu_erf().linear(w.mlp.fc2@, f, d),
            yl.gelu_erf().linear(w.mlp.fc2@, f, d),
            1,
            j,
        ));
    }
    branch_agrees(at, w.layer_scale_2@, d, x2, y2, xm, ym, t, u, m);
}

/// A layer over `x (1, t, d_model)`, with its tables and its mask.
pub open spec fn layer_over(
    w: &MimiTransformerLayerWeights,
    cfg: &MimiTransformerConfig,
    x: Tensor,
    t: int,
) -> Tensor {
    w.value(
        x,
        angle_tensor(UnaryFn::Cos, t, cfg.width(), cfg.max_period),
        angle_tensor(UnaryFn::Sin, t, cfg.width(), cfg.max_period),
        causal_square(t),
        cfg,
        1,
        t,
    )
}

proof fn layers_agree<V>(
    at: At<V>,
    layers: Seq<MimiTransformerLayerWeights>,
    n: int,
    cfg: &MimiTransformerConfig,
    x: Tensor,
    y: Tensor,
    t: int,
    u: int,
    m: int,
)
    requires
        lawful(at),
        cfg.addressable(1, t),
        cfg.addressable(1, u),
        0 <= n <= layers.len(),
        forall|i: int| 0 <= i < layers.len() ==> (#[trigger] layers[i]).sized(cfg),
        has(x, seq![1, t, cfg.d_model as int]),
        has(y, seq![1, u, cfg.d_model as int]),
        1 <= m <= t,
        m <= u,
        agrees(at, x, y, 1, m),
    ensures
        agrees(at, layers_value(layers, n, x, cfg), layers_value(layers, n, y, cfg), 1, m),
    decreases n,
{
    if n > 0 {
        layers_agree(at, layers, n - 1, cfg, x, y, t, u, m);
        transformer_layers_have(layers, n - 1, x, cfg, 1, t);
        transformer_layers_have(layers, n - 1, y, cfg, 1, u);
        layer_agrees(
            at,
            &layers[n - 1],
            cfg,
            layers_value(layers, n - 1, x, cfg),
            layers_value(layers, n - 1, y, cfg),
            t,
            u,
            m,
        );
    }
}

/// What the transformer makes of a position depends on the positions up to it.
pub proof fn transformer_is_causal<V>(
    at: At<V>,
    w: &ProjectedTransformerWeights,
    cfg: &MimiTransformerConfig,
    input_dim: int,
    x: Tensor,
    y: Tensor,
    t: int,
    u: int,
    m: int,
)
    requires
        lawful(at),
        cfg.addressable(1, t),
        cfg.addressable(1, u),
        w.sized(cfg, input_dim),
        cfg.conv_layout,
        w.output_projs@.len() > 0,
        has(x, seq![1, input_dim, t]),
        has(y, seq![1, input_dim, u]),
        1 <= m <= t,
        m <= u,
        agrees(at, x, y, 2, m),
    ensures
        agrees(at, w.first_output(cfg, input_dim, x), w.first_output(cfg, input_dim, y), 2, m),
{
    broadcast use extents;

    let d = cfg.d_model as int;
    transformer_succeeds(w, cfg, input_dim, x, 1, t);
    transformer_succeeds(w, cfg, input_dim, y, 1, u);
    let p = seq![0int, 2, 1];
    let ex = w.entry(cfg, input_dim, x);
    let ey = w.entry(cfg, input_dim, y);
    assert(has(ex, seq![1, t, d]));
    assert(has(ey, seq![1, u, d]));
    assert forall|j: int| 0 <= j < m implies #[trigger] same(at, ex, ey, 1, j) by {
        assert(same(at, x, y, 2, j));
        assert(p[1] == 2);
        assert(same(at, x.permute(p), y.permute(p), 1, j));
        if let Some(v) = w.input_proj {
            assert(same(
                at,
                x.permute(p).linear(v@, input_dim, d),
                y.permute(p).linear(v@, input_dim, d),
                1,
                j,
            ));
        }
    }
    let layers = w.transformer.layers@;
    let n = layers.len() as int;
    layers_agree(at, layers, n, cfg, ex, ey, t, u, m);
    transformer_layers_have(layers, n, ex, cfg, 1, t);
    transformer_layers_have(layers, n, ey, cfg, 1, u);
    let hx = layers_value(layers, n, ex, cfg);
    let hy = layers_value(layers, n, ey, cfg);
    assert(w.hidden(cfg, input_dim, x) == hx);
    assert(w.hidden(cfg, input_dim, y) == hy);
    assert(w.output_sized(cfg, 0));
    let o = w.output_projs@[0].1 as int;
    assert forall|j: int| 0 <= j < m implies #[trigger] same(
        at,
        w.output(cfg, hx, 0),
        w.output(cfg, hy, 0),
        2,
        j,
    ) by {
        assert(same(at, hx, hy, 1, j));
        assert(p[2] == 1);
        match w.output_projs@[0].0 {
            None => {
                assert(same(at, hx.permute(p), hy.permute(p), 2, j));
            },
            Some(v) => {
                let lx = hx.linear(v@, d, o);
                let ly = hy.linear(v@, d, o);
                assert(same(at, lx, ly, 1, j));
                assert(same(at, lx.permute(p), ly.permute(p), 2, j));
            },
        }
    }
}

/// A frame of codes reads the latents up to its own last one.
pub proof fn downsample_is_causal<V>(
    at: At<V>,
    w: &ConvDownsample1dWeights,
    x: Tensor,
    y: Tensor,
    t: int,
    u: int,
    m: int,
)
    requires
        lawful(at),
        w.dim >= 1,
        w.stride >= 1,
        w.stride <= m <= t,
        m <= u,
        t + w.stride <= usize::MAX,
        u + w.stride <= usize::MAX,
        w.dim * w.dim * (2 * w.stride) <= usize::MAX,
        w.weight@.len() == w.dim * w.dim * (2 * w.stride),
        has(x, seq![1, w.dim as int, t]),
        has(y, seq![1, w.dim as int, u]),
        agrees(at, x, y, 2, m),
    ensures
        agrees(at, w.value(x), w.value(y), 2, m / w.stride as int),
{
    let s = w.stride as int;
    let d = w.dim as int;
    downsample_succeeds(w, x, 1, t);
    downsample_succeeds(w, y, 1, u);
    padded_agrees(at, x, y, s, LazyPadMode::Replicate, d, t, u, m);
    let px = padded(x, s, 0, LazyPadMode::Replicate);
    let py = padded(y, s, 0, LazyPadMode::Replicate);
    products(d, d, 2 * s, 1, 1, 1);
    constant_has(w.weight@, seq![d, d, 2 * s]);
    let k = Tensor::constant(w.weight@, seq![d, d, 2 * s]);
    assert forall|j: int| 0 <= j < m / s implies #[trigger] same(at, w.value(x), w.value(y), 2, j) by {
        assert(0 <= j * s && j * s + s <= m) by (nonlinear_arith)
            requires
                0 <= j <= m / s - 1,
                s >= 1,
                m >= 0,
        ;
        assert forall|i: int| 0 <= i < k.dim(2) implies #[trigger] same(at, px, py, 2, j * s + i) by {
            assert(0 <= j * s + i < m + s);
        }
        assert(same(at, px.conv1d(k, None, s, 0, 1), py.conv1d(k, None, s, 0, 1), 2, j));
    }
}

} // verus!
