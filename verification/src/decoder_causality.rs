//! What the decoder makes of a latent position depends on the positions up to it.

use crate::codec_causality::{activated_agrees, conv_agrees, residuals_agree};
use crate::codec_extents::{
    activated_keeps, conv_succeeds, decoder_channels, decoder_follows, decoder_frames,
    decoder_stages_have, resample_up_succeeds, upsample_succeeds,
};
use crate::evaluation::{agrees, lawful, same, At};
use crate::extents::{
    broadcast_to_has, constant_has, conv_transpose1d_has, extents, has, products, reshape_has,
};
use crate::lazy::Tensor;
use crate::lazy_mimi_conv::LazyPadMode;
use crate::lazy_mimi_resampler::ConvTrUpsample1dWeights;
use crate::lazy_mimi_seanet::{
    activated, decoder_stages, LazyConvTranspose1dWeights, SeaNetActivation, SeaNetConfig,
    SeaNetDecoderLayerWeights, SeaNetDecoderWeights,
};
use vstd::prelude::*;

verus! {

/// Positions of a transposed convolution before those that later input would
/// contribute to agree.
proof fn transposed_agrees<V>(
    at: At<V>,
    x: Tensor,
    y: Tensor,
    k: Tensor,
    s: int,
    groups: int,
    m: int,
)
    requires
        lawful(at),
        !x.conv_transpose1d(k, s, groups).bad(),
        !y.conv_transpose1d(k, s, groups).bad(),
        s >= 1,
        m >= 0,
        m * s <= x.conv_transpose1d(k, s, groups).dim(2),
        m * s <= y.conv_transpose1d(k, s, groups).dim(2),
        agrees(at, x, y, 2, m),
    ensures
        agrees(at, x.conv_transpose1d(k, s, groups), y.conv_transpose1d(k, s, groups), 2, m * s),
{
    assert forall|j: int| 0 <= j < m * s implies #[trigger] same(
        at,
        x.conv_transpose1d(k, s, groups),
        y.conv_transpose1d(k, s, groups),
        2,
        j,
    ) by {
        assert forall|i: int| 0 <= i && i * s <= j < i * s + k.dim(2) implies #[trigger] same(
            at,
            x,
            y,
            2,
            i,
        ) by {
            assert(i < m) by (nonlinear_arith)
                requires
                    i * s <= j < m * s,
                    s >= 1,
            ;
        }
    }
}

/// The first `n` positions agree where all do.
proof fn front_agrees<V>(at: At<V>, x: Tensor, y: Tensor, t: int, u: int, m: int)
    requires
        lawful(at),
        !x.narrow(2, 0, t).bad(),
        !y.narrow(2, 0, u).bad(),
        m <= t,
        m <= u,
        agrees(at, x, y, 2, m),
    ensures
        agrees(at, x.narrow(2, 0, t), y.narrow(2, 0, u), 2, m),
{
    assert forall|j: int| 0 <= j < m implies #[trigger] same(at, x.narrow(2, 0, t), y.narrow(2, 0, u), 2, j) by {
        assert(same(at, x, y, 2, j));
        assert(at(x.narrow(2, 0, t), 2, j) == at(x, 2, 0 + j));
        assert(at(y.narrow(2, 0, u), 2, j) == at(y, 2, 0 + j));
    }
}

/// The steps of an upsampling stage succeed; the result is the signal before it is
/// trimmed.
proof fn upsample_steps(w: &LazyConvTranspose1dWeights, x: Tensor, c: int, t: int) -> (y: Tensor)
    requires
        w.reads(c),
        w.covers(t),
        t >= 1,
        has(x, seq![1, c, t]),
    ensures
        ({
            let o = w.out_channels as int;
            let s = w.stride as int;
            let n = (t - 1) * s + w.kernel_size;
            let k = Tensor::constant(
                w.weight@,
                seq![w.in_channels as int, o / w.groups as int, w.kernel_size as int],
            );
            let raw = x.conv_transpose1d(k, s, w.groups as int);
            &&& has(raw, seq![1, o, n])
            &&& has(y, seq![1, o, n])
            &&& t * s <= n
            &&& !y.narrow(2, 0, t * s).bad()
            &&& w.value(x) == y.narrow(2, 0, t * s)
            &&& match w.bias {
                None => y == raw,
                Some(b) => {
                    let row = Tensor::constant(b@, seq![o]).reshape(seq![1, o, 1]);
                    &&& has(row, seq![1, o, 1])
                    &&& has(row.broadcast_to(seq![1, o, n]), seq![1, o, n])
                    &&& y == raw.add(row.broadcast_to(seq![1, o, n]))
                },
            }
        }),
{
    broadcast use extents;

    let o = w.out_channels as int;
    let per = o / w.groups as int;
    let kl = w.kernel_size as int;
    let s = w.stride as int;
    assert(per >= 1) by (nonlinear_arith)
        requires
            per * w.groups == o,
            o >= 1,
            w.groups >= 1,
    ;
    products(c, per, kl, 1, 1, 1);
    constant_has(w.weight@, seq![c, per, kl]);
    let kernel = Tensor::constant(w.weight@, seq![c, per, kl]);
    conv_transpose1d_has(x, kernel, s, w.groups as int);
    let raw = x.conv_transpose1d(kernel, s, w.groups as int);
    let n = (t - 1) * s + kl;
    assert(has(raw, seq![1, o, n]));
    assert((t - 1) * s == t * s - s && (t - 1) * s >= 0) by (nonlinear_arith)
        requires
            t >= 1,
            s >= 1,
    ;
    match w.bias {
        None => raw,
        Some(bias) => {
            products(o, 1, 1, 1, 1, 1);
            products(1, o, 1, 1, 1, 1);
            let flat = Tensor::constant(bias@, seq![o]);
            reshape_has(flat, seq![1, o, 1]);
            let row = flat.reshape(seq![1, o, 1]);
            broadcast_to_has(row, seq![1, o, n]);
            raw.add(row.broadcast_to(seq![1, o, n]))
        },
    }
}

/// Upsampling puts `stride` positions that agree in the place of one.
proof fn upsample_agrees<V>(
    at: At<V>,
    w: &LazyConvTranspose1dWeights,
    x: Tensor,
    y: Tensor,
    c: int,
    t: int,
    u: int,
    m: int,
)
    requires
        lawful(at),
        w.reads(c),
        w.covers(t),
        w.covers(u),
        has(x, seq![1, c, t]),
        has(y, seq![1, c, u]),
        1 <= m <= t,
        m <= u,
        agrees(at, x, y, 2, m),
    ensures
        agrees(at, w.value(x), w.value(y), 2, m * w.stride),
{
    let o = w.out_channels as int;
    let s = w.stride as int;
    let k = Tensor::constant(
        w.weight@,
        seq![w.in_channels as int, o / w.groups as int, w.kernel_size as int],
    );
    let yx = upsample_steps(w, x, c, t);
    let yy = upsample_steps(w, y, c, u);
    let (rx, ry) = (x.conv_transpose1d(k, s, w.groups as int), y.conv_transpose1d(k, s, w.groups as int));
    let nt = (t - 1) * s + w.kernel_size;
    let nu = (u - 1) * s + w.kernel_size;
    assert(0 <= m * s <= t * s && m * s <= u * s) by (nonlinear_arith)
        requires
            1 <= m <= t,
            m <= u,
            s >= 1,
    ;
    transposed_agrees(at, x, y, k, s, w.groups as int, m);
    assert forall|j: int| 0 <= j < m * s implies #[trigger] same(at, yx, yy, 2, j) by {
        assert(same(at, rx, ry, 2, j));
        if let Some(b) = w.bias {
            let row = Tensor::constant(b@, seq![o]).reshape(seq![1, o, 1]);
            let (dt, du) = (seq![1, o, nt], seq![1, o, nu]);
            assert(dt =~= row.dims.update(2, dt[2]));
            assert(du =~= row.dims.update(2, du[2]));
            assert(at(row.broadcast_to(dt), 2, j) == at(row, 2, 0));
            assert(at(row.broadcast_to(du), 2, j) == at(row, 2, 0));
            assert(same(at, row.broadcast_to(dt), row.broadcast_to(du), 2, j));
        }
    }
    front_agrees(at, yx, yy, t * s, u * s, m * s);
}

proof fn decoder_stages_agree<V>(
    at: At<V>,
    layers: Seq<SeaNetDecoderLayerWeights>,
    n: int,
    x: Tensor,
    y: Tensor,
    act: SeaNetActivation,
    mode: LazyPadMode,
    c: int,
    t: int,
    u: int,
    m: int,
)
    requires
        lawful(at),
        forall|i: int| 0 <= i < layers.len() ==> #[trigger] decoder_follows(layers, i, c, t),
        forall|i: int| 0 <= i < layers.len() ==> #[trigger] decoder_follows(layers, i, c, u),
        0 <= n <= layers.len(),
        has(x, seq![1, c, t]),
        has(y, seq![1, c, u]),
        1 <= m <= t,
        m <= u,
        agrees(at, x, y, 2, m),
    ensures
        agrees(
            at,
            decoder_stages(layers, n, x, act, mode),
            decoder_stages(layers, n, y, act, mode),
            2,
            decoder_frames(layers, n, m),
        ),
        1 <= decoder_frames(layers, n, m) <= decoder_frames(layers, n, t),
        decoder_frames(layers, n, m) <= decoder_frames(layers, n, u),
    decreases n,
{
    if n > 0 {
        decoder_stages_agree(at, layers, n - 1, x, y, act, mode, c, t, u, m);
        decoder_stages_have(layers, n - 1, x, act, mode, 1, c, t);
        decoder_stages_have(layers, n - 1, y, act, mode, 1, c, u);
        assert(decoder_follows(layers, n - 1, c, t));
        assert(decoder_follows(layers, n - 1, c, u));
        let w = layers[n - 1];
        let ci = decoder_channels(layers, n - 1, c);
        let ti = decoder_frames(layers, n - 1, t);
        let ui = decoder_frames(layers, n - 1, u);
        let mi = decoder_frames(layers, n - 1, m);
        let s = w.upsample.stride as int;
        let o = w.upsample.out_channels as int;
        assert(1 <= mi * s <= ti * s && mi * s <= ui * s) by (nonlinear_arith)
            requires
                1 <= mi <= ti,
                mi <= ui,
                s >= 1,
        ;
        let a = decoder_stages(layers, n - 1, x, act, mode);
        let b = decoder_stages(layers, n - 1, y, act, mode);
        activated_agrees(at, a, b, act, 2, mi);
        activated_keeps(a, act);
        activated_keeps(b, act);
        upsample_succeeds(&w.upsample, activated(a, act), 1, ci, ti);
        upsample_succeeds(&w.upsample, activated(b, act), 1, ci, ui);
        upsample_agrees(at, &w.upsample, activated(a, act), activated(b, act), ci, ti, ui, mi);
        residuals_agree(
            at,
            w.residuals@,
            w.residuals@.len() as int,
            w.upsample.value(activated(a, act)),
            w.upsample.value(activated(b, act)),
            act,
            mode,
            o,
            ti * s,
            ui * s,
            mi * s,
        );
    }
}

/// Latents that agree at their first `m` positions give audio that agrees at as
/// many samples as `m` positions give.
pub proof fn decoder_is_causal<V>(
    at: At<V>,
    w: &SeaNetDecoderWeights,
    cfg: &SeaNetConfig,
    x: Tensor,
    y: Tensor,
    t: int,
    u: int,
    m: int,
)
    requires
        lawful(at),
        w.fits_together(cfg, t),
        w.fits_together(cfg, u),
        has(x, seq![1, cfg.dimension as int, t]),
        has(y, seq![1, cfg.dimension as int, u]),
        1 <= m <= t,
        m <= u,
        agrees(at, x, y, 2, m),
    ensures
        agrees(at, w.value(cfg, x), w.value(cfg, y), 2, w.samples(m)),
{
    let n = w.layers@.len() as int;
    let act = cfg.activation;
    let mode = cfg.pad_mode;
    let d = cfg.dimension as int;
    let c = w.init_conv.out_channels as int;
    conv_succeeds(&w.init_conv, x, mode, 1, d, t);
    conv_succeeds(&w.init_conv, y, mode, 1, d, u);
    conv_agrees(at, &w.init_conv, x, y, mode, d, t, u, m);
    assert((m - 1) / 1 == m - 1);
    let x1 = w.init_conv.value(x, mode);
    let y1 = w.init_conv.value(y, mode);
    decoder_stages_agree(at, w.layers@, n, x1, y1, act, mode, c, t, u, m);
    decoder_stages_have(w.layers@, n, x1, act, mode, 1, c, t);
    decoder_stages_have(w.layers@, n, y1, act, mode, 1, c, u);
    let x2 = decoder_stages(w.layers@, n, x1, act, mode);
    let y2 = decoder_stages(w.layers@, n, y1, act, mode);
    let f = w.samples(m);
    let cl = decoder_channels(w.layers@, n, c);
    activated_agrees(at, x2, y2, act, 2, f);
    activated_keeps(x2, act);
    activated_keeps(y2, act);
    let (ax, ay) = (activated(x2, act), activated(y2, act));
    conv_succeeds(&w.final_conv, ax, mode, 1, cl, w.samples(t));
    conv_succeeds(&w.final_conv, ay, mode, 1, cl, w.samples(u));
    conv_agrees(at, &w.final_conv, ax, ay, mode, cl, w.samples(t), w.samples(u), f);
    assert((f - 1) / 1 == f - 1);
    if let Some(a) = cfg.final_activation {
        activated_agrees(at, w.final_conv.value(ax, mode), w.final_conv.value(ay, mode), a, 2, f);
    }
}

/// A position of codes gives latents that do not depend on later codes.
pub proof fn resample_up_is_causal<V>(
    at: At<V>,
    w: &ConvTrUpsample1dWeights,
    x: Tensor,
    y: Tensor,
    t: int,
    u: int,
    m: int,
)
    requires
        lawful(at),
        w.dim >= 1,
        w.stride >= 1,
        1 <= m <= t,
        m <= u,
        t * w.stride + w.stride <= usize::MAX,
        u * w.stride + w.stride <= usize::MAX,
        w.dim * (2 * w.stride) <= usize::MAX,
        w.weight@.len() == w.dim * (2 * w.stride),
        has(x, seq![1, w.dim as int, t]),
        has(y, seq![1, w.dim as int, u]),
        agrees(at, x, y, 2, m),
    ensures
        agrees(at, w.value(x), w.value(y), 2, m * w.stride),
{
    let s = w.stride as int;
    let d = w.dim as int;
    let k = Tensor::constant(w.weight@, seq![d, 1, 2 * s]);
    resample_up_succeeds(w, x, 1, t);
    resample_up_succeeds(w, y, 1, u);
    resample_raw_has(w, x, t);
    resample_raw_has(w, y, u);
    let (rx, ry) = (x.conv_transpose1d(k, s, d), y.conv_transpose1d(k, s, d));
    assert(0 <= m * s <= t * s && m * s <= u * s) by (nonlinear_arith)
        requires
            1 <= m <= t,
            m <= u,
            s >= 1,
    ;
    transposed_agrees(at, x, y, k, s, d, m);
    front_agrees(at, rx, ry, t * s, u * s, m * s);
}

proof fn resample_raw_has(w: &ConvTrUpsample1dWeights, x: Tensor, t: int)
    requires
        w.dim >= 1,
        w.stride >= 1,
        t >= 1,
        t * w.stride + w.stride <= usize::MAX,
        w.dim * (2 * w.stride) <= usize::MAX,
        w.weight@.len() == w.dim * (2 * w.stride),
        has(x, seq![1, w.dim as int, t]),
    ensures
        ({
            let s = w.stride as int;
            let d = w.dim as int;
            let k = Tensor::constant(w.weight@, seq![d, 1, 2 * s]);
            let raw = x.conv_transpose1d(k, s, d);
            &&& has(raw, seq![1, d, t * s + s])
            &&& w.value(x) == raw.narrow(2, 0, t * s)
        }),
{
    let s = w.stride as int;
    let d = w.dim as int;
    products(d, 1, 2 * s, 1, 1, 1);
    assert(d * 1 * (2 * s) == d * (2 * s)) by (nonlinear_arith);
    constant_has(w.weight@, seq![d, 1, 2 * s]);
    assert((t - 1) * s + 2 * s == t * s + s && t * s >= 0) by (nonlinear_arith)
        requires
            t >= 1,
            s >= 1,
    ;
    assert(d % d == 0) by (nonlinear_arith)
        requires
            d >= 1,
    ;
    conv_transpose1d_has(x, Tensor::constant(w.weight@, seq![d, 1, 2 * s]), s, d);
}

} // verus!
